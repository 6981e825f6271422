//! Character-sequence helpers shared by the parsers and renderers of the crate.
//!
//! Text is modelled as `Seq<char>`, the view of `String` and `str`.  The spec
//! functions here state what the usual string operations compute; the
//! executable functions compute them over slices of characters.
use vstd::prelude::*;
use vstd::utf8::{encode_utf8, valid_utf8, decode_utf8};

verus! {

broadcast use vstd::string::group_string_axioms;

/// Rust's `char::is_whitespace`: the Unicode `White_Space` property.
pub open spec fn is_ws(c: char) -> bool {
    ||| c == '\t' || c == '\n' || c == '\x0B' || c == '\x0C' || c == '\r' || c == ' '
    ||| c == '\u{85}' || c == '\u{A0}' || c == '\u{1680}'
    ||| ('\u{2000}' <= c && c <= '\u{200A}')
    ||| c == '\u{2028}' || c == '\u{2029}' || c == '\u{202F}' || c == '\u{205F}'
    ||| c == '\u{3000}'
}

/// Executable whitespace test.
pub fn char_is_ws(c: char) -> (b: bool)
    ensures
        b == is_ws(c),
{
    c == '\t' || c == '\n' || c == '\x0B' || c == '\x0C' || c == '\r' || c == ' ' || c
        == '\u{85}' || c == '\u{A0}' || c == '\u{1680}' || ('\u{2000}' <= c && c <= '\u{200A}')
        || c == '\u{2028}' || c == '\u{2029}' || c == '\u{202F}' || c == '\u{205F}' || c
        == '\u{3000}'
}

/// Appends one character to a string (`String::push`).
#[verifier::external_body]
pub fn string_push(s: &mut String, c: char)
    ensures
        final(s)@ == old(s)@.push(c),
{
    s.push(c);
}

/// The characters of a string slice, in order.
pub fn chars_of(s: &str) -> (v: Vec<char>)
    ensures
        v@ == s@,
{
    let mut v: Vec<char> = Vec::new();
    for c in it: s.chars()
        invariant
            v@ == it.seq().take(it.index() as int),
            it.seq() == s@,
    {
        v.push(c);
    }
    v
}

/// Appends a run of characters to a string.
pub fn push_chars(out: &mut String, v: &[char])
    ensures
        final(out)@ == old(out)@ + v@,
{
    let ghost start = out@;
    for i in 0..v.len()
        invariant
            out@ == start + v@.take(i as int),
    {
        string_push(out, v[i]);
        assert(v@.take(i + 1) == v@.take(i as int).push(v@[i as int]));
    }
    assert(v@.take(v.len() as int) == v@);
}

/// A string holding exactly the given characters.
pub fn string_of(v: &[char]) -> (s: String)
    ensures
        s@ == v@,
{
    let mut s = String::new();
    push_chars(&mut s, v);
    s
}

/// The characters `v[lo..hi]` as a string.
pub fn string_of_range(v: &[char], lo: usize, hi: usize) -> (s: String)
    requires
        lo <= hi <= v@.len(),
    ensures
        s@ == v@.subrange(lo as int, hi as int),
{
    let mut s = String::new();
    let mut i: usize = lo;
    while i < hi
        invariant
            lo <= i <= hi <= v@.len(),
            s@ == v@.subrange(lo as int, i as int),
        decreases hi - i,
    {
        string_push(&mut s, v[i]);
        assert(v@.subrange(lo as int, i + 1) == v@.subrange(lo as int, i as int).push(v@[i as int]));
        i += 1;
    }
    s
}

/// Copies the characters `v[lo..hi]`.
pub fn slice_range(v: &[char], lo: usize, hi: usize) -> (r: Vec<char>)
    requires
        lo <= hi <= v@.len(),
    ensures
        r@ == v@.subrange(lo as int, hi as int),
{
    let mut r: Vec<char> = Vec::new();
    let mut i: usize = lo;
    while i < hi
        invariant
            lo <= i <= hi <= v@.len(),
            r@ == v@.subrange(lo as int, i as int),
        decreases hi - i,
    {
        r.push(v[i]);
        assert(v@.subrange(lo as int, i + 1) == v@.subrange(lo as int, i as int).push(v@[i as int]));
        i += 1;
    }
    r
}

// ---------------------------------------------------------------------------
// Trimming

/// Number of leading whitespace characters.
pub open spec fn ws_prefix_len(s: Seq<char>) -> nat
    decreases s.len(),
{
    if s.len() > 0 && is_ws(s[0]) {
        1 + ws_prefix_len(s.drop_first())
    } else {
        0
    }
}

/// Number of trailing whitespace characters.
pub open spec fn ws_suffix_len(s: Seq<char>) -> nat
    decreases s.len(),
{
    if s.len() > 0 && is_ws(s.last()) {
        1 + ws_suffix_len(s.drop_last())
    } else {
        0
    }
}

/// `str::trim_start`.
pub open spec fn trim_start(s: Seq<char>) -> Seq<char> {
    s.skip(ws_prefix_len(s) as int)
}

/// `str::trim_end`.
pub open spec fn trim_end(s: Seq<char>) -> Seq<char> {
    s.take(s.len() - ws_suffix_len(s))
}

/// `str::trim`.
pub open spec fn trim(s: Seq<char>) -> Seq<char> {
    trim_end(trim_start(s))
}

/// Whether a text is empty once whitespace is trimmed away.
pub open spec fn is_blank(s: Seq<char>) -> bool {
    forall|i: int| 0 <= i < s.len() ==> is_ws(#[trigger] s[i])
}

pub proof fn lemma_ws_prefix_len(s: Seq<char>, i: int)
    requires
        0 <= i <= s.len(),
        forall|j: int| 0 <= j < i ==> is_ws(#[trigger] s[j]),
        i == s.len() || !is_ws(s[i]),
    ensures
        ws_prefix_len(s) == i,
    decreases i,
{
    if i > 0 {
        assert(is_ws(s[0]));
        let t = s.drop_first();
        assert forall|j: int| 0 <= j < i - 1 implies is_ws(#[trigger] t[j]) by {
            assert(t[j] == s[j + 1]);
        }
        if i < s.len() {
            assert(t[i - 1] == s[i]);
        }
        lemma_ws_prefix_len(t, i - 1);
    }
}

pub proof fn lemma_ws_suffix_len(s: Seq<char>, k: int)
    requires
        0 <= k <= s.len(),
        forall|j: int| s.len() - k <= j < s.len() ==> is_ws(#[trigger] s[j]),
        k == s.len() || !is_ws(s[s.len() - k - 1]),
    ensures
        ws_suffix_len(s) == k,
    decreases k,
{
    if k > 0 {
        assert(is_ws(s[s.len() - 1]));
        let t = s.drop_last();
        assert forall|j: int| t.len() - (k - 1) <= j < t.len() implies is_ws(#[trigger] t[j]) by {
            assert(t[j] == s[j]);
        }
        if k < s.len() {
            assert(t[t.len() - (k - 1) - 1] == s[s.len() - k - 1]);
        }
        lemma_ws_suffix_len(t, k - 1);
    }
}

pub proof fn lemma_ws_prefix_bounds(s: Seq<char>)
    ensures
        ws_prefix_len(s) <= s.len(),
        forall|j: int| 0 <= j < ws_prefix_len(s) ==> is_ws(#[trigger] s[j]),
        ws_prefix_len(s) < s.len() ==> !is_ws(s[ws_prefix_len(s) as int]),
    decreases s.len(),
{
    if s.len() > 0 && is_ws(s[0]) {
        let t = s.drop_first();
        lemma_ws_prefix_bounds(t);
        assert forall|j: int| 0 <= j < ws_prefix_len(s) implies is_ws(#[trigger] s[j]) by {
            if j > 0 {
                assert(s[j] == t[j - 1]);
            }
        }
        if ws_prefix_len(s) < s.len() {
            assert(s[ws_prefix_len(s) as int] == t[ws_prefix_len(t) as int]);
        }
    }
}

pub proof fn lemma_ws_suffix_bounds(s: Seq<char>)
    ensures
        ws_suffix_len(s) <= s.len(),
        forall|j: int| s.len() - ws_suffix_len(s) <= j < s.len() ==> is_ws(#[trigger] s[j]),
        ws_suffix_len(s) < s.len() ==> !is_ws(s[s.len() - ws_suffix_len(s) - 1]),
    decreases s.len(),
{
    if s.len() > 0 && is_ws(s.last()) {
        let t = s.drop_last();
        lemma_ws_suffix_bounds(t);
        assert forall|j: int| s.len() - ws_suffix_len(s) <= j < s.len() implies is_ws(
            #[trigger] s[j],
        ) by {
            if j < s.len() - 1 {
                assert(s[j] == t[j]);
            }
        }
        if ws_suffix_len(s) < s.len() {
            assert(s[s.len() - ws_suffix_len(s) - 1] == t[t.len() - ws_suffix_len(t) - 1]);
        }
    }
}

/// A text is blank exactly when trimming leaves nothing.
pub proof fn lemma_trim_empty_iff_blank(s: Seq<char>)
    ensures
        trim(s).len() == 0 <==> is_blank(s),
{
    lemma_ws_prefix_bounds(s);
    let t = trim_start(s);
    lemma_ws_suffix_bounds(t);
    if is_blank(s) {
        lemma_ws_prefix_len(s, s.len() as int);
    }
    if trim(s).len() == 0 {
        assert forall|i: int| 0 <= i < s.len() implies is_ws(#[trigger] s[i]) by {
            if i >= ws_prefix_len(s) {
                assert(s[i] == t[i - ws_prefix_len(s)]);
            }
        }
    }
}

/// Index of the first non-whitespace character of `v[lo..hi]`, or `hi`.
pub fn skip_ws_forward(v: &[char], lo: usize, hi: usize) -> (r: usize)
    requires
        lo <= hi <= v@.len(),
    ensures
        lo <= r <= hi,
        r - lo == ws_prefix_len(v@.subrange(lo as int, hi as int)),
{
    let mut i: usize = lo;
    while i < hi && char_is_ws(v[i])
        invariant
            lo <= i <= hi <= v@.len(),
            forall|j: int| lo <= j < i ==> is_ws(#[trigger] v@[j]),
        decreases hi - i,
    {
        i += 1;
    }
    proof {
        let s = v@.subrange(lo as int, hi as int);
        assert forall|j: int| 0 <= j < i - lo implies is_ws(#[trigger] s[j]) by {
            assert(s[j] == v@[lo + j]);
        }
        if i < hi {
            assert(s[i - lo] == v@[i as int]);
        }
        lemma_ws_prefix_len(s, i - lo);
    }
    i
}

/// One past the last non-whitespace character of `v[lo..hi]`, or `lo`.
pub fn skip_ws_backward(v: &[char], lo: usize, hi: usize) -> (r: usize)
    requires
        lo <= hi <= v@.len(),
    ensures
        lo <= r <= hi,
        hi - r == ws_suffix_len(v@.subrange(lo as int, hi as int)),
{
    let mut i: usize = hi;
    while i > lo && char_is_ws(v[i - 1])
        invariant
            lo <= i <= hi <= v@.len(),
            forall|j: int| i <= j < hi ==> is_ws(#[trigger] v@[j]),
        decreases i - lo,
    {
        i -= 1;
    }
    proof {
        let s = v@.subrange(lo as int, hi as int);
        assert forall|j: int| s.len() - (hi - i) <= j < s.len() implies is_ws(#[trigger] s[j]) by {
            assert(s[j] == v@[lo + j]);
        }
        if i > lo {
            assert(s[s.len() - (hi - i) - 1] == v@[i - 1]);
        }
        lemma_ws_suffix_len(s, hi - i);
    }
    i
}

/// Bounds `(a, b)` such that `v[a..b]` is `v[lo..hi]` trimmed.
pub fn trim_bounds(v: &[char], lo: usize, hi: usize) -> (r: (usize, usize))
    requires
        lo <= hi <= v@.len(),
    ensures
        lo <= r.0 <= r.1 <= hi,
        v@.subrange(r.0 as int, r.1 as int) == trim(v@.subrange(lo as int, hi as int)),
{
    let a = skip_ws_forward(v, lo, hi);
    let b = skip_ws_backward(v, a, hi);
    proof {
        let s = v@.subrange(lo as int, hi as int);
        assert(trim_start(s) == v@.subrange(a as int, hi as int));
    }
    (a, b)
}

/// `s.trim()` as a fresh string.
pub fn trim_string(s: &str) -> (r: String)
    ensures
        r@ == trim(s@),
{
    let v = chars_of(s);
    let (a, b) = trim_bounds(&v, 0, v.len());
    assert(v@.subrange(0, v@.len() as int) == v@);
    string_of_range(&v, a, b)
}

/// Whether `s.trim().is_empty()`.
pub fn str_is_blank(s: &str) -> (b: bool)
    ensures
        b == is_blank(s@),
        b == (trim(s@).len() == 0),
{
    let v = chars_of(s);
    let mut i: usize = 0;
    while i < v.len()
        invariant
            i <= v@.len(),
            v@ == s@,
            forall|j: int| 0 <= j < i ==> is_ws(#[trigger] v@[j]),
        decreases v.len() - i,
    {
        if !char_is_ws(v[i]) {
            proof {
                lemma_trim_empty_iff_blank(s@);
            }
            return false;
        }
        i += 1;
    }
    proof {
        lemma_trim_empty_iff_blank(s@);
    }
    true
}

// ---------------------------------------------------------------------------
// Comparing and searching

/// Whether the character sequences of two string slices are equal.
pub fn str_eq(a: &str, b: &str) -> (r: bool)
    ensures
        r == (a@ == b@),
{
    let x = chars_of(a);
    let y = chars_of(b);
    seq_eq(&x, &y)
}

/// Whether two character slices are equal.
pub fn seq_eq(x: &[char], y: &[char]) -> (r: bool)
    ensures
        r == (x@ == y@),
{
    if x.len() != y.len() {
        return false;
    }
    let mut i: usize = 0;
    while i < x.len()
        invariant
            i <= x@.len(),
            x@.len() == y@.len(),
            forall|j: int| 0 <= j < i ==> x@[j] == y@[j],
        decreases x.len() - i,
    {
        if x[i] != y[i] {
            return false;
        }
        i += 1;
    }
    assert(x@ =~= y@);
    true
}

/// Whether `p` occurs in `v` at position `at`.
pub open spec fn occurs_at(v: Seq<char>, p: Seq<char>, at: int) -> bool {
    0 <= at && at + p.len() <= v.len() && v.subrange(at, at + p.len()) == p
}

/// Executable `occurs_at`.
pub fn matches_at(v: &[char], p: &[char], at: usize) -> (r: bool)
    ensures
        r == occurs_at(v@, p@, at as int),
{
    if at > v.len() || p.len() > v.len() - at {
        return false;
    }
    let mut i: usize = 0;
    while i < p.len()
        invariant
            i <= p@.len(),
            at <= v@.len(),
            p@.len() <= v@.len() - at,
            forall|j: int| 0 <= j < i ==> v@[at + j] == p@[j],
        decreases p.len() - i,
    {
        assert(at + i < v.len());
        if v[at + i] != p[i] {
            assert(v@.subrange(at as int, at + p@.len())[i as int] == v@[at + i]);
            return false;
        }
        i += 1;
    }
    assert(v@.subrange(at as int, at + p@.len()) =~= p@);
    true
}

/// `s.starts_with(p)` over character sequences.
pub open spec fn starts_with(s: Seq<char>, p: Seq<char>) -> bool {
    p.is_prefix_of(s)
}

/// `s.ends_with(p)` over character sequences.
pub open spec fn ends_with(s: Seq<char>, p: Seq<char>) -> bool {
    p.is_suffix_of(s)
}

/// Executable `starts_with`.
pub fn has_prefix(v: &[char], p: &[char]) -> (r: bool)
    ensures
        r == starts_with(v@, p@),
{
    let r = matches_at(v, p, 0);
    proof {
        if r {
            assert(v@.subrange(0, p@.len() as int) == p@);
        }
    }
    r
}

/// Executable `ends_with`.
pub fn has_suffix(v: &[char], p: &[char]) -> (r: bool)
    ensures
        r == ends_with(v@, p@),
{
    if p.len() > v.len() {
        return false;
    }
    matches_at(v, p, v.len() - p.len())
}

/// The first position at or after `from` where `p` occurs in `v`.
pub open spec fn find_from(v: Seq<char>, p: Seq<char>, from: int) -> Option<int>
    decreases v.len() + 1 - from,
{
    if from < 0 || from + p.len() > v.len() {
        None
    } else if occurs_at(v, p, from) {
        Some(from)
    } else {
        find_from(v, p, from + 1)
    }
}

/// `str::find`: the first position where `p` occurs in `v`.
pub open spec fn find(v: Seq<char>, p: Seq<char>) -> Option<int> {
    find_from(v, p, 0)
}

pub proof fn lemma_find_from_facts(v: Seq<char>, p: Seq<char>, from: int)
    requires
        0 <= from,
    ensures
        find_from(v, p, from) matches Some(k) ==> from <= k && occurs_at(v, p, k) && forall|
            j: int,
        | from <= j < k ==> !occurs_at(v, p, j),
        find_from(v, p, from) is None ==> forall|j: int| from <= j ==> !occurs_at(v, p, j),
    decreases v.len() + 1 - from,
{
    if from + p.len() <= v.len() && !occurs_at(v, p, from) {
        lemma_find_from_facts(v, p, from + 1);
    }
}

/// Executable `find_from`.
pub fn find_at_or_after(v: &[char], p: &[char], from: usize) -> (r: Option<usize>)
    ensures
        match r {
            Some(k) => find_from(v@, p@, from as int) == Some(k as int),
            None => find_from(v@, p@, from as int) is None,
        },
{
    if p.len() == 0 {
        if from <= v.len() {
            assert(v@.subrange(from as int, from as int) =~= p@);
            return Some(from);
        }
        return None;
    }
    let mut i: usize = from;
    while i <= v.len() && p.len() <= v.len() - i
        invariant
            from <= i,
            p@.len() >= 1,
            find_from(v@, p@, from as int) == find_from(v@, p@, i as int),
        decreases v.len() - i,
    {
        if matches_at(v, p, i) {
            return Some(i);
        }
        i += 1;
    }
    None
}

/// Executable `find`.
pub fn find_in(v: &[char], p: &[char]) -> (r: Option<usize>)
    ensures
        match r {
            Some(k) => find(v@, p@) == Some(k as int),
            None => find(v@, p@) is None,
        },
{
    find_at_or_after(v, p, 0)
}

/// Whether `p` occurs anywhere in `v` (`str::contains`).
pub open spec fn contains(v: Seq<char>, p: Seq<char>) -> bool {
    find(v, p) is Some
}

pub proof fn lemma_contains_iff(v: Seq<char>, p: Seq<char>)
    ensures
        contains(v, p) <==> exists|k: int| occurs_at(v, p, k),
{
    lemma_find_from_facts(v, p, 0);
    if exists|k: int| occurs_at(v, p, k) {
        let k = choose|k: int| occurs_at(v, p, k);
        assert(0 <= k);
    }
}

/// Executable `contains` over string slices.
pub fn str_contains(s: &str, p: &str) -> (r: bool)
    ensures
        r == contains(s@, p@),
{
    let v = chars_of(s);
    let q = chars_of(p);
    find_in(&v, &q).is_some()
}

/// Executable `starts_with` over string slices.
pub fn str_starts_with(s: &str, p: &str) -> (r: bool)
    ensures
        r == starts_with(s@, p@),
{
    let v = chars_of(s);
    let q = chars_of(p);
    has_prefix(&v, &q)
}

// ---------------------------------------------------------------------------
// Splitting

/// `s.split(c)`: the pieces between occurrences of `c` (one more piece than
/// there are occurrences).
pub open spec fn split_on<T>(s: Seq<T>, c: T) -> Seq<Seq<T>>
    decreases s.len(),
{
    if s.len() == 0 {
        seq![Seq::<T>::empty()]
    } else {
        let rest = split_on(s.drop_last(), c);
        if s.last() == c {
            rest.push(Seq::<T>::empty())
        } else {
            rest.update(rest.len() - 1, rest.last().push(s.last()))
        }
    }
}

pub proof fn lemma_split_on_nonempty<T>(s: Seq<T>, c: T)
    ensures
        split_on(s, c).len() >= 1,
    decreases s.len(),
{
    if s.len() > 0 {
        lemma_split_on_nonempty(s.drop_last(), c);
    }
}

/// The last piece of `split_on(s, c)` holds no `c`.
pub proof fn lemma_split_on_last_no_sep<T>(s: Seq<T>, c: T)
    ensures
        split_on(s, c).len() >= 1,
        forall|j: int|
            0 <= j < split_on(s, c).last().len() ==> #[trigger] split_on(s, c).last()[j] != c,
    decreases s.len(),
{
    lemma_split_on_nonempty(s, c);
    if s.len() > 0 {
        lemma_split_on_last_no_sep(s.drop_last(), c);
    }
}

/// Pushing one more element onto the sequence being split.
pub proof fn lemma_split_on_push<T>(s: Seq<T>, x: T, c: T)
    ensures
        split_on(s.push(x), c) == (if x == c {
            split_on(s, c).push(Seq::<T>::empty())
        } else {
            split_on(s, c).update(
                split_on(s, c).len() - 1,
                split_on(s, c).last().push(x),
            )
        }),
{
    assert(s.push(x).drop_last() == s);
}

/// A sequence without the separator is a single piece.
pub proof fn lemma_split_on_single<T>(x: Seq<T>, c: T)
    requires
        forall|i: int| 0 <= i < x.len() ==> x[i] != c,
    ensures
        split_on(x, c) == seq![x],
    decreases x.len(),
{
    if x.len() == 0 {
        assert(x =~= Seq::<T>::empty());
        assert(split_on(x, c) =~= seq![x]);
    } else {
        let t = x.drop_last();
        lemma_split_on_single(t, c);
        assert(x =~= t.push(x.last()));
        assert(x.last() != c) by {
            assert(x[x.len() - 1] == x.last());
        }
        lemma_split_on_push(t, x.last(), c);
        assert(t.push(x.last()) =~= x);
        assert(split_on(x, c) =~= seq![x]);
    }
}

/// Splitting `x + y` is splitting `x`, except that its last piece goes on
/// with `y`.
pub proof fn lemma_split_on_append<T>(x: Seq<T>, y: Seq<T>, c: T)
    ensures
        split_on(x + y, c) == split_on(x, c).drop_last() + split_on(split_on(x, c).last() + y, c),
    decreases y.len(),
{
    lemma_split_on_last_no_sep(x, c);
    let d = split_on(x, c).drop_last();
    let l = split_on(x, c).last();
    if y.len() == 0 {
        assert(x + y =~= x);
        assert(l + y =~= l);
        assert forall|i: int| 0 <= i < l.len() implies l[i] != c by {}
        lemma_split_on_single(l, c);
        assert(split_on(x, c) =~= d + seq![l]);
    } else {
        let y0 = y.drop_last();
        let t = y.last();
        lemma_split_on_append(x, y0, c);
        assert(x + y =~= (x + y0).push(t));
        assert(l + y =~= (l + y0).push(t));
        lemma_split_on_push(x + y0, t, c);
        lemma_split_on_push(l + y0, t, c);
        lemma_split_on_nonempty(l + y0, c);
        let r = split_on(l + y0, c);
        if t == c {
            assert((d + r).push(Seq::<T>::empty()) =~= d + r.push(Seq::<T>::empty()));
        } else {
            assert((d + r).update((d + r).len() - 1, (d + r).last().push(t)) =~= d + r.update(
                r.len() - 1,
                r.last().push(t),
            ));
        }
    }
}

/// `str::lines`: pieces ended by `\n` (with a `\r` before it dropped), and a
/// final unterminated piece when it is non-empty.
pub open spec fn lines_of(s: Seq<char>) -> Seq<Seq<char>> {
    let parts = split_on(s, '\n');
    let ended = parts.take(parts.len() - 1).map_values(|p: Seq<char>| strip_cr(p));
    if parts.last().len() == 0 {
        ended
    } else {
        ended.push(parts.last())
    }
}

/// Drops one trailing `\r`.
pub open spec fn strip_cr(p: Seq<char>) -> Seq<char> {
    if p.len() > 0 && p.last() == '\r' {
        p.drop_last()
    } else {
        p
    }
}

/// Splits `v` at every occurrence of `c`.
pub fn split_chars(v: &[char], c: char) -> (r: Vec<Vec<char>>)
    ensures
        r@.len() == split_on(v@, c).len(),
        forall|i: int| 0 <= i < r@.len() ==> #[trigger] r@[i]@ == split_on(v@, c)[i],
{
    let mut r: Vec<Vec<char>> = Vec::new();
    let mut cur: Vec<char> = Vec::new();
    let mut i: usize = 0;
    assert(v@.take(0) =~= Seq::<char>::empty());
    while i < v.len()
        invariant
            i <= v@.len(),
            split_on(v@.take(i as int), c).len() == r@.len() + 1,
            forall|k: int| 0 <= k < r@.len() ==> #[trigger] r@[k]@ == split_on(v@.take(i as int), c)[k],
            cur@ == split_on(v@.take(i as int), c).last(),
        decreases v.len() - i,
    {
        proof {
            assert(v@.take(i + 1) == v@.take(i as int).push(v@[i as int]));
            lemma_split_on_push(v@.take(i as int), v@[i as int], c);
        }
        if v[i] == c {
            let done = cur;
            r.push(done);
            cur = Vec::new();
        } else {
            cur.push(v[i]);
        }
        i += 1;
    }
    assert(v@.take(v@.len() as int) == v@);
    r.push(cur);
    r
}

/// Splits `v` at every occurrence of the byte `c` (`<[u8]>::split`).
pub fn split_bytes(v: &[u8], c: u8) -> (r: Vec<Vec<u8>>)
    ensures
        r@.len() == split_on(v@, c).len(),
        forall|i: int| 0 <= i < r@.len() ==> #[trigger] r@[i]@ == split_on(v@, c)[i],
{
    let mut r: Vec<Vec<u8>> = Vec::new();
    let mut cur: Vec<u8> = Vec::new();
    let mut i: usize = 0;
    assert(v@.take(0) =~= Seq::<u8>::empty());
    while i < v.len()
        invariant
            i <= v@.len(),
            split_on(v@.take(i as int), c).len() == r@.len() + 1,
            forall|k: int| 0 <= k < r@.len() ==> #[trigger] r@[k]@ == split_on(v@.take(i as int), c)[k],
            cur@ == split_on(v@.take(i as int), c).last(),
        decreases v.len() - i,
    {
        proof {
            assert(v@.take(i + 1) == v@.take(i as int).push(v@[i as int]));
            lemma_split_on_push(v@.take(i as int), v@[i as int], c);
        }
        if v[i] == c {
            let done = cur;
            r.push(done);
            cur = Vec::new();
        } else {
            cur.push(v[i]);
        }
        i += 1;
    }
    assert(v@.take(v@.len() as int) == v@);
    r.push(cur);
    r
}

/// Splits `s` into the pieces of `str::lines`.
pub fn lines_chars(v: &[char]) -> (r: Vec<Vec<char>>)
    ensures
        r@.len() == lines_of(v@).len(),
        forall|i: int| 0 <= i < r@.len() ==> #[trigger] r@[i]@ == lines_of(v@)[i],
{
    let parts = split_chars(v, '\n');
    proof {
        lemma_split_on_nonempty(v@, '\n');
    }
    let n = parts.len();
    let mut r: Vec<Vec<char>> = Vec::new();
    let mut i: usize = 0;
    while i + 1 < n
        invariant
            n == parts@.len(),
            n >= 1,
            i + 1 <= n,
            parts@.len() == split_on(v@, '\n').len(),
            forall|k: int| 0 <= k < parts@.len() ==> #[trigger] parts@[k]@ == split_on(v@, '\n')[k],
            r@.len() == i,
            forall|k: int| 0 <= k < i ==> #[trigger] r@[k]@ == strip_cr(split_on(v@, '\n')[k]),
        decreases n - i,
    {
        let p = &parts[i];
        let plen = p.len();
        let q = if plen > 0 && p[plen - 1] == '\r' {
            slice_range(p, 0, plen - 1)
        } else {
            slice_range(p, 0, plen)
        };
        proof {
            assert(parts@[i as int]@ == split_on(v@, '\n')[i as int]);
            assert(p@.subrange(0, plen as int) == p@);
            assert(p@.drop_last() == p@.subrange(0, plen - 1));
        }
        r.push(q);
        i += 1;
    }
    let last = &parts[n - 1];
    if last.len() > 0 {
        let l = slice_range(last, 0, last.len());
        assert(last@.subrange(0, last@.len() as int) == last@);
        r.push(l);
    }
    proof {
        let ps = split_on(v@, '\n');
        let ended = ps.take(ps.len() - 1).map_values(|p: Seq<char>| strip_cr(p));
        assert(ps.last() == parts@[n - 1]@);
        if ps.last().len() == 0 {
            assert forall|k: int| 0 <= k < r@.len() implies #[trigger] r@[k]@ == lines_of(v@)[k] by {
                assert(ended[k] == strip_cr(ps[k]));
            }
        } else {
            assert forall|k: int| 0 <= k < r@.len() implies #[trigger] r@[k]@ == lines_of(v@)[k] by {
                if k < n - 1 {
                    assert(ended[k] == strip_cr(ps[k]));
                }
            }
        }
    }
    r
}

// ---------------------------------------------------------------------------
// Decimal rendering

/// The ASCII digit for `d` (`0 <= d < 10`).
pub open spec fn digit_char(d: int) -> char {
    if d == 0 {
        '0'
    } else if d == 1 {
        '1'
    } else if d == 2 {
        '2'
    } else if d == 3 {
        '3'
    } else if d == 4 {
        '4'
    } else if d == 5 {
        '5'
    } else if d == 6 {
        '6'
    } else if d == 7 {
        '7'
    } else if d == 8 {
        '8'
    } else {
        '9'
    }
}

/// The decimal representation of `n`, without leading zeros.
pub open spec fn decimal(n: nat) -> Seq<char>
    decreases n,
{
    if n < 10 {
        seq![digit_char(n as int)]
    } else {
        decimal(n / 10).push(digit_char((n % 10) as int))
    }
}

/// Executable `digit_char`.
pub fn digit(d: u64) -> (c: char)
    requires
        d < 10,
    ensures
        c == digit_char(d as int),
{
    if d == 0 {
        '0'
    } else if d == 1 {
        '1'
    } else if d == 2 {
        '2'
    } else if d == 3 {
        '3'
    } else if d == 4 {
        '4'
    } else if d == 5 {
        '5'
    } else if d == 6 {
        '6'
    } else if d == 7 {
        '7'
    } else if d == 8 {
        '8'
    } else {
        '9'
    }
}

/// Appends the decimal representation of `n`.
pub fn push_decimal(out: &mut String, n: u64)
    ensures
        final(out)@ == old(out)@ + decimal(n as nat),
    decreases n,
{
    if n >= 10 {
        push_decimal(out, n / 10);
    }
    let d = digit(n % 10);
    string_push(out, d);
}

/// The decimal representation of `n` as a string.
pub fn decimal_string(n: u64) -> (s: String)
    ensures
        s@ == decimal(n as nat),
{
    let mut s = String::new();
    push_decimal(&mut s, n);
    s
}

// ---------------------------------------------------------------------------
// UTF-8 byte lengths

/// Byte length of the UTF-8 encoding of a character sequence.
pub open spec fn utf8_len(s: Seq<char>) -> nat
    decreases s.len(),
{
    if s.len() == 0 {
        0
    } else {
        char_utf8_len(s[0]) + utf8_len(s.drop_first())
    }
}

/// Byte length of the UTF-8 encoding of one character.
pub open spec fn char_utf8_len(c: char) -> nat {
    if c as u32 <= 0x7F {
        1
    } else if c as u32 <= 0x7FF {
        2
    } else if c as u32 <= 0xFFFF {
        3
    } else {
        4
    }
}

pub proof fn lemma_utf8_len(s: Seq<char>)
    ensures
        encode_utf8(s).len() == utf8_len(s),
    decreases s.len(),
{
    if s.len() > 0 {
        lemma_utf8_len(s.drop_first());
        vstd::utf8::char_is_scalar(s[0]);
    }
}

pub proof fn lemma_utf8_len_append(a: Seq<char>, b: Seq<char>)
    ensures
        utf8_len(a + b) == utf8_len(a) + utf8_len(b),
    decreases a.len(),
{
    if a.len() > 0 {
        assert((a + b).drop_first() == a.drop_first() + b);
        lemma_utf8_len_append(a.drop_first(), b);
    } else {
        assert(a + b == b);
    }
}

/// Whether the UTF-8 encoding of `v` is exactly `n` bytes long.
pub fn utf8_len_is(v: &[char], n: usize) -> (r: bool)
    ensures
        r == (encode_utf8(v@).len() == n),
{
    proof {
        lemma_utf8_len(v@);
    }
    let mut total: usize = 0;
    let mut i: usize = 0;
    while i < v.len()
        invariant
            i <= v@.len(),
            total == utf8_len(v@.take(i as int)),
            total <= n,
            encode_utf8(v@).len() == utf8_len(v@),
        decreases v.len() - i,
    {
        let c = v[i];
        let u = c as u32;
        let w: usize = if u <= 0x7F {
            1
        } else if u <= 0x7FF {
            2
        } else if u <= 0xFFFF {
            3
        } else {
            4
        };
        proof {
            assert(v@.take(i + 1) == v@.take(i as int) + seq![c]);
            lemma_utf8_len_append(v@.take(i as int), seq![c]);
            assert(seq![c].drop_first() =~= Seq::<char>::empty());
            assert(utf8_len(Seq::<char>::empty()) == 0);
            assert(seq![c][0] == c);
            assert(utf8_len(seq![c]) == char_utf8_len(c));
            assert(v@ == v@.take(i + 1) + v@.skip(i + 1));
            lemma_utf8_len_append(v@.take(i + 1), v@.skip(i + 1));
        }
        assert(w == char_utf8_len(c));
        assert(utf8_len(v@.take(i + 1)) == total + w);
        assert(utf8_len(v@) >= total + w);
        if w > n - total {
            return false;
        }
        total = total + w;
        i += 1;
    }
    assert(v@.take(v@.len() as int) == v@);
    total == n
}

// ---------------------------------------------------------------------------
// Unsigned numbers

/// An ASCII decimal digit.
pub open spec fn is_digit(c: char) -> bool {
    '0' <= c && c <= '9'
}

/// The value of a decimal digit.
pub open spec fn digit_value(c: char) -> nat {
    (c as int - '0' as int) as nat
}

/// The value of a run of decimal digits.
pub open spec fn digits_value(d: Seq<char>) -> nat
    decreases d.len(),
{
    if d.len() == 0 {
        0
    } else {
        digits_value(d.drop_last()) * 10 + digit_value(d.last())
    }
}

/// The digits of an unsigned number: the text with one leading `+` dropped.
pub open spec fn unsigned_digits(s: Seq<char>) -> Seq<char> {
    if s.len() > 0 && s[0] == '+' {
        s.drop_first()
    } else {
        s
    }
}

/// `from_str` of an unsigned integer type whose largest value is `max`: an
/// optional `+`, then one or more ASCII digits whose value is at most `max`.
pub open spec fn parse_uint(s: Seq<char>, max: nat) -> Option<nat> {
    let d = unsigned_digits(s);
    if d.len() == 0 || exists|i: int| 0 <= i < d.len() && !is_digit(#[trigger] d[i]) {
        None
    } else if digits_value(d) > max {
        None
    } else {
        Some(digits_value(d))
    }
}

pub proof fn lemma_digits_value_monotone(d: Seq<char>, j: int)
    requires
        0 <= j <= d.len(),
    ensures
        digits_value(d.take(j)) <= digits_value(d),
    decreases d.len() - j,
{
    if j < d.len() {
        lemma_digits_value_monotone(d, j + 1);
        assert(d.take(j + 1).drop_last() == d.take(j));
    } else {
        assert(d.take(j) == d);
    }
}

/// Parses `v[lo..hi]` as an unsigned number no larger than `max`.
pub fn parse_uint_range(v: &[char], lo: usize, hi: usize, max: u64) -> (r: Option<u64>)
    requires
        lo <= hi <= v@.len(),
    ensures
        match r {
            Some(n) => parse_uint(v@.subrange(lo as int, hi as int), max as nat) == Some(n as nat),
            None => parse_uint(v@.subrange(lo as int, hi as int), max as nat) is None,
        },
{
    let ghost s = v@.subrange(lo as int, hi as int);
    let start = if lo < hi && v[lo] == '+' {
        lo + 1
    } else {
        lo
    };
    let ghost d = v@.subrange(start as int, hi as int);
    proof {
        if lo < hi && v@[lo as int] == '+' {
            assert(d == s.drop_first());
        } else {
            assert(d == s);
        }
    }
    assert(d == unsigned_digits(s));
    if start == hi {
        return None;
    }
    let mut val: u64 = 0;
    let mut i = start;
    assert(d.take(0) =~= Seq::<char>::empty());
    while i < hi
        invariant
            start <= i <= hi <= v@.len(),
            d == v@.subrange(start as int, hi as int),
            d == unsigned_digits(s),
            s == v@.subrange(lo as int, hi as int),
            forall|k: int| start <= k < i ==> is_digit(#[trigger] v@[k]),
            val == digits_value(d.take(i - start)),
            val <= max,
        decreases hi - i,
    {
        let c = v[i];
        if !('0' <= c && c <= '9') {
            assert(!is_digit(unsigned_digits(s)[i - start]));
            assert(parse_uint(s, max as nat) is None);
            return None;
        }
        let dv = (c as u32 - '0' as u32) as u64;
        assert(d.take(i - start + 1).drop_last() == d.take(i - start));
        assert(d.take(i - start + 1).last() == c);
        assert(is_digit(c));
        assert(dv == digit_value(c));
        let m = val.checked_mul(10);
        let a = match m {
            Some(m) => m.checked_add(dv),
            None => None,
        };
        let too_big = match a {
            Some(a) => a > max,
            None => true,
        };
        if too_big {
            proof {
                lemma_digits_value_monotone(d, i - start + 1);
                assert(digits_value(d.take(i - start + 1)) == val * 10 + dv);
                assert(digits_value(d) > max);
                assert(parse_uint(s, max as nat) is None);
            }
            return None;
        }
        val = a.unwrap();
        i += 1;
    }
    assert(d.take(hi - start) == d);
    assert forall|k: int| 0 <= k < d.len() implies is_digit(#[trigger] d[k]) by {
        assert(d[k] == v@[start + k]);
    }
    Some(val)
}

// ---------------------------------------------------------------------------
// Bytes

/// The text that UTF-8 bytes encode, or `dflt` when they are not UTF-8.
pub open spec fn text_or(b: Seq<u8>, dflt: Seq<char>) -> Seq<char> {
    if valid_utf8(b) {
        decode_utf8(b)
    } else {
        dflt
    }
}

/// `std::str::from_utf8`: the text that the bytes encode, when they are
/// valid UTF-8.
#[verifier::external_body]
pub fn utf8_text(b: &[u8]) -> (r: Option<String>)
    ensures
        r is Some <==> valid_utf8(b@),
        r matches Some(s) ==> s@ == decode_utf8(b@),
{
    match std::str::from_utf8(b) {
        Ok(s) => Some(s.to_string()),
        Err(_) => None,
    }
}

/// The text that `b` encodes, or `dflt` when it is not UTF-8.
pub fn utf8_text_or(b: &[u8], dflt: &str) -> (r: String)
    ensures
        r@ == text_or(b@, dflt@),
{
    match utf8_text(b) {
        Some(s) => s,
        None => dflt.to_string(),
    }
}

/// Copies the bytes `v[lo..hi]`.
pub fn byte_range(v: &[u8], lo: usize, hi: usize) -> (r: Vec<u8>)
    requires
        lo <= hi <= v@.len(),
    ensures
        r@ == v@.subrange(lo as int, hi as int),
{
    let mut r: Vec<u8> = Vec::new();
    let mut i: usize = lo;
    while i < hi
        invariant
            lo <= i <= hi <= v@.len(),
            r@ == v@.subrange(lo as int, i as int),
        decreases hi - i,
    {
        r.push(v[i]);
        assert(v@.subrange(lo as int, i + 1) == v@.subrange(lo as int, i as int).push(v@[i as int]));
        i += 1;
    }
    r
}

/// A one-character string.
pub fn char_string(c: char) -> (s: String)
    ensures
        s@ == seq![c],
{
    let mut s = String::new();
    string_push(&mut s, c);
    s
}

// ---------------------------------------------------------------------------
// Runs of one character, words

/// The number of leading `c`s in `s`.
pub open spec fn lead_run(s: Seq<char>, c: char) -> nat
    decreases s.len(),
{
    if s.len() > 0 && s[0] == c {
        1 + lead_run(s.drop_first(), c)
    } else {
        0
    }
}

/// The number of trailing `c`s in `s`.
pub open spec fn trail_run(s: Seq<char>, c: char) -> nat
    decreases s.len(),
{
    if s.len() > 0 && s.last() == c {
        1 + trail_run(s.drop_last(), c)
    } else {
        0
    }
}

/// `s.trim_start_matches(c)`.
pub open spec fn trim_start_char(s: Seq<char>, c: char) -> Seq<char> {
    s.skip(lead_run(s, c) as int)
}

/// `s.trim_end_matches(c)`.
pub open spec fn trim_end_char(s: Seq<char>, c: char) -> Seq<char> {
    s.take(s.len() - trail_run(s, c))
}

pub proof fn lemma_lead_run(s: Seq<char>, c: char, i: int)
    requires
        0 <= i <= s.len(),
        forall|k: int| 0 <= k < i ==> s[k] == c,
        i == s.len() || s[i] != c,
    ensures
        lead_run(s, c) == i,
    decreases i,
{
    if i > 0 {
        lemma_lead_run(s.drop_first(), c, i - 1);
    }
}

pub proof fn lemma_trail_run(s: Seq<char>, c: char, i: int)
    requires
        0 <= i <= s.len(),
        forall|k: int| s.len() - i <= k < s.len() ==> s[k] == c,
        i == s.len() || s[s.len() - 1 - i] != c,
    ensures
        trail_run(s, c) == i,
    decreases i,
{
    if i > 0 {
        lemma_trail_run(s.drop_last(), c, i - 1);
    }
}

/// The number of leading `c`s in `v`.
pub fn lead_run_exec(v: &[char], c: char) -> (n: usize)
    ensures
        n == lead_run(v@, c),
        n <= v@.len(),
{
    let mut i: usize = 0;
    while i < v.len() && v[i] == c
        invariant
            i <= v@.len(),
            forall|k: int| 0 <= k < i ==> v@[k] == c,
        decreases v.len() - i,
    {
        i += 1;
    }
    proof {
        lemma_lead_run(v@, c, i as int);
    }
    i
}

/// The number of trailing `c`s in `v`.
pub fn trail_run_exec(v: &[char], c: char) -> (n: usize)
    ensures
        n == trail_run(v@, c),
        n <= v@.len(),
{
    let mut i: usize = 0;
    while i < v.len() && v[v.len() - 1 - i] == c
        invariant
            i <= v@.len(),
            forall|k: int| v@.len() - i <= k < v@.len() ==> v@[k] == c,
        decreases v.len() - i,
    {
        i += 1;
    }
    proof {
        lemma_trail_run(v@, c, i as int);
    }
    i
}

/// `s.split_whitespace()`: the maximal runs of non-whitespace characters.
pub open spec fn words(s: Seq<char>) -> Seq<Seq<char>>
    decreases s.len(),
{
    if s.len() == 0 {
        Seq::empty()
    } else {
        let w = words(s.drop_last());
        let c = s.last();
        if is_ws(c) {
            w
        } else if s.len() >= 2 && !is_ws(s[s.len() - 2]) {
            w.update(w.len() - 1, w.last().push(c))
        } else {
            w.push(seq![c])
        }
    }
}

pub proof fn lemma_words_nonempty(s: Seq<char>)
    ensures
        s.len() > 0 && !is_ws(s.last()) ==> words(s).len() > 0,
    decreases s.len(),
{
    if s.len() >= 2 {
        lemma_words_nonempty(s.drop_last());
    }
}

/// The words of `v`, as `split_whitespace` yields them.
pub fn words_exec(v: &[char]) -> (r: Vec<Vec<char>>)
    ensures
        r@.len() == words(v@).len(),
        forall|i: int| 0 <= i < r@.len() ==> #[trigger] r@[i]@ == words(v@)[i],
{
    let mut r: Vec<Vec<char>> = Vec::new();
    let mut i: usize = 0;
    assert(v@.take(0) =~= Seq::<char>::empty());
    while i < v.len()
        invariant
            i <= v@.len(),
            r@.len() == words(v@.take(i as int)).len(),
            forall|k: int| 0 <= k < r@.len() ==> #[trigger] r@[k]@ == words(v@.take(i as int))[k],
        decreases v.len() - i,
    {
        let c = v[i];
        let ghost pre = v@.take(i as int);
        let ghost now = v@.take(i + 1);
        assert(now.drop_last() == pre);
        assert(now.last() == c);
        if char_is_ws(c) {
        } else if i >= 1 && !char_is_ws(v[i - 1]) {
            assert(now[now.len() - 2] == v@[i - 1]);
            proof {
                lemma_words_nonempty(pre);
                assert(pre.last() == v@[i - 1]);
            }
            let last = r.len() - 1;
            let mut w = r.pop().unwrap();
            w.push(c);
            r.push(w);
            proof {
                assert forall|k: int| 0 <= k < r@.len() implies #[trigger] r@[k]@ == words(now)[k] by {
                    if k < last {
                    }
                }
            }
        } else {
            let mut w: Vec<char> = Vec::new();
            w.push(c);
            r.push(w);
            proof {
                assert(r@.last()@ =~= seq![c]);
            }
        }
        i += 1;
    }
    assert(v@.take(v@.len() as int) == v@);
    r
}

/// Executable `starts_with` against a string literal.
pub fn starts_with_str(v: &[char], p: &str) -> (r: bool)
    ensures
        r == starts_with(v@, p@),
{
    let q = chars_of(p);
    has_prefix(v, &q)
}

// ---------------------------------------------------------------------------
// Joining

/// `parts.join(sep)`.
pub open spec fn join_with(parts: Seq<Seq<char>>, sep: Seq<char>) -> Seq<char>
    decreases parts.len(),
{
    if parts.len() == 0 {
        Seq::empty()
    } else if parts.len() == 1 {
        parts[0]
    } else {
        join_with(parts.drop_last(), sep) + sep + parts.last()
    }
}

/// The views of a vector of character vectors.
pub open spec fn char_views(v: Seq<Vec<char>>) -> Seq<Seq<char>> {
    v.map_values(|x: Vec<char>| x@)
}

/// Joins character vectors with `sep` between them.
pub fn join_vecs(parts: &Vec<Vec<char>>, sep: &str) -> (r: String)
    ensures
        r@ == join_with(char_views(parts@), sep@),
{
    let ghost ps = char_views(parts@);
    let mut text = String::new();
    let mut q: usize = 0;
    assert(ps.take(0) =~= Seq::<Seq<char>>::empty());
    while q < parts.len()
        invariant
            q <= parts@.len(),
            ps == char_views(parts@),
            text@ == join_with(ps.take(q as int), sep@),
        decreases parts.len() - q,
    {
        proof {
            assert(ps.take(q + 1).drop_last() =~= ps.take(q as int));
            assert(ps.take(q + 1).last() == parts@[q as int]@);
        }
        if q > 0 {
            text.append(sep);
        }
        push_chars(&mut text, parts[q].as_slice());
        proof {
            if q == 0 {
                assert(ps.take(1) =~= seq![parts@[0]@]);
            }
        }
        q += 1;
    }
    assert(ps.take(parts@.len() as int) =~= ps);
    text
}

/// The UTF-8 byte length of `v[..n]`.
pub fn utf8_prefix_len(v: &[char], n: usize, total: usize) -> (r: usize)
    requires
        n <= v@.len(),
        utf8_len(v@) == total,
    ensures
        r == utf8_len(v@.take(n as int)),
{
    let mut acc: usize = 0;
    let mut i: usize = 0;
    while i < n
        invariant
            i <= n <= v@.len(),
            acc == utf8_len(v@.take(i as int)),
            utf8_len(v@) == total,
        decreases n - i,
    {
        let c = v[i];
        let u = c as u32;
        let w: usize = if u <= 0x7F {
            1
        } else if u <= 0x7FF {
            2
        } else if u <= 0xFFFF {
            3
        } else {
            4
        };
        proof {
            assert(v@.take(i + 1) =~= v@.take(i as int) + seq![c]);
            lemma_utf8_len_append(v@.take(i as int), seq![c]);
            assert(seq![c].drop_first() =~= Seq::<char>::empty());
            assert(seq![c][0] == c);
            assert(utf8_len(Seq::<char>::empty()) == 0);
            assert(utf8_len(seq![c]) == char_utf8_len(c));
            assert(v@ =~= v@.take(i + 1) + v@.skip(i + 1));
            lemma_utf8_len_append(v@.take(i + 1), v@.skip(i + 1));
        }
        assert(w == char_utf8_len(c));
        acc = acc + w;
        i += 1;
    }
    acc
}

/// The UTF-8 byte length of a string slice.
pub fn utf8_len_of(s: &str) -> (n: usize)
    ensures
        n == utf8_len(s@),
{
    proof {
        lemma_utf8_len(s@);
    }
    s.as_bytes().len()
}

// ---------------------------------------------------------------------------
// Hexadecimal rendering

/// The lowercase hexadecimal digit for `d` (`0 <= d < 16`).
pub open spec fn hex_digit_char(d: int) -> char {
    if d < 10 {
        digit_char(d)
    } else if d == 10 {
        'a'
    } else if d == 11 {
        'b'
    } else if d == 12 {
        'c'
    } else if d == 13 {
        'd'
    } else if d == 14 {
        'e'
    } else {
        'f'
    }
}

/// The lowercase hexadecimal representation of `n`, without leading zeros.
pub open spec fn hex(n: nat) -> Seq<char>
    decreases n,
{
    if n < 16 {
        seq![hex_digit_char(n as int)]
    } else {
        hex(n / 16).push(hex_digit_char((n % 16) as int))
    }
}

/// `s` with zeros in front to make it at least `width` long.
pub open spec fn zero_padded(s: Seq<char>, width: nat) -> Seq<char> {
    if s.len() >= width {
        s
    } else {
        Seq::new((width - s.len()) as nat, |i: int| '0') + s
    }
}

/// Executable `hex_digit_char`.
fn hex_digit(d: u64) -> (c: char)
    requires
        d < 16,
    ensures
        c == hex_digit_char(d as int),
{
    if d < 10 {
        digit(d)
    } else if d == 10 {
        'a'
    } else if d == 11 {
        'b'
    } else if d == 12 {
        'c'
    } else if d == 13 {
        'd'
    } else if d == 14 {
        'e'
    } else {
        'f'
    }
}

/// The hexadecimal representation of `n`.
pub fn hex_chars(n: u64) -> (r: Vec<char>)
    ensures
        r@ == hex(n as nat),
    decreases n,
{
    let mut r = if n >= 16 {
        hex_chars(n / 16)
    } else {
        Vec::new()
    };
    r.push(hex_digit(n % 16));
    r
}

/// Appends `n` in hexadecimal, padded with zeros to `width` digits.
pub fn push_hex_padded(out: &mut String, n: u64, width: usize)
    ensures
        final(out)@ == old(out)@ + zero_padded(hex(n as nat), width as nat),
{
    let h = hex_chars(n);
    let ghost start = out@;
    let mut k: usize = h.len();
    while k < width
        invariant
            h.len() <= k <= if width > h.len() { width } else { h.len() },
            out@ == start + Seq::new((k - h.len()) as nat, |i: int| '0'),
        decreases width - k,
    {
        string_push(out, '0');
        proof {
            assert(Seq::new((k + 1 - h.len()) as nat, |i: int| '0') =~= Seq::new(
                (k - h.len()) as nat,
                |i: int| '0',
            ).push('0'));
        }
        k += 1;
    }
    push_chars(out, h.as_slice());
    proof {
        if h@.len() >= width {
            assert(Seq::new(0nat, |i: int| '0') =~= Seq::<char>::empty());
            assert(out@ =~= start + zero_padded(hex(n as nat), width as nat));
        } else {
            assert(out@ =~= start + zero_padded(hex(n as nat), width as nat));
        }
    }
}

// ---------------------------------------------------------------------------
// Case mappings of std

/// Whether a character is ASCII.
pub open spec fn is_ascii_char(c: char) -> bool {
    (c as u32) < 128
}

/// Whether a text is all ASCII.
pub open spec fn all_ascii(s: Seq<char>) -> bool {
    forall|i: int| 0 <= i < s.len() ==> is_ascii_char(#[trigger] s[i])
}

/// The ASCII uppercase of a character: `a`..`z` to `A`..`Z`, any other as it is.
pub open spec fn ascii_upper(c: char) -> char {
    if 'a' <= c && c <= 'z' {
        ((c as u32) - 32) as char
    } else {
        c
    }
}

/// The ASCII lowercase of a character: `A`..`Z` to `a`..`z`, any other as it is.
pub open spec fn ascii_lower(c: char) -> char {
    if 'A' <= c && c <= 'Z' {
        ((c as u32) + 32) as char
    } else {
        c
    }
}

/// Names what `{:?}` prints for a string: std's `Debug` rendering, quoted
/// and escaped.
pub uninterp spec fn debug_text(s: Seq<char>) -> Seq<char>;

/// `format!("{:?}", s)`: std's `Debug` rendering of a string. The contract
/// names the result and does not spell the escaping out.
#[verifier::external_body]
pub(crate) fn debug_str(s: &str) -> (r: String)
    ensures
        r@ == debug_text(s@),
{
    format!("{:?}", s)
}

/// What `char::to_uppercase` yields for `c`.
pub uninterp spec fn upper_of(c: char) -> Seq<char>;

/// `c.to_uppercase()` collected into a string: Unicode's uppercase mapping of
/// `c`, which may be more than one character.  The contract names the result,
/// and states it for ASCII, where it is the ASCII uppercase.
#[verifier::external_body]
pub(crate) fn char_to_upper(c: char) -> (r: String)
    ensures
        r@ == upper_of(c),
        is_ascii_char(c) ==> r@ == seq![ascii_upper(c)],
{
    c.to_uppercase().collect::<String>()
}

/// What `str::to_uppercase` yields for `s`.
pub uninterp spec fn str_upper(s: Seq<char>) -> Seq<char>;

/// `s.to_uppercase()`: Unicode's uppercase mapping of the text. The contract
/// names the result, and states it for ASCII text, where each letter is
/// mapped alone.
#[verifier::external_body]
pub(crate) fn str_to_uppercase(s: &str) -> (r: String)
    ensures
        r@ == str_upper(s@),
        all_ascii(s@) ==> r@ == s@.map_values(|c: char| ascii_upper(c)),
{
    s.to_uppercase()
}

/// What `str::to_lowercase` yields for `s`.
pub uninterp spec fn str_lower(s: Seq<char>) -> Seq<char>;

/// `s.to_lowercase()`: Unicode's lowercase mapping of the text. The contract
/// names the result, and states it for ASCII text, where each letter is
/// mapped alone.
#[verifier::external_body]
pub(crate) fn str_to_lowercase(s: &str) -> (r: String)
    ensures
        r@ == str_lower(s@),
        all_ascii(s@) ==> r@ == s@.map_values(|c: char| ascii_lower(c)),
{
    s.to_lowercase()
}

// ---------------------------------------------------------------------------
// Keeping the first of each key

/// The elements of `s` whose key did not occur before them, in order.
pub open spec fn keep_first<T>(s: Seq<T>, key: spec_fn(T) -> Seq<char>) -> Seq<T>
    decreases s.len(),
{
    if s.len() == 0 {
        Seq::empty()
    } else {
        let d = keep_first(s.drop_last(), key);
        if exists|j: int| 0 <= j < s.len() - 1 && key(#[trigger] s[j]) == key(s.last()) {
            d
        } else {
            d.push(s.last())
        }
    }
}

/// A key occurs among the kept elements exactly when it occurs at all.
pub proof fn lemma_keep_first_keys<T>(s: Seq<T>, key: spec_fn(T) -> Seq<char>, x: Seq<char>)
    ensures
        (exists|k: int| 0 <= k < keep_first(s, key).len() && key(#[trigger] keep_first(s, key)[k]) == x)
            <==> (exists|j: int| 0 <= j < s.len() && key(#[trigger] s[j]) == x),
    decreases s.len(),
{
    if s.len() > 0 {
        let p = s.drop_last();
        lemma_keep_first_keys(p, key, x);
        let d = keep_first(p, key);
        let in_p = exists|j: int| 0 <= j < p.len() && key(#[trigger] p[j]) == x;
        let in_s = exists|j: int| 0 <= j < s.len() && key(#[trigger] s[j]) == x;
        if in_p {
            let j = choose|j: int| 0 <= j < p.len() && key(#[trigger] p[j]) == x;
            assert(s[j] == p[j]);
        }
        if in_s {
            let j = choose|j: int| 0 <= j < s.len() && key(#[trigger] s[j]) == x;
            if j < p.len() {
                assert(s[j] == p[j]);
            }
        }
        if exists|j: int| 0 <= j < s.len() - 1 && key(#[trigger] s[j]) == key(s.last()) {
            assert(keep_first(s, key) == d);
            let j0 = choose|j: int| 0 <= j < s.len() - 1 && key(#[trigger] s[j]) == key(s.last());
            assert(p[j0] == s[j0]);
            assert(in_s <==> in_p);
        } else {
            let e = d.push(s.last());
            assert(keep_first(s, key) == e);
            let in_d = exists|k: int| 0 <= k < d.len() && key(#[trigger] d[k]) == x;
            let in_e = exists|k: int| 0 <= k < e.len() && key(#[trigger] e[k]) == x;
            if in_d {
                let k = choose|k: int| 0 <= k < d.len() && key(#[trigger] d[k]) == x;
                assert(e[k] == d[k]);
            }
            if in_e {
                let k = choose|k: int| 0 <= k < e.len() && key(#[trigger] e[k]) == x;
                if k < d.len() {
                    assert(e[k] == d[k]);
                } else {
                    assert(e[k] == s.last());
                    assert(s[s.len() - 1] == s.last());
                }
            }
            if key(s.last()) == x {
                assert(e[d.len() as int] == s.last());
                assert(s[s.len() - 1] == s.last());
            }
            assert(in_e <==> in_s);
        }
    }
}

/// Whether `key` occurs among the strings.
pub fn contains_string(v: &Vec<String>, key: &str) -> (r: bool)
    ensures
        r == exists|i: int| 0 <= i < v@.len() && #[trigger] v@[i]@ == key@,
{
    let mut i: usize = 0;
    while i < v.len()
        invariant
            i <= v@.len(),
            forall|k: int| 0 <= k < i ==> #[trigger] v@[k]@ != key@,
        decreases v.len() - i,
    {
        if str_eq(v[i].as_str(), key) {
            return true;
        }
        i += 1;
    }
    false
}

} // verus!
