//! Hash-anchored line rendering and editing.
//!
//! Every line of a file is shown as `N:hhhh|text`, where `hhhh` is the top
//! sixteen bits of the FNV-1a hash of the line's UTF-8 bytes, in lowercase hex.
//! Edits name the lines they touch by such `N:hhhh` anchors, so an edit made
//! against a stale view of the file is refused instead of landing on the wrong
//! line.
use vstd::prelude::*;
use vstd::utf8::encode_utf8;
use crate::text::{
    char_utf8_len, lemma_utf8_len, utf8_len,
    chars_of, decimal, digit, digit_char, find, find_in, occurs_at, lemma_find_from_facts, push_chars,
    push_decimal, slice_range, split_chars, split_on, lemma_split_on_nonempty, lemma_split_on_push, str_eq, string_of, string_push, utf8_len_is,
    is_digit, digit_value, digits_value, unsigned_digits, parse_uint, parse_uint_range,
};

verus! {

broadcast use vstd::string::group_string_axioms;

// ---------------------------------------------------------------------------
// Line model

/// `source_lines`: the lines of a file, a single final newline not opening a
/// further line, and an empty file having none.
pub open spec fn lines_spec(s: Seq<char>) -> Seq<Seq<char>> {
    let t = if s.len() > 0 && s.last() == '\n' {
        s.drop_last()
    } else {
        s
    };
    if t.len() == 0 {
        Seq::empty()
    } else {
        split_on(t, '\n')
    }
}

/// The lines of a file joined back with `\n`.
pub open spec fn join_lines(ls: Seq<Seq<char>>) -> Seq<char>
    decreases ls.len(),
{
    if ls.len() == 0 {
        Seq::empty()
    } else if ls.len() == 1 {
        ls[0]
    } else {
        join_lines(ls.drop_last()).push('\n') + ls.last()
    }
}

// ---------------------------------------------------------------------------
// Hashing

pub open spec fn fnv_offset() -> u64 {
    0xcbf2_9ce4_8422_2325u64
}

pub open spec fn fnv_prime() -> u64 {
    0x0100_0000_01b3u64
}

/// 64-bit FNV-1a over a byte sequence.
pub open spec fn fnv1a64(bytes: Seq<u8>) -> u64
    decreases bytes.len(),
{
    if bytes.len() == 0 {
        fnv_offset()
    } else {
        let h = fnv1a64(bytes.drop_last()) ^ (bytes.last() as u64);
        ((h as nat * fnv_prime() as nat) % 0x1_0000_0000_0000_0000nat) as u64
    }
}

/// The lowercase hex digit for `d` (`0 <= d < 16`).
pub open spec fn hex_char(d: int) -> char {
    if d < 10 {
        digit_char(d)
    } else if d == 10 {
        'a'
    } else if d == 11 {
        'b'
    } else if d == 12 {
        'c'
    } else if d == 13 {
        'd'
    } else if d == 14 {
        'e'
    } else {
        'f'
    }
}

/// The four-hex-digit hash of a line: the top 16 bits of its FNV-1a hash.
pub open spec fn line_hash(line: Seq<char>) -> Seq<char> {
    let h = fnv1a64(encode_utf8(line)) as int / 0x1_0000_0000_0000;
    seq![hex_char(h / 4096), hex_char(h / 256 % 16), hex_char(h / 16 % 16), hex_char(h % 16)]
}

/// The rendering of line number `no` (1-based) holding `text`.
pub open spec fn hashline_entry(no: nat, text: Seq<char>) -> Seq<char> {
    decimal(no).push(':') + line_hash(text) + seq!['|'] + text.push('\n')
}

/// The rendering of lines `a..b` (0-based, `b` excluded).
pub open spec fn render_range(ls: Seq<Seq<char>>, a: int, b: int) -> Seq<char>
    decreases b - a,
{
    if b <= a {
        Seq::empty()
    } else {
        render_range(ls, a, b - 1) + hashline_entry((b - 1 + 1) as nat, ls[b - 1])
    }
}

/// The 0-based first line rendered for a requested 1-based `start`.
pub open spec fn slice_start(n: nat, start: Option<usize>) -> int {
    let s = match start {
        Some(s) => if s >= 1 {
            s - 1
        } else {
            0
        },
        None => 0,
    };
    if s < n {
        s
    } else {
        n as int
    }
}

/// The 0-based end (excluded) of the lines rendered for a requested 1-based `end`.
pub open spec fn slice_end(n: nat, first: int, end: Option<usize>) -> int {
    let e = match end {
        Some(e) => e as int,
        None => n as int,
    };
    if e < first {
        first
    } else if e > n {
        n as int
    } else {
        e
    }
}

/// What `render_hashlines(source, start, end)` returns.
pub open spec fn render_spec(source: Seq<char>, start: Option<usize>, end: Option<usize>) -> Seq<
    char,
> {
    let ls = lines_spec(source);
    let a = slice_start(ls.len(), start);
    render_range(ls, a, slice_end(ls.len(), a, end))
}

fn hex_digit(d: u64) -> (c: char)
    requires
        d < 16,
    ensures
        c == hex_char(d as int),
{
    if d < 10 {
        digit(d)
    } else if d == 10 {
        'a'
    } else if d == 11 {
        'b'
    } else if d == 12 {
        'c'
    } else if d == 13 {
        'd'
    } else if d == 14 {
        'e'
    } else {
        'f'
    }
}

fn fnv1a64_exec(bytes: &[u8]) -> (h: u64)
    ensures
        h == fnv1a64(bytes@),
{
    let mut hash: u64 = 0xcbf2_9ce4_8422_2325u64;
    let mut i: usize = 0;
    assert(bytes@.take(0) =~= Seq::<u8>::empty());
    while i < bytes.len()
        invariant
            i <= bytes@.len(),
            hash == fnv1a64(bytes@.take(i as int)),
        decreases bytes.len() - i,
    {
        assert(bytes@.take(i + 1).drop_last() == bytes@.take(i as int));
        hash = hash ^ (bytes[i] as u64);
        hash = hash.wrapping_mul(0x0100_0000_01b3u64);
        i += 1;
    }
    assert(bytes@.take(bytes@.len() as int) == bytes@);
    hash
}

/// The four-character hash of a line.
fn line_hash_exec(line: &[char]) -> (r: Vec<char>)
    ensures
        r@ == line_hash(line@),
{
    let s = string_of(line);
    let h = fnv1a64_exec(s.as_str().as_bytes()) / 0x1_0000_0000_0000u64;
    let mut r: Vec<char> = Vec::new();
    r.push(hex_digit(h / 4096));
    r.push(hex_digit(h / 256 % 16));
    r.push(hex_digit(h / 16 % 16));
    r.push(hex_digit(h % 16));
    assert(r@ =~= line_hash(line@));
    r
}

/// The lines of `source` (`lines_spec`), as character vectors.
fn lines_exec(source: &[char]) -> (r: Vec<Vec<char>>)
    ensures
        r@.len() == lines_spec(source@).len(),
        forall|i: int| 0 <= i < r@.len() ==> #[trigger] r@[i]@ == lines_spec(source@)[i],
{
    let n = source.len();
    let m = if n > 0 && source[n - 1] == '\n' {
        n - 1
    } else {
        n
    };
    if m == 0 {
        return Vec::new();
    }
    let t = slice_range(source, 0, m);
    proof {
        if n > 0 && source@[n - 1] == '\n' {
            assert(t@ == source@.drop_last());
        } else {
            assert(t@ == source@);
        }
    }
    split_chars(&t, '\n')
}

/// The lines of a file, without their newlines.
pub fn source_lines(source: &str) -> (r: Vec<String>)
    ensures
        r@.len() == lines_spec(source@).len(),
        forall|i: int| 0 <= i < r@.len() ==> #[trigger] r@[i]@ == lines_spec(source@)[i],
{
    let v = chars_of(source);
    let ls = lines_exec(&v);
    let mut r: Vec<String> = Vec::new();
    for i in 0..ls.len()
        invariant
            v@ == source@,
            ls@.len() == lines_spec(source@).len(),
            forall|k: int| 0 <= k < ls@.len() ==> #[trigger] ls@[k]@ == lines_spec(source@)[k],
            r@.len() == i,
            forall|k: int| 0 <= k < i ==> #[trigger] r@[k]@ == lines_spec(source@)[k],
    {
        r.push(string_of(&ls[i]));
    }
    r
}

/// Renders lines `start..=end` (1-based; all lines when absent) as
/// `N:hhhh|text` entries, one per line.
pub fn render_hashlines(source: &str, start: Option<usize>, end: Option<usize>) -> (r: String)
    ensures
        r@ == render_spec(source@, start, end),
{
    let v = chars_of(source);
    let ls = lines_exec(&v);
    let n = ls.len();
    let s0: usize = match start {
        Some(s) => if s >= 1 {
            s - 1
        } else {
            0
        },
        None => 0,
    };
    let a: usize = if s0 < n {
        s0
    } else {
        n
    };
    let e: usize = match end {
        Some(e) => e,
        None => n,
    };
    let b: usize = if e < a {
        a
    } else if e > n {
        n
    } else {
        e
    };
    let ghost lsv = lines_spec(source@);
    let mut out = String::new();
    let mut i: usize = a;
    while i < b
        invariant
            a <= i <= b <= n,
            n == lsv.len(),
            v@ == source@,
            lsv == lines_spec(source@),
            ls@.len() == n,
            forall|k: int| 0 <= k < n ==> #[trigger] ls@[k]@ == lsv[k],
            out@ == render_range(lsv, a as int, i as int),
        decreases b - i,
    {
        let h = line_hash_exec(&ls[i]);
        let ghost before = out@;
        push_decimal(&mut out, (i + 1) as u64);
        string_push(&mut out, ':');
        push_chars(&mut out, &h);
        string_push(&mut out, '|');
        push_chars(&mut out, &ls[i]);
        string_push(&mut out, '\n');
        proof {
            let entry = hashline_entry((i + 1) as nat, lsv[i as int]);
            assert(out@ =~= before + entry);
        }
        i += 1;
    }
    out
}

// ---------------------------------------------------------------------------
// Anchors

/// `usize::from_str`: an optional `+`, then one or more ASCII digits whose
/// value fits in a `usize`.
pub open spec fn parse_usize(s: Seq<char>) -> Option<nat> {
    parse_uint(s, usize::MAX as nat)
}

/// What is wrong with one edit operation.
pub enum OpFault {
    /// The anchor has no `:`.
    AnchorFormat(Seq<char>),
    /// The part before `:` is not a line number.
    LineNumber(Seq<char>),
    /// Line 0, or a hash that is not four bytes long.
    BadAnchor(Seq<char>),
    /// The anchor's line is past the end of the file.
    OutsideFile(nat),
    /// The anchor's hash does not match the line's current hash.
    Mismatch { line: nat, expected: Seq<char>, current: Seq<char>, text: Seq<char> },
    /// The end anchor names an earlier line than the start anchor.
    EndBeforeStart,
    /// An insert was given an end anchor.
    InsertWithEnd,
    /// The action is none of the four known ones.
    UnknownAction(Seq<char>),
}

/// ASCII case folding of one character, as a code point.
pub open spec fn ascii_fold(c: char) -> int {
    if 'A' <= c && c <= 'Z' {
        c as int + 32
    } else {
        c as int
    }
}

/// `str::eq_ignore_ascii_case` between an anchor hash and a line hash.
pub open spec fn hash_matches(h: Seq<char>, cur: Seq<char>) -> bool {
    h.len() == cur.len() && forall|k: int| 0 <= k < h.len() ==> ascii_fold(h[k]) == ascii_fold(
        cur[k],
    )
}

/// Parses `line:hash`.
pub open spec fn parse_anchor_spec(v: Seq<char>) -> Result<(nat, Seq<char>), OpFault> {
    match find(v, seq![':']) {
        None => Err(OpFault::AnchorFormat(v)),
        Some(k) => match parse_usize(v.take(k)) {
            None => Err(OpFault::LineNumber(v)),
            Some(n) => if n == 0 || encode_utf8(v.skip(k + 1)).len() != 4 {
                Err(OpFault::BadAnchor(v))
            } else {
                Ok((n, v.skip(k + 1)))
            },
        },
    }
}

/// Checks a parsed anchor against the file's lines.
pub open spec fn check_anchor(ls: Seq<Seq<char>>, line: nat, h: Seq<char>) -> Option<OpFault> {
    if line - 1 >= ls.len() {
        Some(OpFault::OutsideFile(line))
    } else if !hash_matches(h, line_hash(ls[line - 1])) {
        Some(
            OpFault::Mismatch {
                line,
                expected: h,
                current: line_hash(ls[line - 1]),
                text: ls[line - 1],
            },
        )
    } else {
        None
    }
}

/// How the replacement lines of an edit are placed.
#[derive(Clone, Copy, PartialEq, Eq, Structural)]
pub enum InsertMode {
    /// Lines `start..=last` are replaced.
    Replace,
    /// The replacement goes before line `start`.
    Before,
    /// The replacement goes after line `start`.
    After,
}

/// A resolved edit over 0-based line indices.
pub struct SpecEdit {
    pub start: int,
    /// The last line touched: the end of a replaced range, or `start`.
    pub last: int,
    pub repl: Seq<Seq<char>>,
    pub mode: InsertMode,
}

/// One edit operation as given: anchors, action and new content.
#[derive(Clone)]
pub struct EditOp {
    pub start_at: String,
    /// Empty when the edit touches one line only.
    pub end_at: String,
    /// `replace`, `delete`, `insert_before` or `insert_after`.
    pub action: String,
    /// The new lines, empty for `delete`.
    pub content: String,
}

/// The end anchor of an edit, when there is one.
pub open spec fn resolve_end(ls: Seq<Seq<char>>, op: EditOp, start_line: nat) -> Result<
    Option<nat>,
    OpFault,
> {
    if op.end_at@.len() == 0 {
        Ok(None)
    } else {
        match parse_anchor_spec(op.end_at@) {
            Err(f) => Err(f),
            Ok((el, eh)) => match check_anchor(ls, el, eh) {
                Some(f) => Err(f),
                None => if el < start_line {
                    Err(OpFault::EndBeforeStart)
                } else {
                    Ok(Some(el))
                },
            },
        }
    }
}

/// The edit an operation resolves to against the file's lines, or what is wrong with it.
#[verifier::opaque]
pub open spec fn resolve_spec(ls: Seq<Seq<char>>, op: EditOp) -> Result<SpecEdit, OpFault> {
    match parse_anchor_spec(op.start_at@) {
        Err(f) => Err(f),
        Ok((sl, sh)) => match check_anchor(ls, sl, sh) {
            Some(f) => Err(f),
            None => match resolve_end(ls, op, sl) {
                Err(f) => Err(f),
                Ok(end) => {
                    let repl = lines_spec(op.content@);
                    let s = sl - 1;
                    if op.action@ == "insert_before"@ {
                        if end is Some {
                            Err(OpFault::InsertWithEnd)
                        } else {
                            Ok(SpecEdit { start: s, last: s, repl, mode: InsertMode::Before })
                        }
                    } else if op.action@ == "insert_after"@ {
                        if end is Some {
                            Err(OpFault::InsertWithEnd)
                        } else {
                            Ok(SpecEdit { start: s, last: s, repl, mode: InsertMode::After })
                        }
                    } else if op.action@ == "replace"@ {
                        let last = match end {
                            Some(e) => e - 1,
                            None => s,
                        };
                        Ok(SpecEdit { start: s, last, repl, mode: InsertMode::Replace })
                    } else if op.action@ == "delete"@ {
                        let last = match end {
                            Some(e) => e - 1,
                            None => s,
                        };
                        Ok(
                            SpecEdit {
                                start: s,
                                last,
                                repl: Seq::empty(),
                                mode: InsertMode::Replace,
                            },
                        )
                    } else {
                        Err(OpFault::UnknownAction(op.action@))
                    }
                },
            },
        },
    }
}

/// Why one edit operation was refused.
pub enum OpError {
    AnchorFormat { value: String },
    LineNumber { value: String },
    BadAnchor { value: String },
    OutsideFile { line: usize },
    Mismatch { line: usize, expected: String, current: String, text: String },
    EndBeforeStart,
    InsertWithEnd,
    UnknownAction { action: String },
}

impl OpError {
    pub open spec fn view(&self) -> OpFault {
        match self {
            OpError::AnchorFormat { value } => OpFault::AnchorFormat(value@),
            OpError::LineNumber { value } => OpFault::LineNumber(value@),
            OpError::BadAnchor { value } => OpFault::BadAnchor(value@),
            OpError::OutsideFile { line } => OpFault::OutsideFile(*line as nat),
            OpError::Mismatch { line, expected, current, text } => OpFault::Mismatch {
                line: *line as nat,
                expected: expected@,
                current: current@,
                text: text@,
            },
            OpError::EndBeforeStart => OpFault::EndBeforeStart,
            OpError::InsertWithEnd => OpFault::InsertWithEnd,
            OpError::UnknownAction { action } => OpFault::UnknownAction(action@),
        }
    }
}

/// Parses `v[lo..hi]` as a `usize` (`parse_usize`).
fn parse_usize_exec(v: &[char], lo: usize, hi: usize) -> (r: Option<usize>)
    requires
        lo <= hi <= v@.len(),
    ensures
        match r {
            Some(n) => parse_usize(v@.subrange(lo as int, hi as int)) == Some(n as nat),
            None => parse_usize(v@.subrange(lo as int, hi as int)) is None,
        },
{
    match parse_uint_range(v, lo, hi, usize::MAX as u64) {
        Some(n) => Some(n as usize),
        None => None,
    }
}

fn ascii_fold_exec(c: char) -> (r: u32)
    ensures
        r as int == ascii_fold(c),
{
    if 'A' <= c && c <= 'Z' {
        c as u32 + 32
    } else {
        c as u32
    }
}

/// Parses an anchor; on success the line number and the hash characters.
fn parse_anchor(value: &String) -> (r: Result<(usize, Vec<char>), OpError>)
    ensures
        match r {
            Ok((n, h)) => parse_anchor_spec(value@) == Ok::<(nat, Seq<char>), OpFault>(
                (n as nat, h@),
            ),
            Err(e) => parse_anchor_spec(value@) == Err::<(nat, Seq<char>), OpFault>(e.view()),
        },
{
    let v = chars_of(value.as_str());
    let colon: Vec<char> = vec![':'];
    assert(colon@ == seq![':']);
    let k = match find_in(&v, &colon) {
        None => {
            return Err(OpError::AnchorFormat { value: value.clone() });
        },
        Some(k) => k,
    };
    proof {
        lemma_find_from_facts(v@, colon@, 0);
    }
    assert(occurs_at(v@, colon@, k as int));
    assert(v@.subrange(0, k as int) == v@.take(k as int));
    let n = match parse_usize_exec(&v, 0, k) {
        None => {
            return Err(OpError::LineNumber { value: value.clone() });
        },
        Some(n) => n,
    };
    let h = slice_range(&v, k + 1, v.len());
    assert(h@ == v@.skip(k + 1));
    if n == 0 || !utf8_len_is(&h, 4) {
        return Err(OpError::BadAnchor { value: value.clone() });
    }
    assert(find(v@, seq![':']) == Some(k as int));
    assert(parse_usize(v@.take(k as int)) == Some(n as nat));
    Ok((n, h))
}

fn hashes_match(h: &Vec<char>, cur: &Vec<char>) -> (r: bool)
    ensures
        r == hash_matches(h@, cur@),
{
    if h.len() != cur.len() {
        return false;
    }
    let mut k: usize = 0;
    while k < h.len()
        invariant
            k <= h@.len(),
            h@.len() == cur@.len(),
            forall|j: int| 0 <= j < k ==> ascii_fold(h@[j]) == ascii_fold(cur@[j]),
        decreases h.len() - k,
    {
        if ascii_fold_exec(h[k]) != ascii_fold_exec(cur[k]) {
            return false;
        }
        k += 1;
    }
    true
}

/// Checks a parsed anchor against the lines of the file.
fn check_anchor_exec(ls: &Vec<Vec<char>>, line: usize, h: &Vec<char>) -> (r: Option<OpError>)
    requires
        line >= 1,
    ensures
        match r {
            None => check_anchor(ls@.map_values(|l: Vec<char>| l@), line as nat, h@) is None,
            Some(e) => check_anchor(ls@.map_values(|l: Vec<char>| l@), line as nat, h@) == Some(
                e.view(),
            ),
        },
{
    let ghost lsv = ls@.map_values(|l: Vec<char>| l@);
    let idx = line - 1;
    if idx >= ls.len() {
        return Some(OpError::OutsideFile { line });
    }
    assert(lsv[idx as int] == ls@[idx as int]@);
    let cur = line_hash_exec(&ls[idx]);
    let same = hashes_match(h, &cur);
    if !same {
        return Some(
            OpError::Mismatch {
                line,
                expected: string_of(h),
                current: string_of(&cur),
                text: string_of(&ls[idx]),
            },
        );
    }
    None
}

/// An edit resolved against the file: 0-based line indices and replacement lines.
pub struct ResolvedEdit {
    pub start_idx: usize,
    pub last_idx: usize,
    pub replacement: Vec<Vec<char>>,
    pub mode: InsertMode,
}

impl ResolvedEdit {
    pub open spec fn view(&self) -> SpecEdit {
        SpecEdit {
            start: self.start_idx as int,
            last: self.last_idx as int,
            repl: self.replacement@.map_values(|l: Vec<char>| l@),
            mode: self.mode,
        }
    }
}

/// The lines of a file, as character sequences.
pub open spec fn line_views(ls: Seq<Vec<char>>) -> Seq<Seq<char>> {
    ls.map_values(|l: Vec<char>| l@)
}

/// The edits, as spec values.
pub open spec fn edit_views(es: Seq<ResolvedEdit>) -> Seq<SpecEdit> {
    es.map_values(|e: ResolvedEdit| e.view())
}

/// A resolved edit lies within the file and does not end before it starts.
pub proof fn lemma_resolved_in_file(ls: Seq<Seq<char>>, op: EditOp)
    ensures
        resolve_spec(ls, op) matches Ok(e) ==> 0 <= e.start <= e.last < ls.len(),
{
    reveal(resolve_spec);
}

/// Resolves one edit operation against the lines of the file.
fn resolve_edit(ls: &Vec<Vec<char>>, op: &EditOp) -> (r: Result<ResolvedEdit, OpError>)
    ensures
        match r {
            Ok(e) => resolve_spec(line_views(ls@), *op) == Ok::<SpecEdit, OpFault>(e.view()),
            Err(err) => resolve_spec(line_views(ls@), *op) == Err::<SpecEdit, OpFault>(err.view()),
        },
{
    reveal(resolve_spec);
    let ghost lsv = line_views(ls@);
    let (sl, sh) = match parse_anchor(&op.start_at) {
        Err(e) => {
            return Err(e);
        },
        Ok(a) => a,
    };
    if let Some(e) = check_anchor_exec(ls, sl, &sh) {
        return Err(e);
    }
    let ghost endr = resolve_end(lsv, *op, sl as nat);
    let end: Option<usize> = if op.end_at.as_str().is_empty() {
        None
    } else {
        let (el, eh) = match parse_anchor(&op.end_at) {
            Err(e) => {
                return Err(e);
            },
            Ok(a) => a,
        };
        if let Some(e) = check_anchor_exec(ls, el, &eh) {
            return Err(e);
        }
        if el < sl {
            return Err(OpError::EndBeforeStart);
        }
        Some(el)
    };
    assert(endr == Ok::<Option<nat>, OpFault>(
        match end {
            Some(e) => Some(e as nat),
            None => None,
        },
    ));
    let cv = chars_of(op.content.as_str());
    let repl = lines_exec(&cv);
    assert(line_views(repl@) =~= lines_spec(op.content@));
    let s = sl - 1;
    let action = op.action.as_str();
    if str_eq(action, "insert_before") {
        if end.is_some() {
            return Err(OpError::InsertWithEnd);
        }
        Ok(ResolvedEdit { start_idx: s, last_idx: s, replacement: repl, mode: InsertMode::Before })
    } else if str_eq(action, "insert_after") {
        if end.is_some() {
            return Err(OpError::InsertWithEnd);
        }
        Ok(ResolvedEdit { start_idx: s, last_idx: s, replacement: repl, mode: InsertMode::After })
    } else if str_eq(action, "replace") {
        let last = match end {
            Some(e) => e - 1,
            None => s,
        };
        Ok(ResolvedEdit { start_idx: s, last_idx: last, replacement: repl, mode: InsertMode::Replace })
    } else if str_eq(action, "delete") {
        let last = match end {
            Some(e) => e - 1,
            None => s,
        };
        let empty: Vec<Vec<char>> = Vec::new();
        assert(line_views(empty@) =~= Seq::<Seq<char>>::empty());
        Ok(ResolvedEdit { start_idx: s, last_idx: last, replacement: empty, mode: InsertMode::Replace })
    } else {
        Err(OpError::UnknownAction { action: op.action.clone() })
    }
}

// ---------------------------------------------------------------------------
// Applying edits

/// The edits of a list of operations, or the first operation that fails with its fault.
pub open spec fn resolve_all(ls: Seq<Seq<char>>, ops: Seq<EditOp>) -> Result<
    Seq<SpecEdit>,
    (int, OpFault),
>
    decreases ops.len(),
{
    if ops.len() == 0 {
        Ok(Seq::empty())
    } else {
        match resolve_all(ls, ops.drop_last()) {
            Err(e) => Err(e),
            Ok(es) => match resolve_spec(ls, ops.last()) {
                Ok(e) => Ok(es.push(e)),
                Err(f) => Err((ops.len() - 1, f)),
            },
        }
    }
}

/// No two edits touch the same line, and none sits inside another's range.
pub open spec fn disjoint(es: Seq<SpecEdit>) -> bool {
    forall|i: int, j: int|
        0 <= i < es.len() && 0 <= j < es.len() && i != j && #[trigger] es[i].start
            <= #[trigger] es[j].start ==> es[i].last < es[j].start
}

/// Some edit starts at line `k`.
pub open spec fn starts_at(es: Seq<SpecEdit>, k: int) -> bool {
    exists|i: int| 0 <= i < es.len() && #[trigger] es[i].start == k
}

/// Line `k` lies inside, after the first line, of a replaced range.
pub open spec fn replaced_within(es: Seq<SpecEdit>, k: int) -> bool {
    exists|i: int|
        0 <= i < es.len() && (#[trigger] es[i]).mode == InsertMode::Replace && es[i].start < k
            <= es[i].last
}

/// What becomes of line `k` under the edits.
pub open spec fn line_piece(ls: Seq<Seq<char>>, es: Seq<SpecEdit>, k: int) -> Seq<Seq<char>> {
    if starts_at(es, k) {
        let e = es[choose|i: int| 0 <= i < es.len() && #[trigger] es[i].start == k];
        match e.mode {
            InsertMode::Before => e.repl.push(ls[k]),
            InsertMode::After => seq![ls[k]] + e.repl,
            InsertMode::Replace => e.repl,
        }
    } else if replaced_within(es, k) {
        Seq::empty()
    } else {
        seq![ls[k]]
    }
}

/// What becomes of lines `0..m`.
pub open spec fn edited_prefix(ls: Seq<Seq<char>>, es: Seq<SpecEdit>, m: int) -> Seq<Seq<char>>
    decreases m,
{
    if m <= 0 {
        Seq::empty()
    } else {
        edited_prefix(ls, es, m - 1) + line_piece(ls, es, m - 1)
    }
}

/// The file's lines after the edits.
pub open spec fn edited_lines(ls: Seq<Seq<char>>, es: Seq<SpecEdit>) -> Seq<Seq<char>> {
    edited_prefix(ls, es, ls.len() as int)
}

/// The file's text after the edits: the edited lines, ended by a newline when the
/// file was.
pub open spec fn edited_text(source: Seq<char>, es: Seq<SpecEdit>) -> Seq<char> {
    let body = join_lines(edited_lines(lines_spec(source), es));
    if source.len() > 0 && source.last() == '\n' {
        body.push('\n')
    } else {
        body
    }
}

/// Why a batch of anchored edits was refused.
pub enum AnchorEditError {
    /// Operation `index` (0-based) is malformed or stale.
    Op { index: usize, error: OpError },
    /// Two edits touch overlapping lines (1-based line numbers).
    Overlap { lower_start: usize, lower_end: usize, upper_start: usize, upper_end: usize },
}

pub proof fn lemma_resolve_all_prefix(ls: Seq<Seq<char>>, ops: Seq<EditOp>, i: int, es: Seq<SpecEdit>)
    requires
        0 <= i < ops.len(),
        resolve_all(ls, ops.take(i)) == Ok::<Seq<SpecEdit>, (int, OpFault)>(es),
    ensures
        resolve_all(ls, ops.take(i + 1)) == (match resolve_spec(ls, ops[i]) {
            Ok(e) => Ok::<Seq<SpecEdit>, (int, OpFault)>(es.push(e)),
            Err(f) => Err((i, f)),
        }),
{
    assert(ops.take(i + 1).drop_last() == ops.take(i));
}

/// Once resolving a prefix of the operations fails, every longer prefix fails the same way.
pub proof fn lemma_resolve_all_err_sticks(ls: Seq<Seq<char>>, ops: Seq<EditOp>, k: int, k2: int)
    requires
        0 <= k <= k2 <= ops.len(),
        resolve_all(ls, ops.take(k)) is Err,
    ensures
        resolve_all(ls, ops.take(k2)) == resolve_all(ls, ops.take(k)),
    decreases k2 - k,
{
    if k < k2 {
        assert(ops.take(k + 1).drop_last() == ops.take(k));
        lemma_resolve_all_err_sticks(ls, ops, k + 1, k2);
    }
}

/// `x` occurs in `s`.
pub open spec fn appears(s: Seq<usize>, x: int) -> bool {
    exists|p: int| 0 <= p < s.len() && s[p] == x
}

/// Under disjoint edits, the edit starting at a line is unique.
pub proof fn lemma_unique_start(es: Seq<SpecEdit>, i: int, j: int)
    requires
        disjoint(es),
        forall|x: int| 0 <= x < es.len() ==> #[trigger] es[x].start <= es[x].last,
        0 <= i < es.len(),
        0 <= j < es.len(),
        es[i].start == es[j].start,
    ensures
        i == j,
{
    if i != j {
        assert(es[i].last < es[j].start);
    }
}

/// A copy of a line.
fn copy_line(l: &Vec<char>) -> (r: Vec<char>)
    ensures
        r@ == l@,
{
    let r = slice_range(l, 0, l.len());
    assert(l@.subrange(0, l@.len() as int) == l@);
    r
}

/// Appends copies of `src` to `out`.
fn push_lines(out: &mut Vec<Vec<char>>, src: &Vec<Vec<char>>)
    ensures
        line_views(final(out)@) == line_views(old(out)@) + line_views(src@),
{
    let ghost before = line_views(out@);
    let mut t: usize = 0;
    while t < src.len()
        invariant
            t <= src@.len(),
            line_views(out@) == before + line_views(src@).take(t as int),
        decreases src.len() - t,
    {
        let ghost prev = out@;
        out.push(copy_line(&src[t]));
        proof {
            assert(out@ == prev.push(out@.last()));
            assert(line_views(out@) =~= line_views(prev).push(src@[t as int]@));
            assert(line_views(src@).take(t + 1) =~= line_views(src@).take(t as int).push(
                src@[t as int]@,
            ));
        }
        t += 1;
    }
    assert(line_views(src@).take(src@.len() as int) =~= line_views(src@));
}

/// Appends a copy of one line to `out`.
fn push_line(out: &mut Vec<Vec<char>>, l: &Vec<char>)
    ensures
        line_views(final(out)@) == line_views(old(out)@).push(l@),
{
    let ghost prev = out@;
    out.push(copy_line(l));
    assert(line_views(out@) =~= line_views(prev).push(l@));
}

/// Resolves every operation in order, stopping at the first failure.
fn resolve_ops(ls: &Vec<Vec<char>>, ops: &[EditOp]) -> (r: Result<Vec<ResolvedEdit>, AnchorEditError>)
    ensures
        match r {
            Ok(es) => resolve_all(line_views(ls@), ops@) == Ok::<Seq<SpecEdit>, (int, OpFault)>(
                edit_views(es@),
            ) && forall|x: int|
                0 <= x < es@.len() ==> #[trigger] es@[x].start_idx <= es@[x].last_idx < ls@.len(),
            Err(AnchorEditError::Op { index, error }) => resolve_all(line_views(ls@), ops@) == Err::<
                Seq<SpecEdit>,
                (int, OpFault),
            >((index as int, error.view())),
            Err(AnchorEditError::Overlap { .. }) => false,
        },
{
    let ghost lsv = line_views(ls@);
    let mut es: Vec<ResolvedEdit> = Vec::new();
    let mut i: usize = 0;
    assert(ops@.take(0) =~= Seq::<EditOp>::empty());
    assert(edit_views(es@) =~= Seq::<SpecEdit>::empty());
    while i < ops.len()
        invariant
            i <= ops@.len(),
            lsv == line_views(ls@),
            resolve_all(lsv, ops@.take(i as int)) == Ok::<Seq<SpecEdit>, (int, OpFault)>(
                edit_views(es@),
            ),
            es@.len() == i,
            forall|x: int|
                0 <= x < es@.len() ==> #[trigger] es@[x].start_idx <= es@[x].last_idx < ls@.len(),
        decreases ops.len() - i,
    {
        proof {
            lemma_resolve_all_prefix(lsv, ops@, i as int, edit_views(es@));
            lemma_resolved_in_file(lsv, ops@[i as int]);
        }
        match resolve_edit(ls, &ops[i]) {
            Err(error) => {
                proof {
                    lemma_resolve_all_err_sticks(lsv, ops@, i as int + 1, ops@.len() as int);
                    assert(ops@.take(ops@.len() as int) == ops@);
                }
                return Err(AnchorEditError::Op { index: i, error });
            },
            Ok(e) => {
                let ghost prev = es@;
                es.push(e);
                assert(edit_views(es@) =~= edit_views(prev).push(e.view()));
            },
        }
        i += 1;
    }
    assert(ops@.take(ops@.len() as int) == ops@);
    Ok(es)
}

/// The positions `0..es.len()`, ordered by descending start line; equal starts
/// keep their order.
fn order_by_start_desc(es: &Vec<ResolvedEdit>) -> (order: Vec<usize>)
    ensures
        order@.len() == es@.len(),
        forall|p: int| 0 <= p < order@.len() ==> #[trigger] order@[p] < es@.len(),
        forall|p: int, q: int|
            0 <= p < order@.len() && 0 <= q < order@.len() && p != q ==> order@[p] != order@[q],
        forall|p: int, q: int|
            0 <= p < q < order@.len() ==> es@[order@[p] as int].start_idx
                >= es@[order@[q] as int].start_idx,
        forall|x: int| 0 <= x < es@.len() ==> #[trigger] appears(order@, x),
{
    let m = es.len();
    let mut order: Vec<usize> = Vec::new();
    let mut j: usize = 0;
    while j < m
        invariant
            j <= m,
            m == es@.len(),
            order@.len() == j,
            forall|p: int| 0 <= p < j ==> #[trigger] order@[p] < j,
            forall|p: int, q: int| 0 <= p < j && 0 <= q < j && p != q ==> order@[p] != order@[q],
            forall|p: int, q: int|
                0 <= p < q < j ==> es@[order@[p] as int].start_idx >= es@[order@[q] as int].start_idx,
            forall|x: int| 0 <= x < j ==> #[trigger] appears(order@, x),
        decreases m - j,
    {
        let sj = es[j].start_idx;
        let mut pos: usize = 0;
        while pos < order.len() && es[order[pos]].start_idx >= sj
            invariant
                pos <= order@.len(),
                order@.len() == j,
                j < m,
                m == es@.len(),
                sj == es@[j as int].start_idx,
                forall|p: int| 0 <= p < j ==> #[trigger] order@[p] < j,
                forall|q: int| 0 <= q < pos ==> es@[order@[q] as int].start_idx >= sj,
            decreases order.len() - pos,
        {
            pos += 1;
        }
        let ghost old_order = order@;
        order.insert(pos, j);
        proof {
            assert(order@ == old_order.insert(pos as int, j));
            assert forall|p: int| 0 <= p < j + 1 implies #[trigger] order@[p] < j + 1 by {
                if p < pos {
                    assert(order@[p] == old_order[p]);
                } else if p > pos {
                    assert(order@[p] == old_order[p - 1]);
                }
            }
            assert forall|p: int, q: int| 0 <= p < j + 1 && 0 <= q < j + 1 && p != q implies order@[p]
                != order@[q] by {
                if p < pos {
                    assert(order@[p] == old_order[p]);
                } else if p > pos {
                    assert(order@[p] == old_order[p - 1]);
                }
                if q < pos {
                    assert(order@[q] == old_order[q]);
                } else if q > pos {
                    assert(order@[q] == old_order[q - 1]);
                }
            }
            assert forall|p: int, q: int| 0 <= p < q < j + 1 implies es@[order@[p] as int].start_idx
                >= es@[order@[q] as int].start_idx by {
                if q < pos {
                    assert(order@[p] == old_order[p]);
                    assert(order@[q] == old_order[q]);
                } else if q == pos {
                    assert(order@[p] == old_order[p]);
                } else if p < pos {
                    assert(order@[p] == old_order[p]);
                    assert(order@[q] == old_order[q - 1]);
                    assert(es@[old_order[pos as int] as int].start_idx < sj);
                } else if p == pos {
                    assert(order@[q] == old_order[q - 1]);
                    assert(es@[old_order[pos as int] as int].start_idx < sj);
                } else {
                    assert(order@[p] == old_order[p - 1]);
                    assert(order@[q] == old_order[q - 1]);
                }
            }
            assert forall|x: int| 0 <= x < j + 1 implies #[trigger] appears(order@, x) by {
                if x == j {
                    assert(order@[pos as int] == x);
                } else {
                    assert(appears(old_order, x));
                    let p0 = choose|p: int| 0 <= p < old_order.len() && #[trigger] old_order[p] == x;
                    if p0 < pos {
                        assert(order@[p0] == x);
                    } else {
                        assert(order@[p0 + 1] == x);
                    }
                }
            }
        }
        j += 1;
    }
    order
}

/// Checks neighbouring edits in `order` for overlap; `None` exactly when the
/// edits are disjoint.
fn find_overlap(es: &Vec<ResolvedEdit>, order: &Vec<usize>, n: usize) -> (r: Option<AnchorEditError>)
    requires
        order@.len() == es@.len(),
        forall|p: int| 0 <= p < order@.len() ==> #[trigger] order@[p] < es@.len(),
        forall|p: int, q: int|
            0 <= p < order@.len() && 0 <= q < order@.len() && p != q ==> order@[p] != order@[q],
        forall|p: int, q: int|
            0 <= p < q < order@.len() ==> es@[order@[p] as int].start_idx
                >= es@[order@[q] as int].start_idx,
        forall|x: int| 0 <= x < es@.len() ==> #[trigger] appears(order@, x),
        forall|x: int| 0 <= x < es@.len() ==> #[trigger] es@[x].start_idx <= es@[x].last_idx < n,
    ensures
        match r {
            None => disjoint(edit_views(es@)),
            Some(AnchorEditError::Overlap { lower_start, lower_end, upper_start, upper_end }) => {
                let esv = edit_views(es@);
                &&& !disjoint(esv)
                &&& exists|i: int, j: int|
                    0 <= i < esv.len() && 0 <= j < esv.len() && i != j && esv[i].start
                        <= esv[j].start && esv[i].last >= esv[j].start && lower_start == esv[i].start
                        + 1 && lower_end == esv[i].last + 1 && upper_start == esv[j].start + 1
                        && upper_end == esv[j].last + 1
            },
            Some(AnchorEditError::Op { .. }) => false,
        },
{
    let ghost esv = edit_views(es@);
    let m = es.len();
    assert(forall|x: int| 0 <= x < m ==> #[trigger] esv[x] == es@[x].view());
    if m == 0 {
        return None;
    }
    let mut p: usize = 0;
    while p < m - 1
        invariant
            m == es@.len(),
            m >= 1,
            p <= m - 1,
            order@.len() == m,
            esv == edit_views(es@),
            forall|x: int| 0 <= x < m ==> #[trigger] esv[x] == es@[x].view(),
            forall|q: int| 0 <= q < m ==> #[trigger] order@[q] < m,
            forall|x: int| 0 <= x < m ==> #[trigger] es@[x].start_idx <= es@[x].last_idx < n,
            forall|q: int|
                0 <= q < p ==> es@[order@[q + 1] as int].last_idx < es@[order@[q] as int].start_idx,
            forall|a: int, b: int| 0 <= a < m && 0 <= b < m && a != b ==> order@[a] != order@[b],
            forall|a: int, b: int|
                0 <= a < b < m ==> es@[order@[a] as int].start_idx >= es@[order@[b] as int].start_idx,
        decreases m - p,
    {
        let upper = &es[order[p]];
        let lower = &es[order[p + 1]];
        if lower.last_idx >= upper.start_idx {
            proof {
                let i0 = order@[p + 1] as int;
                let j0 = order@[p as int] as int;
                assert(i0 != j0);
                assert(esv[i0] == es@[i0].view());
                assert(esv[j0] == es@[j0].view());
                assert(es@[order@[p as int] as int].start_idx >= es@[order@[p + 1] as int].start_idx);
                assert(esv[i0].start <= esv[j0].start);
                assert(esv[i0].last >= esv[j0].start);
                assert(!disjoint(esv));
            }
            return Some(
                AnchorEditError::Overlap {
                    lower_start: lower.start_idx + 1,
                    lower_end: lower.last_idx + 1,
                    upper_start: upper.start_idx + 1,
                    upper_end: upper.last_idx + 1,
                },
            );
        }
        p += 1;
    }
    proof {
        assert forall|q1: int, q2: int| 0 <= q1 < q2 < m implies es@[order@[q2] as int].start_idx
            < es@[order@[q1] as int].start_idx by {
            lemma_chain_decreasing(es@, order@, q1, q2);
        }
        assert forall|i0: int, j0: int|
            0 <= i0 < esv.len() && 0 <= j0 < esv.len() && i0 != j0 && #[trigger] esv[i0].start
                <= #[trigger] esv[j0].start implies esv[i0].last < esv[j0].start by {
            assert(appears(order@, i0));
            assert(appears(order@, j0));
            let pi = choose|q: int| 0 <= q < order@.len() && #[trigger] order@[q] == i0;
            let pj = choose|q: int| 0 <= q < order@.len() && #[trigger] order@[q] == j0;
            if pi < pj {
                assert(es@[order@[pj] as int].start_idx < es@[order@[pi] as int].start_idx);
            } else {
                assert(pi > pj);
                assert(es@[order@[pi] as int].last_idx < es@[order@[pi - 1] as int].start_idx);
                if pi - 1 > pj {
                    assert(es@[order@[pi - 1] as int].start_idx < es@[order@[pj] as int].start_idx);
                }
            }
        }
    }
    None
}

/// Starts strictly decrease along a chain whose neighbours do not overlap.
proof fn lemma_chain_decreasing(es: Seq<ResolvedEdit>, order: Seq<usize>, q1: int, q2: int)
    requires
        0 <= q1 < q2 < order.len(),
        forall|q: int| 0 <= q < order.len() ==> #[trigger] order[q] < es.len(),
        forall|x: int| 0 <= x < es.len() ==> #[trigger] es[x].start_idx <= es[x].last_idx,
        forall|q: int|
            0 <= q < order.len() - 1 ==> es[order[q + 1] as int].last_idx < es[order[q] as int].start_idx,
    ensures
        es[order[q2] as int].start_idx < es[order[q1] as int].start_idx,
    decreases q2 - q1,
{
    assert(es[order[q2] as int].last_idx < es[order[q2 - 1] as int].start_idx);
    if q2 - 1 > q1 {
        lemma_chain_decreasing(es, order, q1, q2 - 1);
    }
}

/// The edited lines, built line by line from disjoint edits.
fn assemble(ls: &Vec<Vec<char>>, es: &Vec<ResolvedEdit>) -> (out: Vec<Vec<char>>)
    requires
        disjoint(edit_views(es@)),
        forall|x: int| 0 <= x < es@.len() ==> #[trigger] es@[x].start_idx <= es@[x].last_idx,
    ensures
        line_views(out@) == edited_lines(line_views(ls@), edit_views(es@)),
{
    let ghost lsv = line_views(ls@);
    let ghost esv = edit_views(es@);
    let n = ls.len();
    let m = es.len();
    let mut out: Vec<Vec<char>> = Vec::new();
    let mut k: usize = 0;
    assert(line_views(out@) =~= Seq::<Seq<char>>::empty());
    while k < n
        invariant
            k <= n,
            n == ls@.len(),
            lsv == line_views(ls@),
            m == es@.len(),
            esv == edit_views(es@),
            disjoint(esv),
            forall|x: int| 0 <= x < es@.len() ==> #[trigger] es@[x].start_idx <= es@[x].last_idx,
            line_views(out@) == edited_prefix(lsv, esv, k as int),
        decreases n - k,
    {
        assert(forall|x: int| 0 <= x < m ==> #[trigger] esv[x] == es@[x].view());
        assert(lsv[k as int] == ls@[k as int]@);
        let ghost before = line_views(out@);
        let mut f: usize = 0;
        while f < m && es[f].start_idx != k
            invariant
                f <= m,
                m == es@.len(),
                forall|x: int| 0 <= x < f ==> #[trigger] es@[x].start_idx != k,
            decreases m - f,
        {
            f += 1;
        }
        if f < m {
            proof {
                assert(esv[f as int].start == k);
                let c = choose|x: int| 0 <= x < esv.len() && #[trigger] esv[x].start == k;
                assert forall|x: int| 0 <= x < esv.len() implies #[trigger] esv[x].start
                    <= esv[x].last by {
                    assert(esv[x] == es@[x].view());
                }
                lemma_unique_start(esv, c, f as int);
            }
            let e = &es[f];
            match e.mode {
                InsertMode::Before => {
                    push_lines(&mut out, &e.replacement);
                    push_line(&mut out, &ls[k]);
                },
                InsertMode::After => {
                    push_line(&mut out, &ls[k]);
                    push_lines(&mut out, &e.replacement);
                    assert(line_views(out@) =~= before + (seq![lsv[k as int]] + line_views(
                        e.replacement@,
                    )));
                },
                InsertMode::Replace => {
                    push_lines(&mut out, &e.replacement);
                },
            }
        } else {
            let mut g: usize = 0;
            while g < m && !(es[g].mode == InsertMode::Replace && es[g].start_idx < k && k
                <= es[g].last_idx)
                invariant
                    g <= m,
                    m == es@.len(),
                    forall|x: int|
                        0 <= x < g ==> !((#[trigger] es@[x]).mode == InsertMode::Replace
                            && es@[x].start_idx < k && k <= es@[x].last_idx),
                decreases m - g,
            {
                g += 1;
            }
            proof {
                if starts_at(esv, k as int) {
                    let c = choose|x: int| 0 <= x < esv.len() && #[trigger] esv[x].start == k;
                    assert(esv[c] == es@[c].view());
                }
            }
            if g < m {
                proof {
                    assert(esv[g as int] == es@[g as int].view());
                    assert(replaced_within(esv, k as int));
                }
            } else {
                proof {
                    if replaced_within(esv, k as int) {
                        let c = choose|x: int|
                            0 <= x < esv.len() && (#[trigger] esv[x]).mode == InsertMode::Replace
                                && esv[x].start < k <= esv[x].last;
                        assert(esv[c] == es@[c].view());
                    }
                }
                push_line(&mut out, &ls[k]);
            }
        }
        k += 1;
    }
    out
}

/// The lines joined with `\n`.
fn join_text(out: &Vec<Vec<char>>) -> (text: String)
    ensures
        text@ == join_lines(line_views(out@)),
{
    let ghost lines_out = line_views(out@);
    let mut text = String::new();
    let mut q: usize = 0;
    assert(lines_out.take(0) =~= Seq::<Seq<char>>::empty());
    while q < out.len()
        invariant
            q <= out@.len(),
            lines_out == line_views(out@),
            text@ == join_lines(lines_out.take(q as int)),
        decreases out.len() - q,
    {
        proof {
            assert(lines_out.take(q + 1).drop_last() == lines_out.take(q as int));
            assert(lines_out.take(q + 1).last() == out@[q as int]@);
        }
        if q > 0 {
            string_push(&mut text, '\n');
        }
        push_chars(&mut text, &out[q]);
        proof {
            if q == 0 {
                assert(lines_out.take(1) =~= seq![out@[0]@]);
            }
        }
        q += 1;
    }
    assert(lines_out.take(out@.len() as int) == lines_out);
    text
}

/// Applies anchored edits to a file.
///
/// Every operation is resolved first (the first malformed or stale one is
/// reported with its index); then the edits must not overlap; then all are
/// applied to the original lines at once.
pub fn apply_anchor_edits(source: &str, ops: &[EditOp]) -> (r: Result<String, AnchorEditError>)
    ensures
        match r {
            Ok(out) => resolve_all(lines_spec(source@), ops@) matches Ok(es) && disjoint(es)
                && out@ == edited_text(source@, es),
            Err(AnchorEditError::Op { index, error }) => resolve_all(lines_spec(source@), ops@)
                == Err::<Seq<SpecEdit>, (int, OpFault)>((index as int, error.view())),
            Err(AnchorEditError::Overlap { lower_start, lower_end, upper_start, upper_end }) => {
                &&& resolve_all(lines_spec(source@), ops@) matches Ok(es)
                &&& !disjoint(es)
                &&& exists|i: int, j: int|
                    0 <= i < es.len() && 0 <= j < es.len() && i != j && es[i].start <= es[j].start
                        && es[i].last >= es[j].start && lower_start == es[i].start + 1 && lower_end
                        == es[i].last + 1 && upper_start == es[j].start + 1 && upper_end
                        == es[j].last + 1
            },
        },
{
    let v = chars_of(source);
    let ls = lines_exec(&v);
    assert(line_views(ls@) =~= lines_spec(source@));
    let es = match resolve_ops(&ls, ops) {
        Err(e) => {
            return Err(e);
        },
        Ok(es) => es,
    };
    let order = order_by_start_desc(&es);
    let ghost esv = edit_views(es@);
    assert(resolve_all(lines_spec(source@), ops@) == Ok::<Seq<SpecEdit>, (int, OpFault)>(esv));
    if let Some(e) = find_overlap(&es, &order, ls.len()) {
        proof {
            match e {
                AnchorEditError::Overlap { lower_start, lower_end, upper_start, upper_end } => {
                    assert(!disjoint(esv));
                    let (i, j) = choose|i: int, j: int|
                        0 <= i < esv.len() && 0 <= j < esv.len() && i != j && esv[i].start
                            <= esv[j].start && esv[i].last >= esv[j].start && lower_start
                            == esv[i].start + 1 && lower_end == esv[i].last + 1 && upper_start
                            == esv[j].start + 1 && upper_end == esv[j].last + 1;
                    assert(0 <= i < esv.len());
                },
                AnchorEditError::Op { .. } => {},
            }
        }
        return Err(e);
    }
    let out = assemble(&ls, &es);
    let mut text = join_text(&out);
    let vn = v.len();
    if vn > 0 && v[vn - 1] == '\n' {
        string_push(&mut text, '\n');
    }
    Ok(text)
}

// ---------------------------------------------------------------------------
// Laws

proof fn lemma_no_edits_prefix(ls: Seq<Seq<char>>, m: int)
    requires
        0 <= m <= ls.len(),
    ensures
        edited_prefix(ls, Seq::<SpecEdit>::empty(), m) == ls.take(m),
    decreases m,
{
    if m > 0 {
        lemma_no_edits_prefix(ls, m - 1);
        let es = Seq::<SpecEdit>::empty();
        assert(!starts_at(es, m - 1));
        assert(!replaced_within(es, m - 1));
        assert(ls.take(m) == ls.take(m - 1) + seq![ls[m - 1]]);
    } else {
        assert(ls.take(0) =~= Seq::<Seq<char>>::empty());
    }
}

proof fn lemma_join_update_last(parts: Seq<Seq<char>>, x: char)
    requires
        parts.len() >= 1,
    ensures
        join_lines(parts.update(parts.len() - 1, parts.last().push(x))) == join_lines(parts).push(x),
{
    let up = parts.update(parts.len() - 1, parts.last().push(x));
    if parts.len() > 1 {
        assert(up.drop_last() == parts.drop_last());
    }
}

/// Splitting on newlines and joining back gives the text again.
pub proof fn lemma_join_split(t: Seq<char>)
    ensures
        join_lines(split_on(t, '\n')) == t,
    decreases t.len(),
{
    lemma_split_on_nonempty(t, '\n');
    if t.len() > 0 {
        let u = t.drop_last();
        let x = t.last();
        lemma_join_split(u);
        lemma_split_on_nonempty(u, '\n');
        assert(u.push(x) == t);
        lemma_split_on_push(u, x, '\n');
        let parts = split_on(u, '\n');
        if x == '\n' {
            let ps = parts.push(Seq::<char>::empty());
            assert(ps.drop_last() == parts);
            assert(join_lines(ps) == join_lines(parts).push('\n') + Seq::<char>::empty());
        } else {
            lemma_join_update_last(parts, x);
        }
    }
}

/// Applying no edit gives the file back unchanged.
pub proof fn lemma_no_edits_identity(source: Seq<char>)
    ensures
        edited_text(source, Seq::empty()) == source,
{
    let ls = lines_spec(source);
    lemma_no_edits_prefix(ls, ls.len() as int);
    assert(ls.take(ls.len() as int) == ls);
    let t = if source.len() > 0 && source.last() == '\n' {
        source.drop_last()
    } else {
        source
    };
    if t.len() > 0 {
        lemma_join_split(t);
    }
    if source.len() > 0 && source.last() == '\n' {
        assert(t.push('\n') == source);
    }
}

/// Batches of no operations succeed and leave the file unchanged.
pub proof fn lemma_empty_batch_identity(source: Seq<char>)
    ensures
        resolve_all(lines_spec(source), Seq::<EditOp>::empty()) == Ok::<Seq<SpecEdit>, (int, OpFault)>(
            Seq::empty(),
        ),
        disjoint(Seq::<SpecEdit>::empty()),
        edited_text(source, Seq::empty()) == source,
{
    lemma_no_edits_identity(source);
}

proof fn lemma_digit_char_value(d: int)
    requires
        0 <= d < 10,
    ensures
        is_digit(digit_char(d)),
        digit_value(digit_char(d)) == d,
        digit_char(d) != ':',
        digit_char(d) != '+',
{
}

/// The decimal rendering of `n` is a run of digits whose value is `n`.
pub proof fn lemma_decimal_digits(n: nat)
    ensures
        decimal(n).len() >= 1,
        forall|i: int| 0 <= i < decimal(n).len() ==> is_digit(#[trigger] decimal(n)[i]),
        digits_value(decimal(n)) == n,
    decreases n,
{
    if n < 10 {
        lemma_digit_char_value(n as int);
        assert(decimal(n).drop_last() =~= Seq::<char>::empty());
        assert(digits_value(Seq::<char>::empty()) == 0);
        assert(decimal(n).last() == digit_char(n as int));
        assert(digits_value(decimal(n)) == n);
    } else {
        lemma_decimal_digits(n / 10);
        lemma_digit_char_value((n % 10) as int);
        let d = decimal(n);
        assert(d.drop_last() == decimal(n / 10));
        assert(d.last() == digit_char((n % 10) as int));
        assert(digits_value(d) == (n / 10) * 10 + n % 10);
        assert forall|i: int| 0 <= i < d.len() implies is_digit(#[trigger] d[i]) by {
            if i < d.len() - 1 {
                assert(d[i] == decimal(n / 10)[i]);
            }
        }
    }
}

proof fn lemma_hex_char_ascii(d: int)
    requires
        0 <= d < 16,
    ensures
        hex_char(d) as u32 <= 0x7F,
        char_utf8_len(hex_char(d)) == 1,
{
    if d < 10 {
        lemma_digit_char_value(d);
    }
}

/// A line hash is four ASCII characters: four bytes of UTF-8.
pub proof fn lemma_line_hash_bytes(l: Seq<char>)
    ensures
        line_hash(l).len() == 4,
        encode_utf8(line_hash(l)).len() == 4,
{
    let h = line_hash(l);
    let x = fnv1a64(encode_utf8(l)) as int / 0x1_0000_0000_0000;
    assert(0 <= x < 65536);
    lemma_hex_char_ascii(x / 4096);
    lemma_hex_char_ascii(x / 256 % 16);
    lemma_hex_char_ascii(x / 16 % 16);
    lemma_hex_char_ascii(x % 16);
    lemma_utf8_len(h);
    let h3 = h.drop_first().drop_first().drop_first();
    assert(h3.drop_first() =~= Seq::<char>::empty());
    assert(h3[0] == h[3]);
    assert(h[3] == hex_char(x % 16));
    assert(utf8_len(Seq::<char>::empty()) == 0);
    assert(utf8_len(h3) == 1);
    assert(h.drop_first().drop_first()[0] == h[2]);
    assert(h.drop_first()[0] == h[1]);
    assert(utf8_len(h.drop_first().drop_first()) == 2);
    assert(utf8_len(h.drop_first()) == 3);
    assert(utf8_len(h) == 4);
}

/// The anchor shown for a line, `N:hhhh`, names that line and matches it: the
/// anchors that `render_hashlines` prints are accepted by `apply_anchor_edits`
/// until the line changes.
pub proof fn lemma_rendered_anchor_accepted(ls: Seq<Seq<char>>, k: int)
    requires
        0 <= k < ls.len(),
        k + 1 <= usize::MAX,
    ensures
        parse_anchor_spec(decimal((k + 1) as nat).push(':') + line_hash(ls[k])) == Ok::<
            (nat, Seq<char>),
            OpFault,
        >(((k + 1) as nat, line_hash(ls[k]))),
        check_anchor(ls, (k + 1) as nat, line_hash(ls[k])) is None,
{
    let n = (k + 1) as nat;
    let d = decimal(n);
    let h = line_hash(ls[k]);
    let v = d.push(':') + h;
    let colon = seq![':'];
    lemma_decimal_digits(n);
    lemma_line_hash_bytes(ls[k]);
    assert forall|j: int| 0 <= j < d.len() implies !occurs_at(v, colon, j) by {
        assert(v[j] == d[j]);
        assert(is_digit(d[j]));
        if occurs_at(v, colon, j) {
            assert(v.subrange(j, j + 1)[0] == v[j]);
        }
    }
    assert(v.subrange(d.len() as int, d.len() + 1 as int) =~= colon);
    assert(occurs_at(v, colon, d.len() as int));
    lemma_find_from_facts(v, colon, 0);
    assert(find(v, colon) == Some(d.len() as int));
    assert(v.take(d.len() as int) == d);
    assert(v.skip(d.len() + 1 as int) =~= h);
    assert(unsigned_digits(d) == d);
    assert(hash_matches(h, h));
}

/// No piece of a split holds the separator.
proof fn lemma_split_on_no_sep(s: Seq<char>, c: char)
    ensures
        forall|i: int, j: int|
            0 <= i < split_on(s, c).len() && 0 <= j < split_on(s, c)[i].len() ==> #[trigger] split_on(
                s,
                c,
            )[i][j] != c,
    decreases s.len(),
{
    lemma_split_on_nonempty(s, c);
    if s.len() > 0 {
        let t = s.drop_last();
        lemma_split_on_no_sep(t, c);
        lemma_split_on_nonempty(t, c);
        lemma_split_on_push(t, s.last(), c);
        assert(t.push(s.last()) =~= s);
        let ps = split_on(t, c);
        let qs = split_on(s, c);
        assert forall|i: int, j: int| 0 <= i < qs.len() && 0 <= j < qs[i].len() implies #[trigger] qs[i][j]
            != c by {
            if s.last() == c {
                if i < ps.len() {
                    assert(qs[i] == ps[i]);
                }
            } else {
                if i < ps.len() - 1 {
                    assert(qs[i] == ps[i]);
                } else {
                    assert(qs[i] == ps.last().push(s.last()));
                    if j < ps.last().len() {
                        assert(qs[i][j] == ps[ps.len() - 1][j]);
                    }
                }
            }
        }
    }
}

/// The lines of a file hold no newline.
proof fn lemma_lines_no_newline(source: Seq<char>)
    ensures
        forall|i: int, j: int|
            0 <= i < lines_spec(source).len() && 0 <= j < lines_spec(source)[i].len() ==> #[trigger] lines_spec(
                source,
            )[i][j] != '\n',
{
    let t = if source.len() > 0 && source.last() == '\n' {
        source.drop_last()
    } else {
        source
    };
    lemma_split_on_no_sep(t, '\n');
}

proof fn lemma_self_prefix(ls: Seq<Seq<char>>, e: SpecEdit, m: int)
    requires
        0 <= e.start < ls.len(),
        e.last == e.start,
        e.mode == InsertMode::Replace,
        e.repl == seq![ls[e.start]],
        0 <= m <= ls.len(),
    ensures
        edited_prefix(ls, seq![e], m) == edited_prefix(ls, Seq::<SpecEdit>::empty(), m),
    decreases m,
{
    if m > 0 {
        lemma_self_prefix(ls, e, m - 1);
        let k = m - 1;
        let es = seq![e];
        let none = Seq::<SpecEdit>::empty();
        assert(!starts_at(none, k));
        assert(!replaced_within(none, k));
        assert(!replaced_within(es, k)) by {
            if replaced_within(es, k) {
                let i = choose|i: int|
                    0 <= i < es.len() && (#[trigger] es[i]).mode == InsertMode::Replace && es[i].start < k
                        <= es[i].last;
                assert(es[i] == e);
            }
        }
        if k == e.start {
            assert(es[0].start == k);
            assert(starts_at(es, k));
            let i = choose|i: int| 0 <= i < es.len() && #[trigger] es[i].start == k;
            assert(es[i] == e);
        } else {
            assert(!starts_at(es, k)) by {
                if starts_at(es, k) {
                    let i = choose|i: int| 0 <= i < es.len() && #[trigger] es[i].start == k;
                    assert(es[i] == e);
                }
            }
        }
    }
}

proof fn lemma_resolve_one(ls: Seq<Seq<char>>, x: EditOp)
    ensures
        resolve_all(ls, seq![x]) == match resolve_spec(ls, x) {
            Ok(a) => Ok::<Seq<SpecEdit>, (int, OpFault)>(seq![a]),
            Err(f) => Err((0, f)),
        },
{
    let ops = seq![x];
    assert(ops.drop_last() =~= Seq::<EditOp>::empty());
    assert(resolve_all(ls, ops.drop_last()) == Ok::<Seq<SpecEdit>, (int, OpFault)>(Seq::empty()));
    assert(ops.last() == x);
    match resolve_spec(ls, x) {
        Ok(a) => {
            assert(Seq::<SpecEdit>::empty().push(a) =~= seq![a]);
        },
        Err(f) => {},
    }
}

proof fn lemma_resolve_pair(ls: Seq<Seq<char>>, x: EditOp, y: EditOp)
    ensures
        resolve_spec(ls, x) is Ok && resolve_spec(ls, y) is Ok ==> resolve_all(ls, seq![x, y]) == Ok::<
            Seq<SpecEdit>,
            (int, OpFault),
        >(seq![resolve_spec(ls, x)->Ok_0, resolve_spec(ls, y)->Ok_0]),
{
    let ops = seq![x, y];
    assert(ops.drop_last() =~= seq![x]);
    assert(ops.last() == y);
    lemma_resolve_one(ls, x);
    if let Ok(a) = resolve_spec(ls, x) {
        if let Ok(b) = resolve_spec(ls, y) {
            assert(seq![a].push(b) =~= seq![a, b]);
        }
    }
}

proof fn lemma_actions_differ()
    ensures
        "replace"@ != "insert_before"@,
        "replace"@ != "insert_after"@,
{
    reveal_strlit("replace");
    reveal_strlit("insert_before");
    reveal_strlit("insert_after");
    assert("replace"@.len() != "insert_before"@.len());
    assert("replace"@.len() != "insert_after"@.len());
}

proof fn lemma_self_edit_resolves(ls: Seq<Seq<char>>, k: int, op: EditOp)
    requires
        0 <= k < ls.len(),
        k + 1 <= usize::MAX,
        lines_spec(ls[k]) == seq![ls[k]],
        op.start_at@ == decimal((k + 1) as nat).push(':') + line_hash(ls[k]),
        op.end_at@.len() == 0,
        op.action@ == "replace"@,
        op.content@ == ls[k],
    ensures
        resolve_spec(ls, op) == Ok::<SpecEdit, OpFault>(
            SpecEdit { start: k, last: k, repl: seq![ls[k]], mode: InsertMode::Replace },
        ),
{
    lemma_rendered_anchor_accepted(ls, k);
    lemma_actions_differ();
    assert(resolve_end(ls, op, (k + 1) as nat) == Ok::<Option<nat>, OpFault>(None));
    reveal(resolve_spec);
}

proof fn lemma_line_alone(source: Seq<char>, k: int)
    requires
        0 <= k < lines_spec(source).len(),
        lines_spec(source)[k].len() > 0,
    ensures
        lines_spec(lines_spec(source)[k]) == seq![lines_spec(source)[k]],
{
    let line = lines_spec(source)[k];
    lemma_lines_no_newline(source);
    assert forall|j: int| 0 <= j < line.len() implies line[j] != '\n' by {
        assert(lines_spec(source)[k][j] != '\n');
    }
    assert(line.last() != '\n') by {
        assert(line[line.len() - 1] != '\n');
    }
    crate::text::lemma_split_on_single(line, '\n');
}

proof fn lemma_self_edit_identity(source: Seq<char>, e: SpecEdit)
    requires
        0 <= e.start < lines_spec(source).len(),
        e.last == e.start,
        e.mode == InsertMode::Replace,
        e.repl == seq![lines_spec(source)[e.start]],
    ensures
        edited_text(source, seq![e]) == source,
{
    let ls = lines_spec(source);
    lemma_self_prefix(ls, e, ls.len() as int);
    lemma_no_edits_identity(source);
}

/// Replacing a non-empty line by itself, through the anchor that
/// `render_hashlines` shows for it, is accepted and gives the file back
/// unchanged (its final newline included).
pub proof fn lemma_replace_line_by_itself(source: Seq<char>, k: int, op: EditOp)
    requires
        0 <= k < lines_spec(source).len(),
        k + 1 <= usize::MAX,
        lines_spec(source)[k].len() > 0,
        op.start_at@ == decimal((k + 1) as nat).push(':') + line_hash(lines_spec(source)[k]),
        op.end_at@.len() == 0,
        op.action@ == "replace"@,
        op.content@ == lines_spec(source)[k],
    ensures
        resolve_all(lines_spec(source), seq![op]) matches Ok(es) && disjoint(es) && edited_text(source, es)
            == source,
{
    let ls = lines_spec(source);
    lemma_line_alone(source, k);
    lemma_self_edit_resolves(ls, k, op);
    let e = SpecEdit { start: k, last: k, repl: seq![ls[k]], mode: InsertMode::Replace };
    lemma_resolve_one(ls, op);
    assert(disjoint(seq![e]));
    lemma_self_edit_identity(source, e);
}

/// Two disjoint edits give the same lines in either order.
proof fn lemma_swap_two(ls: Seq<Seq<char>>, a: SpecEdit, b: SpecEdit, m: int)
    requires
        disjoint(seq![a, b]),
        a.start <= a.last,
        b.start <= b.last,
        0 <= m <= ls.len(),
    ensures
        disjoint(seq![b, a]),
        edited_prefix(ls, seq![a, b], m) == edited_prefix(ls, seq![b, a], m),
    decreases m,
{
    let es = seq![a, b];
    let fs = seq![b, a];
    assert(es[0] == a && es[1] == b && fs[0] == b && fs[1] == a);
    assert(a.start != b.start) by {
        if a.start == b.start {
            assert(es[0].start <= es[1].start);
        }
    }
    assert(disjoint(fs)) by {
        assert forall|i: int, j: int|
            0 <= i < fs.len() && 0 <= j < fs.len() && i != j && #[trigger] fs[i].start
                <= #[trigger] fs[j].start implies fs[i].last < fs[j].start by {
            assert(es[1 - i].start <= es[1 - j].start);
        }
    }
    if m > 0 {
        lemma_swap_two(ls, a, b, m - 1);
        let k = m - 1;
        assert(starts_at(es, k) == starts_at(fs, k)) by {
            if starts_at(es, k) {
                let i = choose|i: int| 0 <= i < es.len() && #[trigger] es[i].start == k;
                assert(fs[1 - i].start == k);
            }
            if starts_at(fs, k) {
                let i = choose|i: int| 0 <= i < fs.len() && #[trigger] fs[i].start == k;
                assert(es[1 - i].start == k);
            }
        }
        assert(replaced_within(es, k) == replaced_within(fs, k)) by {
            if replaced_within(es, k) {
                let i = choose|i: int|
                    0 <= i < es.len() && (#[trigger] es[i]).mode == InsertMode::Replace && es[i].start < k
                        <= es[i].last;
                assert(fs[1 - i] == es[i]);
            }
            if replaced_within(fs, k) {
                let i = choose|i: int|
                    0 <= i < fs.len() && (#[trigger] fs[i]).mode == InsertMode::Replace && fs[i].start < k
                        <= fs[i].last;
                assert(es[1 - i] == fs[i]);
            }
        }
        if starts_at(es, k) {
            let i = choose|i: int| 0 <= i < es.len() && #[trigger] es[i].start == k;
            let i2 = choose|i: int| 0 <= i < fs.len() && #[trigger] fs[i].start == k;
            assert(es[i] == fs[i2]) by {
                if es[i] != fs[i2] {
                    assert(fs[i2] == es[1 - i2]);
                    if i == 1 - i2 {
                    } else {
                        assert(es[0].start == es[1].start);
                    }
                }
            }
        }
        assert(line_piece(ls, es, k) == line_piece(ls, fs, k));
    }
}

/// Two operations that resolve to disjoint edits may be given in either
/// order: both orders resolve, to the same edits, and edit the file alike,
/// since anchors name lines of the file as it was.
pub proof fn lemma_two_edits_commute(source: Seq<char>, op1: EditOp, op2: EditOp)
    requires
        resolve_all(lines_spec(source), seq![op1, op2]) matches Ok(es) && disjoint(es),
    ensures
        resolve_all(lines_spec(source), seq![op1, op2]) matches Ok(es) && resolve_all(
            lines_spec(source),
            seq![op2, op1],
        ) == Ok::<Seq<SpecEdit>, (int, OpFault)>(seq![es[1], es[0]]) && disjoint(seq![es[1], es[0]])
            && edited_text(source, es) == edited_text(source, seq![es[1], es[0]]),
{
    let ls = lines_spec(source);
    lemma_resolve_pair(ls, op1, op2);
    lemma_resolve_pair(ls, op2, op1);
    lemma_resolve_one(ls, op1);
    let ab = seq![op1, op2];
    assert(ab.drop_last() =~= seq![op1]);
    assert(ab.last() == op2);
    let a = resolve_spec(ls, op1)->Ok_0;
    let b = resolve_spec(ls, op2)->Ok_0;
    lemma_resolved_in_file(ls, op1);
    lemma_resolved_in_file(ls, op2);
    lemma_swap_two(ls, a, b, ls.len() as int);
    let es = seq![a, b];
    assert(seq![es[1], es[0]] =~= seq![b, a]);
}

/// The lines an edit of line `k` alone leaves in place of that line.
pub open spec fn single_piece(e: SpecEdit, line: Seq<char>) -> Seq<Seq<char>> {
    match e.mode {
        InsertMode::Before => e.repl.push(line),
        InsertMode::After => seq![line] + e.repl,
        InsertMode::Replace => e.repl,
    }
}

proof fn lemma_single_edit_prefix(ls: Seq<Seq<char>>, e: SpecEdit, m: int)
    requires
        0 <= e.start < ls.len(),
        e.last == e.start,
        0 <= m <= ls.len(),
    ensures
        edited_prefix(ls, seq![e], m) == if m <= e.start {
            ls.take(m)
        } else {
            ls.take(e.start) + single_piece(e, ls[e.start]) + ls.subrange(e.start + 1, m)
        },
    decreases m,
{
    if m == 0 {
        assert(ls.take(0) =~= Seq::<Seq<char>>::empty());
    } else {
        lemma_single_edit_prefix(ls, e, m - 1);
        let k = m - 1;
        let es = seq![e];
        assert(!replaced_within(es, k)) by {
            if replaced_within(es, k) {
                let i = choose|i: int|
                    0 <= i < es.len() && (#[trigger] es[i]).mode == InsertMode::Replace && es[i].start < k
                        <= es[i].last;
                assert(es[i] == e);
            }
        }
        if k == e.start {
            assert(es[0].start == k);
            assert(starts_at(es, k));
            let i = choose|i: int| 0 <= i < es.len() && #[trigger] es[i].start == k;
            assert(es[i] == e);
            assert(line_piece(ls, es, k) == single_piece(e, ls[k]));
            assert(ls.take(k) =~= ls.take(m - 1));
            assert(ls.subrange(e.start + 1, m) =~= Seq::<Seq<char>>::empty());
            assert(ls.take(e.start) + single_piece(e, ls[e.start]) + ls.subrange(e.start + 1, m)
                =~= ls.take(e.start) + single_piece(e, ls[e.start]));
        } else {
            assert(!starts_at(es, k)) by {
                if starts_at(es, k) {
                    let i = choose|i: int| 0 <= i < es.len() && #[trigger] es[i].start == k;
                    assert(es[i] == e);
                }
            }
            assert(line_piece(ls, es, k) == seq![ls[k]]);
            if m <= e.start {
                assert(ls.take(m) =~= ls.take(m - 1).push(ls[k]));
                assert(ls.take(m - 1) + seq![ls[k]] =~= ls.take(m - 1).push(ls[k]));
            } else {
                assert(ls.subrange(e.start + 1, m) =~= ls.subrange(e.start + 1, m - 1).push(ls[k]));
                assert(ls.take(e.start) + single_piece(e, ls[e.start]) + ls.subrange(e.start + 1, m - 1)
                    + seq![ls[k]] =~= ls.take(e.start) + single_piece(e, ls[e.start]) + ls.subrange(
                    e.start + 1,
                    m,
                ));
            }
        }
    }
}

proof fn lemma_action_names_differ()
    ensures
        "insert_before"@ != "insert_after"@,
        "insert_before"@ != "replace"@,
        "insert_before"@ != "delete"@,
        "insert_after"@ != "replace"@,
        "insert_after"@ != "delete"@,
        "replace"@ != "delete"@,
{
    reveal_strlit("insert_before");
    reveal_strlit("insert_after");
    reveal_strlit("replace");
    reveal_strlit("delete");
    assert("insert_before"@.len() != "insert_after"@.len());
    assert("insert_before"@.len() != "replace"@.len());
    assert("insert_before"@.len() != "delete"@.len());
    assert("insert_after"@.len() != "replace"@.len());
    assert("insert_after"@.len() != "delete"@.len());
    assert("replace"@.len() != "delete"@.len());
}

proof fn lemma_single_op_resolves(ls: Seq<Seq<char>>, k: int, op: EditOp)
    requires
        0 <= k < ls.len(),
        k + 1 <= usize::MAX,
        op.start_at@ == decimal((k + 1) as nat).push(':') + line_hash(ls[k]),
        op.end_at@.len() == 0,
    ensures
        op.action@ == "insert_before"@ ==> resolve_spec(ls, op) == Ok::<SpecEdit, OpFault>(
            SpecEdit { start: k, last: k, repl: lines_spec(op.content@), mode: InsertMode::Before },
        ),
        op.action@ == "insert_after"@ ==> resolve_spec(ls, op) == Ok::<SpecEdit, OpFault>(
            SpecEdit { start: k, last: k, repl: lines_spec(op.content@), mode: InsertMode::After },
        ),
        op.action@ == "replace"@ ==> resolve_spec(ls, op) == Ok::<SpecEdit, OpFault>(
            SpecEdit { start: k, last: k, repl: lines_spec(op.content@), mode: InsertMode::Replace },
        ),
        op.action@ == "delete"@ ==> resolve_spec(ls, op) == Ok::<SpecEdit, OpFault>(
            SpecEdit { start: k, last: k, repl: Seq::empty(), mode: InsertMode::Replace },
        ),
{
    lemma_rendered_anchor_accepted(ls, k);
    lemma_action_names_differ();
    assert(resolve_end(ls, op, (k + 1) as nat) == Ok::<Option<nat>, OpFault>(None));
    reveal(resolve_spec);
}

/// An edit of one line, through the anchor that `render_hashlines` shows for
/// line `k` (counted from 0), is accepted, and places the content's lines
/// relative to that line: `insert_before` puts them just before it,
/// `insert_after` just after it, `replace` in its place, and `delete` removes
/// the line. Every other line stays where it was, in order.
pub proof fn lemma_single_line_edit(source: Seq<char>, k: int, op: EditOp)
    requires
        0 <= k < lines_spec(source).len(),
        k + 1 <= usize::MAX,
        op.start_at@ == decimal((k + 1) as nat).push(':') + line_hash(lines_spec(source)[k]),
        op.end_at@.len() == 0,
    ensures
        ({
            let ls = lines_spec(source);
            let c = lines_spec(op.content@);
            &&& op.action@ == "insert_before"@ ==> (resolve_all(ls, seq![op]) matches Ok(es) && disjoint(es)
                && edited_lines(ls, es) == ls.take(k) + c + ls.skip(k))
            &&& op.action@ == "insert_after"@ ==> (resolve_all(ls, seq![op]) matches Ok(es) && disjoint(es)
                && edited_lines(ls, es) == ls.take(k + 1) + c + ls.skip(k + 1))
            &&& op.action@ == "replace"@ ==> (resolve_all(ls, seq![op]) matches Ok(es) && disjoint(es)
                && edited_lines(ls, es) == ls.take(k) + c + ls.skip(k + 1))
            &&& op.action@ == "delete"@ ==> (resolve_all(ls, seq![op]) matches Ok(es) && disjoint(es)
                && edited_lines(ls, es) == ls.take(k) + ls.skip(k + 1))
        }),
{
    let ls = lines_spec(source);
    let c = lines_spec(op.content@);
    lemma_single_op_resolves(ls, k, op);
    lemma_resolve_one(ls, op);
    if resolve_spec(ls, op) is Ok {
        let e = resolve_spec(ls, op)->Ok_0;
        if e.start == k && e.last == k {
            assert(disjoint(seq![e]));
            lemma_single_edit_prefix(ls, e, ls.len() as int);
            assert(ls.subrange(k + 1, ls.len() as int) =~= ls.skip(k + 1));
            assert(ls.skip(k) =~= seq![ls[k]] + ls.skip(k + 1));
            assert(ls.take(k + 1) =~= ls.take(k).push(ls[k]));
            if op.action@ == "insert_before"@ {
                assert(ls.take(k) + c.push(ls[k]) + ls.skip(k + 1) =~= ls.take(k) + c + ls.skip(k));
            }
            if op.action@ == "insert_after"@ {
                assert(ls.take(k) + (seq![ls[k]] + c) + ls.skip(k + 1) =~= ls.take(k + 1) + c + ls.skip(
                    k + 1,
                ));
            }
            if op.action@ == "delete"@ {
                assert(ls.take(k) + Seq::<Seq<char>>::empty() + ls.skip(k + 1) =~= ls.take(k) + ls.skip(k + 1));
            }
        }
    }
}

proof fn lemma_range_edit_prefix(ls: Seq<Seq<char>>, e: SpecEdit, n: int)
    requires
        0 <= e.start <= e.last < ls.len(),
        e.mode == InsertMode::Replace,
        0 <= n <= ls.len(),
    ensures
        edited_prefix(ls, seq![e], n) == if n <= e.start {
            ls.take(n)
        } else if n <= e.last + 1 {
            ls.take(e.start) + e.repl
        } else {
            ls.take(e.start) + e.repl + ls.subrange(e.last + 1, n)
        },
    decreases n,
{
    if n == 0 {
        assert(ls.take(0) =~= Seq::<Seq<char>>::empty());
    } else {
        lemma_range_edit_prefix(ls, e, n - 1);
        let k = n - 1;
        let es = seq![e];
        if k == e.start {
            assert(es[0].start == k);
            assert(starts_at(es, k));
            let i = choose|i: int| 0 <= i < es.len() && #[trigger] es[i].start == k;
            assert(es[i] == e);
            assert(line_piece(ls, es, k) == e.repl);
            assert(ls.take(k) =~= ls.take(n - 1));
        } else {
            assert(!starts_at(es, k)) by {
                if starts_at(es, k) {
                    let i = choose|i: int| 0 <= i < es.len() && #[trigger] es[i].start == k;
                    assert(es[i] == e);
                }
            }
            if e.start < k <= e.last {
                assert(es[0].mode == InsertMode::Replace && es[0].start < k <= es[0].last);
                assert(replaced_within(es, k));
                assert(line_piece(ls, es, k) == Seq::<Seq<char>>::empty());
                assert(ls.take(e.start) + e.repl + Seq::<Seq<char>>::empty() =~= ls.take(e.start) + e.repl);
            } else {
                assert(!replaced_within(es, k)) by {
                    if replaced_within(es, k) {
                        let i = choose|i: int|
                            0 <= i < es.len() && (#[trigger] es[i]).mode == InsertMode::Replace && es[i].start
                                < k <= es[i].last;
                        assert(es[i] == e);
                    }
                }
                assert(line_piece(ls, es, k) == seq![ls[k]]);
                if n <= e.start {
                    assert(ls.take(n) =~= ls.take(n - 1) + seq![ls[k]]);
                } else if k == e.last + 1 {
                    assert(ls.subrange(e.last + 1, n) =~= seq![ls[k]]);
                } else {
                    assert(ls.subrange(e.last + 1, n) =~= ls.subrange(e.last + 1, n - 1) + seq![ls[k]]);
                    assert(ls.take(e.start) + e.repl + ls.subrange(e.last + 1, n - 1) + seq![ls[k]]
                        =~= ls.take(e.start) + e.repl + ls.subrange(e.last + 1, n));
                }
            }
        }
    }
}

/// An edit from line `k` to line `m` (counted from 0), through the anchors
/// that `render_hashlines` shows for them: `replace` puts the content's
/// lines in place of lines `k..=m` and `delete` removes them, every other
/// line staying in order; an insert given an end anchor is refused, and so
/// is an end anchor before the start.
pub proof fn lemma_range_edit(source: Seq<char>, k: int, m: int, op: EditOp)
    requires
        0 <= k < lines_spec(source).len(),
        0 <= m < lines_spec(source).len(),
        m + 1 <= usize::MAX,
        k + 1 <= usize::MAX,
        op.start_at@ == decimal((k + 1) as nat).push(':') + line_hash(lines_spec(source)[k]),
        op.end_at@ == decimal((m + 1) as nat).push(':') + line_hash(lines_spec(source)[m]),
    ensures
        ({
            let ls = lines_spec(source);
            let c = lines_spec(op.content@);
            &&& m < k ==> resolve_all(ls, seq![op]) == Err::<Seq<SpecEdit>, (int, OpFault)>(
                (0, OpFault::EndBeforeStart),
            )
            &&& (k <= m && op.action@ == "replace"@) ==> (resolve_all(ls, seq![op]) matches Ok(es)
                && disjoint(es) && edited_lines(ls, es) == ls.take(k) + c + ls.skip(m + 1))
            &&& (k <= m && op.action@ == "delete"@) ==> (resolve_all(ls, seq![op]) matches Ok(es)
                && disjoint(es) && edited_lines(ls, es) == ls.take(k) + ls.skip(m + 1))
            &&& (k <= m && (op.action@ == "insert_before"@ || op.action@ == "insert_after"@))
                ==> resolve_all(ls, seq![op]) == Err::<Seq<SpecEdit>, (int, OpFault)>(
                (0, OpFault::InsertWithEnd),
            )
        }),
{
    let ls = lines_spec(source);
    let c = lines_spec(op.content@);
    lemma_rendered_anchor_accepted(ls, k);
    lemma_rendered_anchor_accepted(ls, m);
    lemma_action_names_differ();
    assert(op.end_at@.len() > 0) by {
        lemma_decimal_digits((m + 1) as nat);
    }
    if m < k {
        assert(resolve_end(ls, op, (k + 1) as nat) == Err::<Option<nat>, OpFault>(OpFault::EndBeforeStart));
    } else {
        assert(resolve_end(ls, op, (k + 1) as nat) == Ok::<Option<nat>, OpFault>(Some((m + 1) as nat)));
    }
    reveal(resolve_spec);
    lemma_resolve_one(ls, op);
    if k <= m && (op.action@ == "replace"@ || op.action@ == "delete"@) {
        let e = resolve_spec(ls, op)->Ok_0;
        assert(e.start == k && e.last == m && e.mode == InsertMode::Replace);
        assert(disjoint(seq![e]));
        lemma_range_edit_prefix(ls, e, ls.len() as int);
        if m + 1 < ls.len() {
            assert(ls.subrange(m + 1, ls.len() as int) =~= ls.skip(m + 1));
        } else {
            assert(ls.skip(m + 1) =~= Seq::<Seq<char>>::empty());
            assert(ls.take(k) + e.repl + Seq::<Seq<char>>::empty() =~= ls.take(k) + e.repl);
        }
        if op.action@ == "delete"@ {
            assert(ls.take(k) + Seq::<Seq<char>>::empty() + ls.skip(m + 1) =~= ls.take(k) + ls.skip(m + 1));
        }
    }
}

} // verus!
