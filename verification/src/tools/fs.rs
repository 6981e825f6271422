//! The file tools' decisions: windows into a file, line ranges, anchors for a
//! byte window, and the messages the tools answer with.
use vstd::prelude::*;
use crate::text::{
    chars_of, push_decimal, decimal, split_on, split_chars, utf8_len,
    char_utf8_len, lemma_utf8_len_append, join_with, string_of, push_chars, utf8_text, byte_range,
    slice_range,
};
use crate::tools::ToolFailure;

verus! {

broadcast use vstd::string::group_string_axioms;

/// Arguments of `read_file`: a byte window into the file.
#[derive(Clone, Debug)]
pub struct ReadFileArgs {
    pub path: String,
    pub offset: Option<usize>,
    pub limit: Option<usize>,
}

/// Arguments of `read_hash_anchors`: a byte window whose lines are shown.
#[derive(Clone, Debug)]
pub struct ReadHashAnchorsArgs {
    pub path: String,
    pub offset: Option<usize>,
    pub limit: Option<usize>,
}

/// Arguments of `read_lines`: a 1-based, inclusive line range.
#[derive(Clone, Debug)]
pub struct ReadLinesArgs {
    pub path: String,
    pub start_line: usize,
    pub end_line: usize,
}

/// The largest file the reading tools accept, in bytes.
pub const MAX_READ_BYTES: u64 = 1048576;

/// The message for a file over the size limit.
pub open spec fn too_large_message(path: Seq<char>, len: nat) -> Seq<char> {
    "file "@ + path + " exceeds size limit ("@ + decimal(len) + " > "@ + decimal(
        MAX_READ_BYTES as nat,
    ) + " bytes)"@
}

/// Refuses a file over the size limit.
pub fn check_size(path: &str, len: u64) -> (r: Result<(), ToolFailure>)
    ensures
        match r {
            Ok(_) => len <= MAX_READ_BYTES,
            Err(f) => len > MAX_READ_BYTES && f.message@ == too_large_message(path@, len as nat),
        },
{
    if len > MAX_READ_BYTES {
        let mut m = String::new();
        m.append("file ");
        m.append(path);
        m.append(" exceeds size limit (");
        push_decimal(&mut m, len);
        m.append(" > ");
        push_decimal(&mut m, MAX_READ_BYTES);
        m.append(" bytes)");
        return Err(ToolFailure { message: m });
    }
    Ok(())
}

/// The window `[start, end)` of a file of `total` bytes: the offset (0 when
/// none) and the limit (the rest when none), both cut to the file.
pub open spec fn window_of(total: nat, offset: Option<usize>, limit: Option<usize>) -> (nat, nat) {
    let o = match offset {
        Some(x) => if x < total { x as nat } else { total },
        None => 0,
    };
    let rest = (total - o) as nat;
    let l = match limit {
        Some(x) => if x < rest { x as nat } else { rest },
        None => rest,
    };
    (o, o + l)
}

/// The byte window of a file.
pub fn byte_window(total: usize, offset: Option<usize>, limit: Option<usize>) -> (r: (usize, usize))
    ensures
        r.0 <= r.1 <= total,
        (r.0 as nat, r.1 as nat) == window_of(total as nat, offset, limit),
{
    let o = match offset {
        Some(x) => if x < total { x } else { total },
        None => 0,
    };
    let rest = total - o;
    let l = match limit {
        Some(x) => if x < rest { x } else { rest },
        None => rest,
    };
    (o, o + l)
}

/// What `String::from_utf8_lossy` makes of `bytes`.
pub uninterp spec fn lossy_text(bytes: Seq<u8>) -> Seq<char>;

/// `String::from_utf8_lossy(bytes)`: the text of the bytes, with each
/// invalid sequence replaced by U+FFFD. Claimed: the result is a function
/// of the bytes, and it is their text when they are valid UTF-8.
#[verifier::external_body]
pub(crate) fn utf8_lossy(bytes: &[u8]) -> (r: String)
    ensures
        r@ == lossy_text(bytes@),
        vstd::utf8::valid_utf8(bytes@) ==> r@ == vstd::utf8::decode_utf8(bytes@),
{
    String::from_utf8_lossy(bytes).into_owned()
}

/// The text `read_file` answers with: the bytes of the window, decoded
/// leniently.
pub fn read_window(bytes: &[u8], offset: Option<usize>, limit: Option<usize>) -> (r: String)
    ensures
        ({
            let w = window_of(bytes@.len(), offset, limit);
            r@ == lossy_text(bytes@.subrange(w.0 as int, w.1 as int))
        }),
{
    let (a, b) = byte_window(bytes.len(), offset, limit);
    let slice = byte_range(bytes, a, b);
    utf8_lossy(slice.as_slice())
}

// ---------------------------------------------------------------------------
// Line ranges

/// Why a line range is refused before the file is read.
pub open spec fn line_args_fault(start: usize, end: usize) -> Option<Seq<char>> {
    if start == 0 {
        Some("start_line must be >= 1"@)
    } else if end < start {
        Some("end_line must be >= start_line"@)
    } else {
        None
    }
}

/// Checks a line range before the file is read.
pub fn check_line_args(start_line: usize, end_line: usize) -> (r: Result<(), ToolFailure>)
    ensures
        match r {
            Ok(_) => line_args_fault(start_line, end_line) is None,
            Err(f) => line_args_fault(start_line, end_line) == Some(f.message@),
        },
{
    if start_line == 0 {
        return Err(ToolFailure { message: "start_line must be >= 1".to_string() });
    }
    if end_line < start_line {
        return Err(ToolFailure { message: "end_line must be >= start_line".to_string() });
    }
    Ok(())
}

/// `str::split_inclusive('\n')`: the lines of a text, each with its newline;
/// a final piece without one only when it is not empty.
pub open spec fn inclusive_lines(s: Seq<char>) -> Seq<Seq<char>> {
    let parts = split_on(s, '\n');
    let ended = parts.take(parts.len() - 1).map_values(|p: Seq<char>| p.push('\n'));
    if parts.last().len() == 0 {
        ended
    } else {
        ended.push(parts.last())
    }
}

/// The text of lines `start..=end` (1-based) of a file, or why there is none.
pub open spec fn line_range_text(s: Seq<char>, start: int, end: int) -> Result<Seq<char>, Seq<char>> {
    let ls = inclusive_lines(s);
    if end > ls.len() {
        Err("line range "@ + decimal(start as nat) + seq!['-'] + decimal(end as nat)
            + " is outside file with "@ + decimal(ls.len()) + " lines"@)
    } else {
        Ok(join_with(ls.subrange(start - 1, end), Seq::empty()))
    }
}

/// The lines `start_line..=end_line` of a text, with their newlines.
pub fn select_lines(source: &str, start_line: usize, end_line: usize) -> (r: Result<String, ToolFailure>)
    requires
        1 <= start_line <= end_line,
    ensures
        match r {
            Ok(t) => line_range_text(source@, start_line as int, end_line as int) == Ok::<
                Seq<char>,
                Seq<char>,
            >(t@),
            Err(f) => line_range_text(source@, start_line as int, end_line as int) == Err::<
                Seq<char>,
                Seq<char>,
            >(f.message@),
        },
{
    let v = chars_of(source);
    let parts = split_chars(v.as_slice(), '\n');
    let ghost ps = split_on(source@, '\n');
    proof {
        crate::text::lemma_split_on_nonempty(source@, '\n');
    }
    let np = parts.len();
    let last_empty = parts[np - 1].len() == 0;
    let n: usize = if last_empty { np - 1 } else { np };
    let ghost ls = inclusive_lines(source@);
    assert(ls.len() == n);
    assert forall|k: int| 0 <= k < n implies #[trigger] ls[k] == (if k + 1 < np {
        ps[k].push('\n')
    } else {
        ps[k]
    }) by {
        if k + 1 < np {
            assert(ps.take(np - 1)[k] == ps[k]);
        }
    }
    if end_line > n {
        let mut m = String::new();
        m.append("line range ");
        push_decimal(&mut m, start_line as u64);
        m.append("-");
        push_decimal(&mut m, end_line as u64);
        m.append(" is outside file with ");
        push_decimal(&mut m, n as u64);
        m.append(" lines");
        proof {
            reveal_strlit("-");
            assert("-"@ =~= seq!['-']);
        }
        return Err(ToolFailure { message: m });
    }
    let mut out = String::new();
    let mut i: usize = start_line - 1;
    let ghost sel = ls.subrange(start_line - 1, end_line as int);
    proof {
        assert(sel.take(0) =~= Seq::<Seq<char>>::empty());
    }
    while i < end_line
        invariant
            1 <= start_line,
            start_line - 1 <= i <= end_line <= n,
            n <= np,
            forall|k: int| 0 <= k < n ==> #[trigger] ls[k] == (if k + 1 < np {
                ps[k].push('\n')
            } else {
                ps[k]
            }),
            n == ls.len(),
            np == ps.len(),
            parts@.len() == np,
            forall|k: int| 0 <= k < np ==> #[trigger] parts@[k]@ == ps[k],
            ps == split_on(source@, '\n'),
            ls == inclusive_lines(source@),
            sel == ls.subrange(start_line - 1, end_line as int),
            out@ == join_with(sel.take(i - (start_line - 1)), Seq::empty()),
        decreases end_line - i,
    {
        let ghost k = i - (start_line - 1);
        proof {
            assert(sel.take(k + 1).drop_last() =~= sel.take(k));
            assert(sel[k] == ls[i as int]);
            if k == 0 {
                assert(sel.take(1) =~= seq![sel[0]]);
            }
        }
        push_chars(&mut out, parts[i].as_slice());
        if i + 1 < np {
            crate::text::string_push(&mut out, '\n');
        }
        proof {
            if k > 0 {
                assert(out@ =~= join_with(sel.take(k), Seq::empty()) + Seq::empty() + ls[i as int]);
            }
        }
        i += 1;
    }
    proof {
        assert(sel.take(end_line - (start_line - 1)) =~= sel);
    }
    Ok(out)
}

// ---------------------------------------------------------------------------
// Anchors of a byte window

/// Walks the lines of a text (without their newlines) counting each as its
/// bytes plus one: the byte where the next line starts, and the first and
/// last (1-based) lines that overlap the window `[lo, hi)`.
pub open spec fn overlap_fold(ls: Seq<Seq<char>>, lo: int, hi: int, k: int) -> (int, Option<int>, Option<int>)
    decreases k,
{
    if k <= 0 {
        (0, None, None)
    } else {
        let prev = overlap_fold(ls, lo, hi, k - 1);
        let cur = prev.0;
        let next = cur + utf8_len(ls[k - 1]) + 1;
        if cur < hi && next > lo {
            (next, if prev.1 is None { Some(k) } else { prev.1 }, Some(k))
        } else {
            (next, prev.1, prev.2)
        }
    }
}

/// The first and last lines of a text that overlap the byte window
/// `[lo, hi)`, each line counted with one byte for its newline.
pub open spec fn window_lines(s: Seq<char>, lo: int, hi: int) -> (Option<int>, Option<int>) {
    let ls = split_on(s, '\n');
    let r = overlap_fold(ls, lo, hi, ls.len() as int);
    (r.1, r.2)
}

/// The bytes the line walk counts for a whole text.
pub open spec fn walked_bytes(s: Seq<char>) -> int {
    overlap_fold(split_on(s, '\n'), 0, 0, split_on(s, '\n').len() as int).0
}

proof fn lemma_fold_position(ls: Seq<Seq<char>>, lo: int, hi: int, lo2: int, hi2: int, k: int)
    ensures
        overlap_fold(ls, lo, hi, k).0 == overlap_fold(ls, lo2, hi2, k).0,
        overlap_fold(ls, lo, hi, k).0 >= 0,
    decreases k,
{
    if k > 0 {
        lemma_fold_position(ls, lo, hi, lo2, hi2, k - 1);
    }
}

proof fn lemma_fold_monotone(ls: Seq<Seq<char>>, lo: int, hi: int, j: int, k: int)
    requires
        0 <= j <= k,
    ensures
        overlap_fold(ls, lo, hi, j).0 <= overlap_fold(ls, lo, hi, k).0,
    decreases k - j,
{
    if j < k {
        lemma_fold_monotone(ls, lo, hi, j, k - 1);
    }
}

/// The UTF-8 length of a character vector.
fn utf8_count(v: &[char], bound: usize) -> (n: usize)
    requires
        utf8_len(v@) <= bound,
    ensures
        n == utf8_len(v@),
{
    let mut acc: usize = 0;
    let mut i: usize = 0;
    while i < v.len()
        invariant
            i <= v@.len(),
            acc == utf8_len(v@.take(i as int)),
            utf8_len(v@) <= bound,
        decreases v.len() - i,
    {
        let c = v[i];
        let u = c as u32;
        let w: usize = if u <= 0x7F {
            1
        } else if u <= 0x7FF {
            2
        } else if u <= 0xFFFF {
            3
        } else {
            4
        };
        proof {
            assert(v@.take(i + 1) =~= v@.take(i as int) + seq![c]);
            lemma_utf8_len_append(v@.take(i as int), seq![c]);
            assert(seq![c].drop_first() =~= Seq::<char>::empty());
            assert(seq![c][0] == c);
            assert(utf8_len(Seq::<char>::empty()) == 0);
            assert(utf8_len(seq![c]) == char_utf8_len(c));
            assert(v@ =~= v@.take(i + 1) + v@.skip(i + 1));
            lemma_utf8_len_append(v@.take(i + 1), v@.skip(i + 1));
        }
        assert(w == char_utf8_len(c));
        acc = acc + w;
        i += 1;
    }
    proof {
        assert(v@.take(v@.len() as int) =~= v@);
    }
    acc
}

/// The first and last lines (1-based) that the byte window of
/// `read_hash_anchors` covers: the window is cut to `total` bytes, and each
/// line of the text counts its bytes and one for its newline.
pub fn anchor_lines(source: &str, total: usize, offset: Option<usize>, limit: Option<usize>) -> (r: (
    Option<usize>,
    Option<usize>,
))
    requires
        walked_bytes(source@) <= usize::MAX,
    ensures
        ({
            let w = window_of(total as nat, offset, limit);
            let e = window_lines(source@, w.0 as int, w.1 as int);
            &&& (r.0 matches Some(a) ==> e.0 == Some(a as int))
            &&& (r.0 is None ==> e.0 is None)
            &&& (r.1 matches Some(b) ==> e.1 == Some(b as int))
            &&& (r.1 is None ==> e.1 is None)
        }),
{
    let (lo, hi) = byte_window(total, offset, limit);
    let v = chars_of(source);
    let parts = split_chars(v.as_slice(), '\n');
    let ghost ps = split_on(source@, '\n');
    let mut cur: usize = 0;
    let mut first: Option<usize> = None;
    let mut last: Option<usize> = None;
    let mut i: usize = 0;
    while i < parts.len()
        invariant
            i <= parts@.len(),
            parts@.len() == ps.len(),
            forall|k: int| 0 <= k < ps.len() ==> #[trigger] parts@[k]@ == ps[k],
            ps == split_on(source@, '\n'),
            walked_bytes(source@) <= usize::MAX,
            ({
                let f = overlap_fold(ps, lo as int, hi as int, i as int);
                &&& cur == f.0
                &&& (first matches Some(a) ==> f.1 == Some(a as int))
                &&& (first is None ==> f.1 is None)
                &&& (last matches Some(b) ==> f.2 == Some(b as int))
                &&& (last is None ==> f.2 is None)
            }),
        decreases parts.len() - i,
    {
        proof {
            lemma_fold_position(ps, lo as int, hi as int, 0, 0, i + 1);
            lemma_fold_monotone(ps, 0, 0, i + 1, ps.len() as int);
            lemma_fold_position(ps, lo as int, hi as int, 0, 0, i as int);
        }
        let w = utf8_count(parts[i].as_slice(), usize::MAX);
        let next = cur + w + 1;
        if cur < hi && next > lo {
            if first.is_none() {
                first = Some(i + 1);
            }
            last = Some(i + 1);
        }
        cur = next;
        i += 1;
    }
    (first, last)
}

// ---------------------------------------------------------------------------
// Messages

/// The answer after a file is written.
pub fn wrote_message(bytes: usize, path: &str) -> (r: String)
    ensures
        r@ == "Wrote "@ + decimal(bytes as nat) + " bytes to "@ + path@,
{
    let mut m = String::new();
    m.append("Wrote ");
    push_decimal(&mut m, bytes as u64);
    m.append(" bytes to ");
    m.append(path);
    m
}

/// The answer after text is appended to a file.
pub fn appended_message(bytes: usize, path: &str) -> (r: String)
    ensures
        r@ == "Appended "@ + decimal(bytes as nat) + " bytes to "@ + path@,
{
    let mut m = String::new();
    m.append("Appended ");
    push_decimal(&mut m, bytes as u64);
    m.append(" bytes to ");
    m.append(path);
    m
}

/// The answer after anchored edits are applied.
pub fn applied_message(edits: usize, path: &str) -> (r: String)
    ensures
        r@ == "Applied "@ + decimal(edits as nat) + " edits to "@ + path@,
{
    let mut m = String::new();
    m.append("Applied ");
    push_decimal(&mut m, edits as u64);
    m.append(" edits to ");
    m.append(path);
    m
}

/// Refuses to replace an existing file unless asked to.
pub fn check_overwrite(path: &str, exists: bool, overwrite_existing: bool) -> (r: Result<(), ToolFailure>)
    ensures
        r is Err <==> exists && !overwrite_existing,
        r matches Err(f) ==> f.message@ == "file "@ + path@
            + " already exists; use apply_anchor_edits for anchored edits or set overwrite_existing=true for intentional full-file replacement"@,
{
    if exists && !overwrite_existing {
        let mut m = String::new();
        m.append("file ");
        m.append(path);
        m.append(" already exists; use apply_anchor_edits for anchored edits or set overwrite_existing=true for intentional full-file replacement",
        );
        return Err(ToolFailure { message: m });
    }
    Ok(())
}

/// Refuses an edit call without operations.
pub fn check_ops(count: usize) -> (r: Result<(), ToolFailure>)
    ensures
        r is Err <==> count == 0,
        r matches Err(f) ==> f.message@ == "ops array is required"@,
{
    if count == 0 {
        return Err(ToolFailure { message: "ops array is required".to_string() });
    }
    Ok(())
}

// ---------------------------------------------------------------------------
// Diff previews

/// The most characters a diff preview shows.
pub const PREVIEW_DIFF_MAX_CHARS: usize = 10000;

/// The line that ends a cut preview.
pub open spec fn truncated_marker() -> Seq<char> {
    "\n... preview truncated to stay under the tool output cap ...\n"@
}

/// A preview cut to the limit: its first characters and the marker, so
/// that the whole stays within the limit.
pub open spec fn truncated_preview(p: Seq<char>) -> Seq<char> {
    if p.len() <= PREVIEW_DIFF_MAX_CHARS {
        p
    } else {
        p.take(PREVIEW_DIFF_MAX_CHARS - truncated_marker().len()) + truncated_marker()
    }
}

/// Cuts a diff preview to the limit.
pub fn truncate_preview(preview: String) -> (r: String)
    ensures
        r@ == truncated_preview(preview@),
        r@.len() <= PREVIEW_DIFF_MAX_CHARS || r@ == preview@,
{
    let marker = "\n... preview truncated to stay under the tool output cap ...\n";
    proof {
        reveal_strlit("\n... preview truncated to stay under the tool output cap ...\n");
    }
    let v = chars_of(preview.as_str());
    if v.len() <= PREVIEW_DIFF_MAX_CHARS {
        return preview;
    }
    let m = chars_of(marker);
    let body = PREVIEW_DIFF_MAX_CHARS - m.len();
    let mut out = string_of(slice_range(v.as_slice(), 0, body).as_slice());
    out.append(marker);
    proof {
        assert(v@.subrange(0, body as int) =~= v@.take(body as int));
    }
    out
}

/// The answer when anchored edits change nothing.
pub fn no_changes_message(path: &str) -> (r: String)
    ensures
        r@ == "No changes to "@ + path@ + "\n"@,
{
    let mut m = String::new();
    m.append("No changes to ");
    m.append(path);
    m.append("\n");
    m
}

/// The header of the changed side of a diff preview.
pub fn preview_header(path: &str) -> (r: String)
    ensures
        r@ == path@ + " (preview)"@,
{
    let mut m = String::new();
    m.append(path);
    m.append(" (preview)");
    m
}

/// Names what `similar` renders for the line diff of `before` and `after`:
/// `TextDiff::from_lines(before, after).unified_diff()` with the given
/// context radius and headers, as text.
pub uninterp spec fn unified_diff(
    before: Seq<char>,
    after: Seq<char>,
    radius: nat,
    old_header: Seq<char>,
    new_header: Seq<char>,
) -> Seq<char>;

/// `TextDiff::from_lines(before, after).unified_diff()` with
/// `context_radius(radius)` and `header(old_header, new_header)`, rendered
/// to a string. The diff has no deadline, so its result depends on the
/// arguments alone; the contract names it.
#[verifier::external_body]
fn unified_line_diff(before: &str, after: &str, radius: usize, old_header: &str, new_header: &str) -> (r: String)
    ensures
        r@ == unified_diff(before@, after@, radius as nat, old_header@, new_header@),
{
    similar::TextDiff::from_lines(before, after).unified_diff().context_radius(radius).header(
        old_header,
        new_header,
    ).to_string()
}

/// The lines of context a diff preview shows around a change.
pub const PREVIEW_CONTEXT_RADIUS: usize = 3;

/// The preview of an edit: a note when nothing changed, else the unified
/// line diff with three lines of context, the changed side headed as a
/// preview, cut to the limit.
pub open spec fn compact_diff(path: Seq<char>, before: Seq<char>, after: Seq<char>) -> Seq<char> {
    if before == after {
        "No changes to "@ + path + "\n"@
    } else {
        truncated_preview(
            unified_diff(before, after, PREVIEW_CONTEXT_RADIUS as nat, path, path + " (preview)"@),
        )
    }
}

/// The preview of an edit of the file at `path` from `before` to `after`.
pub fn render_compact_unified_diff(path: &str, before: &str, after: &str) -> (r: String)
    ensures
        r@ == compact_diff(path@, before@, after@),
{
    if crate::text::str_eq(before, after) {
        return no_changes_message(path);
    }
    let header = preview_header(path);
    let diff = unified_line_diff(before, after, PREVIEW_CONTEXT_RADIUS, path, header.as_str());
    truncate_preview(diff)
}

} // verus!
