//! Text search and symbol outlines: their limits, the matches they report,
//! and the entries an outline lists.
use vstd::prelude::*;
use crate::text::{
    chars_of, string_of, slice_range, starts_with, trim, trim_bounds, words,
    words_exec, join_with, join_vecs, char_views, split_on, split_chars, str_eq, occurs_at,
    has_prefix, byte_range,
};
use crate::agent::compact;
use crate::cli::{path_extension, file_extension};
use crate::tools::ToolFailure;
use crate::tools::fs::lossy_text;

verus! {

/// One symbol of a file's outline.
#[derive(Clone, Debug)]
pub struct OutlineEntry {
    pub name: String,
    pub kind: String,
    pub start_line: usize,
    pub end_line: Option<usize>,
    pub signature: String,
}

impl OutlineEntry {
    /// The last line of the symbol: its end line, or its start line when it
    /// has none.
    pub open spec fn last_line(&self) -> usize {
        match self.end_line {
            Some(e) => e,
            None => self.start_line,
        }
    }

    /// Whether the symbol spans `line`.
    pub open spec fn spans(&self, line: usize) -> bool {
        self.start_line <= line && line <= self.last_line()
    }

    /// The number of lines the symbol spans beyond its first.
    pub open spec fn span(&self) -> nat {
        if self.last_line() >= self.start_line {
            (self.last_line() - self.start_line) as nat
        } else {
            0
        }
    }
}

/// The most lines of context shown around a match.
pub const MAX_CONTEXT: usize = 5;
/// The matches reported when no limit is given.
pub const DEFAULT_MAX_MATCHES: usize = 100;
/// The most matches ever reported.
pub const MAX_MATCHES: usize = 500;
/// The largest file searched or outlined, in bytes.
pub const MAX_SEARCH_FILE_BYTES: u64 = 1048576;

/// Whether a search is case-sensitive when it does not say.
pub fn default_true() -> (r: bool)
    ensures
        r,
{
    true
}

/// The context lines and the match limit of a search: context at most
/// five lines; the limit 100 when not given, else at most 500.
pub fn search_limits(context: usize, max_matches: usize) -> (r: (usize, usize))
    ensures
        r.0 == if context < MAX_CONTEXT { context } else { MAX_CONTEXT },
        r.1 == if max_matches == 0 {
            DEFAULT_MAX_MATCHES
        } else if max_matches < MAX_MATCHES {
            max_matches
        } else {
            MAX_MATCHES
        },
{
    let c = if context < MAX_CONTEXT { context } else { MAX_CONTEXT };
    let m = if max_matches == 0 {
        DEFAULT_MAX_MATCHES
    } else if max_matches < MAX_MATCHES {
        max_matches
    } else {
        MAX_MATCHES
    };
    (c, m)
}

/// A match of a text search: where it is and the lines around it.
#[derive(Clone, Debug)]
pub struct TextMatch {
    pub path: String,
    pub line: usize,
    pub column: usize,
    pub text: String,
    pub before: Vec<String>,
    pub after: Vec<String>,
}

/// The strings of a range of lines.
fn line_range(lines: &Vec<String>, lo: usize, hi: usize) -> (r: Vec<String>)
    requires
        lo <= hi <= lines@.len(),
    ensures
        r@ == lines@.subrange(lo as int, hi as int),
{
    let mut r: Vec<String> = Vec::new();
    let mut i = lo;
    while i < hi
        invariant
            lo <= i <= hi <= lines@.len(),
            r@ == lines@.subrange(lo as int, i as int),
        decreases hi - i,
    {
        r.push(lines[i].clone());
        proof {
            assert(lines@.subrange(lo as int, i + 1) =~= lines@.subrange(lo as int, i as int).push(
                lines@[i as int],
            ));
        }
        i += 1;
    }
    r
}

/// The match at line `idx` (from 0), starting at byte `start` of it, with
/// up to `context` lines before and after.
pub open spec fn match_at(path: Seq<char>, lines: Seq<String>, idx: int, start: int, context: int, m: TextMatch) -> bool {
    let lo = if idx >= context { idx - context } else { 0 };
    let hi = if idx + 1 + context < lines.len() { idx + 1 + context } else { lines.len() as int };
    &&& m.path@ == path
    &&& m.line == idx + 1
    &&& m.column == start + 1
    &&& m.text == lines[idx]
    &&& m.before@ == lines.subrange(lo, idx)
    &&& m.after@ == lines.subrange(idx + 1, hi)
}

/// The lines (from 0) among the first `k` where the pattern matches, in
/// order.
pub open spec fn hit_lines(found: Seq<Option<usize>>, k: int) -> Seq<int>
    decreases k,
{
    if k <= 0 {
        Seq::empty()
    } else if found[k - 1] is Some {
        hit_lines(found, k - 1).push(k - 1)
    } else {
        hit_lines(found, k - 1)
    }
}

/// The matching lines among the first `a` begin those among the first `b`.
proof fn lemma_hit_lines_prefix(found: Seq<Option<usize>>, a: int, b: int)
    requires
        0 <= a <= b,
    ensures
        hit_lines(found, a).len() <= hit_lines(found, b).len(),
        hit_lines(found, b).take(hit_lines(found, a).len() as int) == hit_lines(found, a),
    decreases b - a,
{
    if a < b {
        lemma_hit_lines_prefix(found, a, b - 1);
        let ha = hit_lines(found, a);
        let hb1 = hit_lines(found, b - 1);
        if found[b - 1] is Some {
            assert(hb1.push(b - 1).take(ha.len() as int) =~= hb1.take(ha.len() as int));
        }
    } else {
        assert(hit_lines(found, a).take(hit_lines(found, a).len() as int) =~= hit_lines(found, a));
    }
}

// ---------------------------------------------------------------------------
// Regular expressions

/// Whether a character has a meaning in a regular expression
/// (`regex_syntax::is_meta_character`).
pub open spec fn regex_meta(c: char) -> bool {
    ||| c == '\\' || c == '.' || c == '+' || c == '*' || c == '?' || c == '(' || c == ')'
    ||| c == '|' || c == '[' || c == ']' || c == '{' || c == '}' || c == '^' || c == '$'
    ||| c == '#' || c == '&' || c == '-' || c == '~'
}

/// A text with a backslash put before each meta character, so that as a
/// regular expression it matches itself.
pub open spec fn regex_escaped(s: Seq<char>) -> Seq<char>
    decreases s.len(),
{
    if s.len() == 0 {
        Seq::empty()
    } else {
        regex_escaped(s.drop_last()) + if regex_meta(s.last()) {
            seq!['\\', s.last()]
        } else {
            seq![s.last()]
        }
    }
}

/// `regex::escape(pattern)`: each meta character gets a backslash before it,
/// every other character is kept, in order.
#[verifier::external_body]
fn regex_escape(pattern: &str) -> (r: String)
    ensures
        r@ == regex_escaped(pattern@),
{
    regex::escape(pattern)
}

/// Names whether `RegexBuilder::new(pattern).case_insensitive(case_insensitive).build()`
/// succeeds.
pub uninterp spec fn regex_compiles(pattern: Seq<char>, case_insensitive: bool) -> bool;

/// Names where `Regex::find` of the regex built from `pattern` first
/// matches `line`: the byte offset at which the match starts.
pub uninterp spec fn regex_first_match(pattern: Seq<char>, case_insensitive: bool, line: Seq<char>) -> Option<nat>;

/// Where the regex first matches each line, by the named results.
pub open spec fn first_matches(pattern: Seq<char>, case_insensitive: bool, lines: Seq<String>) -> Seq<Option<usize>> {
    Seq::new(
        lines.len(),
        |i: int|
            match regex_first_match(pattern, case_insensitive, lines[i]@) {
                Some(s) => Some(s as usize),
                None => None,
            },
    )
}

/// Builds the regex of `pattern` with `RegexBuilder` (case-insensitive when
/// asked) and runs `Regex::find` on each line, keeping where each match
/// starts. `None` when the regex does not build. A match starts within its
/// line, so its byte offset is at most the line's length in bytes, which a
/// `String` keeps at most `isize::MAX`.
#[verifier::external_body]
fn regex_first_matches(pattern: &str, case_insensitive: bool, lines: &Vec<String>) -> (r: Option<Vec<Option<usize>>>)
    ensures
        match r {
            None => !regex_compiles(pattern@, case_insensitive),
            Some(v) => {
                &&& regex_compiles(pattern@, case_insensitive)
                &&& v@ == first_matches(pattern@, case_insensitive, lines@)
                &&& forall|i: int|
                    0 <= i < v@.len() ==> (#[trigger] v@[i] matches Some(s) ==> s < usize::MAX && s as int
                        <= crate::text::utf8_len(lines@[i]@) && regex_first_match(pattern@, case_insensitive, lines@[i]@)
                        == Some(s as nat))
            },
        },
{
    match regex::RegexBuilder::new(pattern).case_insensitive(case_insensitive).build() {
        Ok(re) => Some(lines.iter().map(|l| re.find(l).map(|m| m.start())).collect()),
        Err(_) => None,
    }
}

/// The regular expression a search runs: the pattern itself when it is a
/// regex, else the pattern escaped to match itself.
pub open spec fn search_regex(pattern: Seq<char>, regex: bool) -> Seq<char> {
    if regex {
        pattern
    } else {
        regex_escaped(pattern)
    }
}

/// The message when a search's regex does not build.
pub open spec fn invalid_pattern_message(p: Seq<char>) -> Seq<char> {
    "invalid regex pattern "@ + crate::text::debug_text(p)
}

/// The regex a search runs, case-insensitive unless `case_sensitive`;
/// refused when it does not build.
pub fn build_matcher(pattern: &str, regex: bool, case_sensitive: bool) -> (r: Result<String, ToolFailure>)
    ensures
        match r {
            Ok(p) => p@ == search_regex(pattern@, regex) && regex_compiles(p@, !case_sensitive),
            Err(f) => !regex_compiles(search_regex(pattern@, regex), !case_sensitive)
                && f.message@ == invalid_pattern_message(search_regex(pattern@, regex)),
        },
{
    let p = if regex {
        pattern.to_string()
    } else {
        regex_escape(pattern)
    };
    let none: Vec<String> = Vec::new();
    match regex_first_matches(p.as_str(), !case_sensitive, &none) {
        Some(_) => Ok(p),
        None => {
            let mut m = String::new();
            m.append("invalid regex pattern ");
            let d = crate::text::debug_str(p.as_str());
            m.append(d.as_str());
            Err(ToolFailure { message: m })
        },
    }
}

/// Searches the lines of one file with the regex `pattern` (as
/// `build_matcher` gives it), adding a match for each line where it matches
/// to `out` until it holds `max_matches`. Returns `false`, and adds nothing,
/// when the regex does not build.
pub fn search_file_lines(
    path: &str,
    lines: &Vec<String>,
    pattern: &str,
    case_sensitive: bool,
    context: usize,
    max_matches: usize,
    out: &mut Vec<TextMatch>,
) -> (r: bool)
    requires
        context <= MAX_CONTEXT,
    ensures
        r == regex_compiles(pattern@, !case_sensitive),
        !r ==> final(out)@ == old(out)@,
        r ==> {
            let found = first_matches(pattern@, !case_sensitive, lines@);
            &&& final(out)@.take(old(out)@.len() as int) == old(out)@
            &&& old(out)@.len() >= max_matches ==> final(out)@ == old(out)@
            &&& old(out)@.len() < max_matches ==> final(out)@.len() - old(out)@.len() == vstd::math::min(
                hit_lines(found, found.len() as int).len() as int,
                max_matches - old(out)@.len(),
            )
            &&& forall|t: int|
                0 <= t < final(out)@.len() - old(out)@.len() ==> {
                    let j = #[trigger] hit_lines(found, found.len() as int)[t];
                    match_at(path@, lines@, j, found[j]->0 as int, context as int, final(out)@[old(out)@.len() + t])
                }
        },
{
    match regex_first_matches(pattern, !case_sensitive, lines) {
        None => false,
        Some(found) => {
            collect_file_matches(path, lines, &found, context, max_matches, out);
            true
        },
    }
}

/// The matches of one file: one for each line where the pattern matches
/// (`found` gives where it first matches the line), in line order, added to
/// `out` until it holds `max_matches` matches.
pub fn collect_file_matches(
    path: &str,
    lines: &Vec<String>,
    found: &Vec<Option<usize>>,
    context: usize,
    max_matches: usize,
    out: &mut Vec<TextMatch>,
)
    requires
        found@.len() == lines@.len(),
        context <= MAX_CONTEXT,
        forall|i: int| 0 <= i < found@.len() ==> (#[trigger] found@[i] matches Some(s) ==> s < usize::MAX),
    ensures
        final(out)@.len() >= old(out)@.len(),
        final(out)@.take(old(out)@.len() as int) == old(out)@,
        old(out)@.len() >= max_matches ==> final(out)@ == old(out)@,
        old(out)@.len() < max_matches ==> final(out)@.len() - old(out)@.len() == vstd::math::min(
            hit_lines(found@, found@.len() as int).len() as int,
            max_matches - old(out)@.len(),
        ),
        forall|t: int|
            0 <= t < final(out)@.len() - old(out)@.len() ==> {
                let j = #[trigger] hit_lines(found@, found@.len() as int)[t];
                match_at(path@, lines@, j, found@[j]->0 as int, context as int, final(out)@[old(out)@.len() + t])
            },
{
    if out.len() >= max_matches {
        return;
    }
    let ghost start_len = out@.len();
    let ghost start = out@;
    let n = lines.len();
    let mut i: usize = 0;
    while i < n
        invariant
            i <= n == lines@.len() == found@.len(),
            context <= MAX_CONTEXT,
            forall|j: int| 0 <= j < found@.len() ==> (#[trigger] found@[j] matches Some(s) ==> s < usize::MAX),
            out@.len() >= start_len,
            start_len == old(out)@.len(),
            start == old(out)@,
            out@.take(start_len as int) == start,
            start_len < max_matches,
            out@.len() < max_matches,
            out@.len() - start_len == hit_lines(found@, i as int).len(),
            forall|t: int|
                0 <= t < out@.len() - start_len ==> {
                    let j = #[trigger] hit_lines(found@, i as int)[t];
                    match_at(path@, lines@, j, found@[j]->0 as int, context as int, out@[start_len + t])
                },
        decreases n - i,
    {
        match found[i] {
            Some(s) => {
                let lo = if i >= context { i - context } else { 0 };
                let hi = if context < n - i - 1 { i + 1 + context } else { n };
                let m = TextMatch {
                    path: path.to_string(),
                    line: i + 1,
                    column: s + 1,
                    text: lines[i].clone(),
                    before: line_range(lines, lo, i),
                    after: line_range(lines, i + 1, hi),
                };
                let ghost gm = m;
                let ghost before = out@;
                let ghost hb = hit_lines(found@, i as int);
                out.push(m);
                proof {
                    assert(match_at(path@, lines@, i as int, s as int, context as int, gm));
                    assert(out@.take(start_len as int) =~= before.take(start_len as int));
                    assert(hit_lines(found@, i + 1) == hb.push(i as int));
                    assert forall|t: int| 0 <= t < out@.len() - start_len implies {
                        let j = #[trigger] hit_lines(found@, i + 1)[t];
                        match_at(path@, lines@, j, found@[j]->0 as int, context as int, out@[start_len + t])
                    } by {
                        if t < hb.len() {
                            assert(hit_lines(found@, i + 1)[t] == hb[t]);
                            assert(out@[start_len + t] == before[start_len + t]);
                        } else {
                            assert(hit_lines(found@, i + 1)[t] == i);
                            assert(out@[start_len + t] == gm);
                        }
                    }
                }
                if out.len() >= max_matches {
                    proof {
                        lemma_hit_lines_prefix(found@, i + 1, n as int);
                        let hn = hit_lines(found@, n as int);
                        let hi1 = hit_lines(found@, i + 1);
                        assert forall|t: int| 0 <= t < out@.len() - start_len implies hn[t] == hi1[t] by {
                            assert(hn.take(hi1.len() as int)[t] == hn[t]);
                        }
                    }
                    return;
                }
            },
            None => {
                proof {
                    assert(hit_lines(found@, i + 1) == hit_lines(found@, i as int));
                }
            },
        }
        i += 1;
    }
}

/// The languages an outline is made for.
#[derive(Clone, Copy, Debug, PartialEq, Eq, Structural)]
pub enum OutlineLanguage {
    Rust,
    Go,
    Python,
}

/// The language of a file by its extension.
pub open spec fn language_of(path: Seq<char>) -> Option<OutlineLanguage> {
    match path_extension(path) {
        Some(e) => if e == "rs"@ {
            Some(OutlineLanguage::Rust)
        } else if e == "go"@ {
            Some(OutlineLanguage::Go)
        } else if e == "py"@ {
            Some(OutlineLanguage::Python)
        } else {
            None
        },
        None => None,
    }
}

impl OutlineLanguage {
    /// The language of a file by its extension; only `.rs`, `.go` and `.py`.
    pub fn from_path(path: &str) -> (r: Result<OutlineLanguage, ToolFailure>)
        ensures
            match r {
                Ok(l) => language_of(path@) == Some(l),
                Err(f) => language_of(path@) is None && f.message@
                    == "outline supports .rs, .go, and .py files only"@,
            },
    {
        match file_extension(path) {
            Some(e) => {
                if str_eq(e.as_str(), "rs") {
                    return Ok(OutlineLanguage::Rust);
                } else if str_eq(e.as_str(), "go") {
                    return Ok(OutlineLanguage::Go);
                } else if str_eq(e.as_str(), "py") {
                    return Ok(OutlineLanguage::Python);
                }
            },
            None => {},
        }
        Err(ToolFailure { message: "outline supports .rs, .go, and .py files only".to_string() })
    }

    /// The language's name.
    pub fn name(&self) -> (r: &'static str)
        ensures
            r@ == match self {
                OutlineLanguage::Rust => "Rust"@,
                OutlineLanguage::Go => "Go"@,
                OutlineLanguage::Python => "Python"@,
            },
    {
        match self {
            OutlineLanguage::Rust => "Rust",
            OutlineLanguage::Go => "Go",
            OutlineLanguage::Python => "Python",
        }
    }
}

/// A line with its whitespace runs collapsed to single spaces.
pub fn compact_signature(line: &str) -> (r: String)
    ensures
        r@ == compact(line@),
{
    let v = chars_of(line);
    let ws = words_exec(v.as_slice());
    proof {
        assert(char_views(ws@) =~= words(line@));
    }
    join_vecs(&ws, " ")
}

/// The kind of outline entry a syntax node of a language makes, by the
/// node's kind, whether it lies in an `impl` (Rust), and the kind of its
/// `type` child (Go).
pub open spec fn entry_kind_of(
    lang: OutlineLanguage,
    kind: Seq<char>,
    in_impl: bool,
    type_kind: Option<Seq<char>>,
) -> Option<Seq<char>> {
    match lang {
        OutlineLanguage::Rust => if kind == "function_item"@ {
            Some(if in_impl { "method"@ } else { "function"@ })
        } else if kind == "struct_item"@ {
            Some("struct"@)
        } else if kind == "enum_item"@ {
            Some("enum"@)
        } else if kind == "trait_item"@ {
            Some("trait"@)
        } else if kind == "mod_item"@ {
            Some("mod"@)
        } else if kind == "impl_item"@ {
            Some("impl"@)
        } else {
            None
        },
        OutlineLanguage::Go => if kind == "function_declaration"@ {
            Some("function"@)
        } else if kind == "method_declaration"@ {
            Some("method"@)
        } else if kind == "type_declaration"@ {
            Some("type"@)
        } else if kind == "type_spec"@ {
            Some(
                if type_kind == Some("struct_type"@) {
                    "struct"@
                } else if type_kind == Some("interface_type"@) {
                    "interface"@
                } else {
                    "type"@
                },
            )
        } else {
            None
        },
        OutlineLanguage::Python => if kind == "function_definition"@ {
            Some("function"@)
        } else if kind == "class_definition"@ {
            Some("class"@)
        } else {
            None
        },
    }
}

/// The kind of outline entry a syntax node makes.
pub fn entry_kind(lang: OutlineLanguage, kind: &str, in_impl: bool, type_kind: Option<&str>) -> (r: Option<
    &'static str,
>)
    ensures
        match r {
            Some(k) => entry_kind_of(
                lang,
                kind@,
                in_impl,
                match type_kind {
                    Some(t) => Some(t@),
                    None => None,
                },
            ) == Some(k@),
            None => entry_kind_of(
                lang,
                kind@,
                in_impl,
                match type_kind {
                    Some(t) => Some(t@),
                    None => None,
                },
            ) is None,
        },
{
    match lang {
        OutlineLanguage::Rust => {
            if str_eq(kind, "function_item") {
                Some(if in_impl { "method" } else { "function" })
            } else if str_eq(kind, "struct_item") {
                Some("struct")
            } else if str_eq(kind, "enum_item") {
                Some("enum")
            } else if str_eq(kind, "trait_item") {
                Some("trait")
            } else if str_eq(kind, "mod_item") {
                Some("mod")
            } else if str_eq(kind, "impl_item") {
                Some("impl")
            } else {
                None
            }
        },
        OutlineLanguage::Go => {
            if str_eq(kind, "function_declaration") {
                Some("function")
            } else if str_eq(kind, "method_declaration") {
                Some("method")
            } else if str_eq(kind, "type_declaration") {
                Some("type")
            } else if str_eq(kind, "type_spec") {
                let k = match type_kind {
                    Some(t) => if str_eq(t, "struct_type") {
                        "struct"
                    } else if str_eq(t, "interface_type") {
                        "interface"
                    } else {
                        "type"
                    },
                    None => "type",
                };
                Some(k)
            } else {
                None
            }
        },
        OutlineLanguage::Python => {
            if str_eq(kind, "function_definition") {
                Some("function")
            } else if str_eq(kind, "class_definition") {
                Some("class")
            } else {
                None
            }
        },
    }
}

/// `s` without all its leading copies of `p`.
pub open spec fn strip_all_prefix(s: Seq<char>, p: Seq<char>) -> Seq<char>
    decreases s.len(),
{
    if p.len() > 0 && starts_with(s, p) {
        strip_all_prefix(s.skip(p.len() as int), p)
    } else {
        s
    }
}

/// The name of a Rust `impl`: its compacted type when it has one; else the
/// compacted head of its text (before `{`, without leading `impl`s,
/// trimmed), or `impl` when that is empty.
pub open spec fn impl_name_of(type_text: Option<Seq<char>>, node_text: Option<Seq<char>>) -> Seq<char> {
    match type_text {
        Some(t) => compact(t),
        None => match node_text {
            Some(n) => {
                let head = split_on(n, '{')[0];
                let c = compact(trim(strip_all_prefix(head, "impl"@)));
                if c.len() == 0 {
                    "impl"@
                } else {
                    c
                }
            },
            None => "impl"@,
        },
    }
}

/// The name of a Rust `impl`.
pub fn rust_impl_name(type_text: Option<&str>, node_text: Option<&str>) -> (r: String)
    ensures
        r@ == impl_name_of(
            match type_text {
                Some(t) => Some(t@),
                None => None,
            },
            match node_text {
                Some(t) => Some(t@),
                None => None,
            },
        ),
{
    proof {
        reveal_strlit("impl");
        assert("impl"@ =~= seq!['i', 'm', 'p', 'l']);
    }
    match type_text {
        Some(t) => compact_signature(t),
        None => match node_text {
            Some(n) => {
                let v = chars_of(n);
                let pieces = split_chars(v.as_slice(), '{');
                proof {
                    crate::text::lemma_split_on_nonempty(v@, '{');
                }
                let head = &pieces[0];
                let mut k: usize = 0;
                proof {
                    assert(head@.skip(0) =~= head@);
                }
                while head.len() - k >= 4 && head[k] == 'i' && head[k + 1] == 'm' && head[k + 2] == 'p'
                    && head[k + 3] == 'l'
                    invariant
                        k <= head@.len(),
                        "impl"@ =~= seq!['i', 'm', 'p', 'l'],
                        strip_all_prefix(head@, "impl"@) == strip_all_prefix(head@.skip(k as int), "impl"@),
                    decreases head.len() - k,
                {
                    proof {
                        let t = head@.skip(k as int);
                        assert(t.subrange(0, 4) =~= seq!['i', 'm', 'p', 'l']);
                        assert(starts_with(t, "impl"@));
                        assert(t.skip(4) =~= head@.skip(k + 4));
                    }
                    k += 4;
                }
                proof {
                    let t = head@.skip(k as int);
                    if starts_with(t, "impl"@) {
                        assert(t[0] == 'i' && t[1] == 'm' && t[2] == 'p' && t[3] == 'l');
                        assert(head@[k as int] == t[0]);
                    }
                }
                let (a, b) = trim_bounds(head.as_slice(), k, head.len());
                proof {
                    assert(head@.subrange(k as int, head@.len() as int) =~= head@.skip(k as int));
                }
                let s = string_of(slice_range(head.as_slice(), a, b).as_slice());
                let c = compact_signature(s.as_str());
                if c.as_str().is_empty() {
                    "impl".to_string()
                } else {
                    c
                }
            },
            None => "impl".to_string(),
        },
    }
}

/// The signature of a node: its first line (from its first byte to the next
/// newline, or to its end), cut to the node, compacted.
pub open spec fn signature_of(source: Seq<u8>, start: int, end: int) -> Seq<char> {
    let rest = source.skip(start);
    let line_end = match byte_index(rest, 10) {
        Some(o) => start + o,
        None => end,
    };
    let cut = if line_end < end { line_end } else { end };
    compact(lossy_text(source.subrange(start, cut)))
}

/// The first position, from `k` on, of byte `b`.
pub open spec fn byte_from(s: Seq<u8>, b: u8, k: int) -> Option<int>
    decreases s.len() - k,
{
    if k < 0 || k >= s.len() {
        None
    } else if s[k] == b {
        Some(k)
    } else {
        byte_from(s, b, k + 1)
    }
}

/// The first position of a byte.
pub open spec fn byte_index(s: Seq<u8>, b: u8) -> Option<int> {
    byte_from(s, b, 0)
}

/// The signature of a syntax node spanning bytes `start..end` of the source.
pub fn node_signature(source: &str, start: usize, end: usize) -> (r: String)
    requires
        start <= end,
        end <= vstd::string::StringSliceAdditionalSpecFns::spec_bytes(source).len(),
    ensures
        r@ == signature_of(vstd::string::StringSliceAdditionalSpecFns::spec_bytes(source), start as int, end as int),
{
    let bytes = source.as_bytes();
    let ghost rest = bytes@.skip(start as int);
    let mut i = start;
    proof {
        assert(rest.len() == bytes@.len() - start);
    }
    while i < bytes.len() && bytes[i] != 10u8
        invariant
            start <= i <= bytes@.len(),
            rest == bytes@.skip(start as int),
            byte_from(rest, 10, 0) == byte_from(rest, 10, i - start),
        decreases bytes.len() - i,
    {
        proof {
            assert(rest[i - start] == bytes@[i as int]);
        }
        i += 1;
    }
    proof {
        if i < bytes@.len() {
            assert(rest[i - start] == bytes@[i as int]);
        }
    }
    let line_end = if i < bytes.len() { i } else { end };
    let cut = if line_end < end { line_end } else { end };
    let slice = byte_range(bytes, start, cut);
    let text = crate::tools::fs::utf8_lossy(slice.as_slice());
    compact_signature(text.as_str())
}

} // verus!
