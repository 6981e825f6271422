//! Git inspection: the arguments the git tools accept, and the parsers of what
//! `git status --porcelain=1 -z`, `git diff` and `git log` print.
use vstd::prelude::*;
use vstd::utf8::{valid_utf8, decode_utf8};
use crate::tools::search::OutlineEntry;
use crate::workspace::{Workspace, tool_path, within, is_abs};
use crate::text::{
    is_blank, trim, is_ws, str_is_blank, string_push, chars_of, push_chars,
    string_of, string_of_range, split_on, split_bytes, lemma_split_on_nonempty, contains, str_contains,
    text_or, utf8_text_or, byte_range, char_string, trim_bounds, slice_range, find, find_in,
    lemma_find_from_facts, occurs_at, matches_at, starts_with, starts_with_str, words, words_exec,
    lead_run, trail_run, trim_start_char, trim_end_char, lead_run_exec, trail_run_exec, parse_uint,
    parse_uint_range, lines_of, lines_chars, split_chars, decimal, push_decimal, upper_of, char_to_upper,
};

verus! {

broadcast use vstd::string::group_string_axioms;

/// The most context lines a diff may ask for.
pub const MAX_GIT_CONTEXT: u32 = 20;

/// The most log entries a request may ask for.
pub const MAX_GIT_LOG_ENTRIES: u32 = 100;

/// The number of context lines a diff uses: the request, capped.
pub fn bounded_context(context: u32) -> (r: u32)
    ensures
        r == if context < MAX_GIT_CONTEXT {
            context
        } else {
            MAX_GIT_CONTEXT
        },
{
    if context < MAX_GIT_CONTEXT {
        context
    } else {
        MAX_GIT_CONTEXT
    }
}

/// The number of log entries a request gets: the request, capped.
pub fn bounded_log_entries(n: u32) -> (r: u32)
    ensures
        r == if n < MAX_GIT_LOG_ENTRIES {
            n
        } else {
            MAX_GIT_LOG_ENTRIES
        },
{
    if n < MAX_GIT_LOG_ENTRIES {
        n
    } else {
        MAX_GIT_LOG_ENTRIES
    }
}

/// Why a git tool refuses its arguments.
#[derive(Clone, Debug)]
pub enum GitError {
    /// A ref argument is blank.
    EmptyRef { name: String },
    /// A ref argument starts with `-`.
    OptionRef { name: String, value: String },
    /// A ref argument holds a NUL, CR or LF.
    ControlRef { name: String },
    /// A path argument is blank.
    EmptyPath,
    /// A path argument is absolute.
    AbsolutePath { path: String },
    /// A path argument leaves the workspace.
    OutsidePath { path: String },
}

/// The mathematical content of a `GitError`.
pub enum GitFault {
    EmptyRef { name: Seq<char> },
    OptionRef { name: Seq<char>, value: Seq<char> },
    ControlRef { name: Seq<char> },
    EmptyPath,
    AbsolutePath { path: Seq<char> },
    OutsidePath { path: Seq<char> },
}

impl GitError {
    pub open spec fn view(&self) -> GitFault {
        match self {
            GitError::EmptyRef { name } => GitFault::EmptyRef { name: name@ },
            GitError::OptionRef { name, value } => GitFault::OptionRef {
                name: name@,
                value: value@,
            },
            GitError::ControlRef { name } => GitFault::ControlRef { name: name@ },
            GitError::EmptyPath => GitFault::EmptyPath,
            GitError::AbsolutePath { path } => GitFault::AbsolutePath { path: path@ },
            GitError::OutsidePath { path } => GitFault::OutsidePath { path: path@ },
        }
    }
}

/// The message that describes a git argument error.
pub open spec fn git_fault_text(f: GitFault) -> Seq<char> {
    match f {
        GitFault::EmptyRef { name } => "git "@ + name + " must be non-empty"@,
        GitFault::OptionRef { name, value } => "git "@ + name
            + " must be a ref or revision, not an option: "@ + value,
        GitFault::ControlRef { name } => "git "@ + name + " contains an invalid control character"@,
        GitFault::EmptyPath => "git path entries must be non-empty"@,
        GitFault::AbsolutePath { path } => "git paths must be relative to the workspace root: "@
            + path,
        GitFault::OutsidePath { path } => "git path is outside workspace: "@ + path,
    }
}

impl GitError {
    /// The message that describes the error.
    pub fn message(&self) -> (r: String)
        ensures
            r@ == git_fault_text(self@),
    {
        let mut out = String::new();
        match self {
            GitError::EmptyRef { name } => {
                out.append("git ");
                out.append(name.as_str());
                out.append(" must be non-empty");
            },
            GitError::OptionRef { name, value } => {
                out.append("git ");
                out.append(name.as_str());
                out.append(" must be a ref or revision, not an option: ");
                out.append(value.as_str());
            },
            GitError::ControlRef { name } => {
                out.append("git ");
                out.append(name.as_str());
                out.append(" contains an invalid control character");
            },
            GitError::EmptyPath => {
                out.append("git path entries must be non-empty");
            },
            GitError::AbsolutePath { path } => {
                out.append("git paths must be relative to the workspace root: ");
                out.append(path.as_str());
            },
            GitError::OutsidePath { path } => {
                out.append("git path is outside workspace: ");
                out.append(path.as_str());
            },
        }
        proof {
            assert(out@ =~= git_fault_text(self@));
        }
        out
    }
}

/// Why a ref argument is refused, if it is.
pub open spec fn ref_fault(name: Seq<char>, value: Seq<char>) -> Option<GitFault> {
    if is_blank(value) {
        Some(GitFault::EmptyRef { name })
    } else if value[0] == '-' {
        Some(GitFault::OptionRef { name, value })
    } else if value.contains('\0') || value.contains('\n') || value.contains('\r') {
        Some(GitFault::ControlRef { name })
    } else {
        None
    }
}

/// Whether `v` holds the character `c`.
fn has_char(v: &[char], c: char) -> (b: bool)
    ensures
        b == v@.contains(c),
{
    let mut i: usize = 0;
    while i < v.len()
        invariant
            i <= v@.len(),
            forall|k: int| 0 <= k < i ==> v@[k] != c,
        decreases v.len() - i,
    {
        if v[i] == c {
            return true;
        }
        i += 1;
    }
    false
}

/// Checks that a ref argument names a ref or revision: not blank, not shaped
/// like an option, and free of NUL, CR and LF.
pub fn validate_git_ref_arg(name: &str, value: &str) -> (r: Result<(), GitError>)
    ensures
        match ref_fault(name@, value@) {
            Some(f) => r matches Err(e) && e@ == f,
            None => r is Ok,
        },
{
    if str_is_blank(value) {
        return Err(GitError::EmptyRef { name: name.to_string() });
    }
    let v = chars_of(value);
    if v[0] == '-' {
        return Err(GitError::OptionRef { name: name.to_string(), value: value.to_string() });
    }
    if has_char(&v, '\0') || has_char(&v, '\n') || has_char(&v, '\r') {
        return Err(GitError::ControlRef { name: name.to_string() });
    }
    Ok(())
}

// ---------------------------------------------------------------------------
// Status codes

/// The single status of an entry of `git status`, from its index and
/// worktree codes: unmerged, renamed, copied and type changes win in that
/// order; otherwise the worktree code decides when it is set, the index code
/// when it is not.
pub open spec fn status_of(x: char, y: char) -> Seq<char> {
    if x == 'U' || y == 'U' {
        "unmerged"@
    } else if x == 'R' || y == 'R' {
        "renamed"@
    } else if x == 'C' || y == 'C' {
        "copied"@
    } else if x == 'T' || y == 'T' {
        "type_changed"@
    } else {
        let c = if y != ' ' {
            y
        } else {
            x
        };
        if c == 'A' {
            "added"@
        } else if c == 'D' {
            "deleted"@
        } else if c == '?' {
            "untracked"@
        } else if c == '!' {
            "ignored"@
        } else {
            "modified"@
        }
    }
}

/// The status of an entry from its two porcelain codes.
pub fn resolve_status(x: char, y: char) -> (r: String)
    ensures
        r@ == status_of(x, y),
{
    if x == 'U' || y == 'U' {
        return "unmerged".to_string();
    }
    if x == 'R' || y == 'R' {
        return "renamed".to_string();
    }
    if x == 'C' || y == 'C' {
        return "copied".to_string();
    }
    if x == 'T' || y == 'T' {
        return "type_changed".to_string();
    }
    let c = if y != ' ' {
        y
    } else {
        x
    };
    if c == 'A' {
        "added".to_string()
    } else if c == 'D' {
        "deleted".to_string()
    } else if c == '?' {
        "untracked".to_string()
    } else if c == '!' {
        "ignored".to_string()
    } else {
        "modified".to_string()
    }
}

/// The word for one side's status code.
pub open spec fn side_word(c: char) -> Seq<char> {
    if c == 'A' {
        "added"@
    } else if c == 'D' {
        "deleted"@
    } else if c == 'R' {
        "renamed"@
    } else if c == 'C' {
        "copied"@
    } else if c == 'U' {
        "unmerged"@
    } else if c == 'T' {
        "type changed"@
    } else if c == '?' {
        "untracked"@
    } else if c == '!' {
        "ignored"@
    } else {
        "modified"@
    }
}

fn side_word_exec(c: char) -> (r: &'static str)
    ensures
        r@ == side_word(c),
{
    if c == 'A' {
        "added"
    } else if c == 'D' {
        "deleted"
    } else if c == 'R' {
        "renamed"
    } else if c == 'C' {
        "copied"
    } else if c == 'U' {
        "unmerged"
    } else if c == 'T' {
        "type changed"
    } else if c == '?' {
        "untracked"
    } else if c == '!' {
        "ignored"
    } else {
        "modified"
    }
}

/// `s` with its first character in uppercase.
pub open spec fn capitalized(s: Seq<char>) -> Seq<char> {
    if s.len() == 0 {
        Seq::empty()
    } else {
        upper_of(s[0]) + s.drop_first()
    }
}

/// `s` with its first character in uppercase.
pub fn capitalize(s: &str) -> (r: String)
    ensures
        r@ == capitalized(s@),
{
    let v = chars_of(s);
    if v.len() == 0 {
        return String::new();
    }
    let mut out = char_to_upper(v[0]);
    let rest = string_of_range(&v, 1, v.len());
    out.append(rest.as_str());
    proof {
        assert(v@.subrange(1, v@.len() as int) == s@.drop_first());
    }
    out
}

/// How an entry's two codes are described.
pub open spec fn state_text(x: char, y: char) -> Seq<char> {
    if x == '?' && y == '?' {
        "Untracked"@
    } else if x == '!' && y == '!' {
        "Ignored"@
    } else if x == ' ' {
        capitalized(side_word(y)) + " in worktree"@
    } else if y == ' ' {
        capitalized(side_word(x)) + " in index"@
    } else {
        capitalized(side_word(x)) + " in index, "@ + side_word(y) + " in worktree"@
    }
}

/// Describes an entry's two codes in words.
pub fn state_description(x: char, y: char) -> (r: String)
    ensures
        r@ == state_text(x, y),
{
    if x == '?' && y == '?' {
        return "Untracked".to_string();
    }
    if x == '!' && y == '!' {
        return "Ignored".to_string();
    }
    let index = side_word_exec(x);
    let worktree = side_word_exec(y);
    if x == ' ' {
        let mut out = capitalize(worktree);
        out.append(" in worktree");
        out
    } else if y == ' ' {
        let mut out = capitalize(index);
        out.append(" in index");
        out
    } else {
        let mut out = capitalize(index);
        out.append(" in index, ");
        out.append(worktree);
        out.append(" in worktree");
        out
    }
}

// ---------------------------------------------------------------------------
// Parsed output

/// One line of a diff hunk.
#[derive(Clone, Debug)]
pub struct GitDiffLine {
    /// `context`, `deletion` or `addition`.
    pub kind: String,
    pub text: String,
    pub old_line: Option<u32>,
    pub new_line: Option<u32>,
}

/// One hunk of a file's diff.
#[derive(Clone, Debug)]
pub struct GitDiffHunk {
    pub old_start: u32,
    pub old_lines: u32,
    pub new_start: u32,
    pub new_lines: u32,
    pub header: String,
    pub lines: Vec<GitDiffLine>,
}

/// The diff of one file.
#[derive(Clone, Debug)]
pub struct GitDiffDelta {
    pub path: String,
    pub old_path: String,
    pub change_type: String,
    pub is_binary: bool,
    pub old_mode: Option<String>,
    pub new_mode: Option<String>,
    pub similarity: Option<u32>,
    pub insertions: Option<usize>,
    pub deletions: Option<usize>,
    pub hunks: Option<Vec<GitDiffHunk>>,
}

/// A symbol of a file together with the changed lines inside it.
#[derive(Clone, Debug)]
pub struct ChangedSymbol {
    pub name: String,
    pub kind: String,
    pub start_line: usize,
    pub end_line: Option<usize>,
    pub signature: String,
    pub changed_ranges: Vec<[usize; 2]>,
    pub changed_line_count: usize,
}

/// One entry of `git status`.
#[derive(Clone, Debug)]
pub struct GitStatusEntry {
    pub path: String,
    pub old_path: Option<String>,
    pub status: String,
    pub staged: bool,
    pub worktree: bool,
    pub index_char: String,
    pub worktree_char: String,
    pub display: String,
    pub state_description: String,
    pub diff: Option<GitDiffDelta>,
    pub staged_diff: Option<GitDiffDelta>,
    pub symbols: Option<Vec<ChangedSymbol>>,
}

/// The text of an optional string.
pub open spec fn opt_text(o: Option<String>) -> Option<Seq<char>> {
    match o {
        Some(s) => Some(s@),
        None => None,
    }
}

/// The mathematical content of a status entry's own fields.
pub struct StatusView {
    pub path: Seq<char>,
    pub old_path: Option<Seq<char>>,
    pub status: Seq<char>,
    pub staged: bool,
    pub worktree: bool,
    pub index_char: Seq<char>,
    pub worktree_char: Seq<char>,
    pub display: Seq<char>,
    pub state_description: Seq<char>,
}

impl GitStatusEntry {
    pub open spec fn view(&self) -> StatusView {
        StatusView {
            path: self.path@,
            old_path: opt_text(self.old_path),
            status: self.status@,
            staged: self.staged,
            worktree: self.worktree,
            index_char: self.index_char@,
            worktree_char: self.worktree_char@,
            display: self.display@,
            state_description: self.state_description@,
        }
    }

    /// Whether no diff and no symbol has been attached yet.
    pub open spec fn bare(&self) -> bool {
        self.diff is None && self.staged_diff is None && self.symbols is None
    }
}

// ---------------------------------------------------------------------------
// `git status --porcelain=1 -z`

/// The character a status byte stands for.
pub open spec fn code_char(b: u8) -> char {
    b as char
}

/// Whether the codes mark a rename or a copy, whose entry is followed by the
/// original path.
pub open spec fn is_rename_pair(x: char, y: char) -> bool {
    x == 'R' || x == 'C' || y == 'R' || y == 'C'
}

/// The entry of a field whose codes are `??` or `!!`.
pub open spec fn marked_entry(f: Seq<u8>, untracked: bool) -> StatusView {
    StatusView {
        path: text_or(f.skip(3), Seq::empty()),
        old_path: None,
        status: if untracked { "untracked"@ } else { "ignored"@ },
        staged: false,
        worktree: untracked,
        index_char: if untracked { "?"@ } else { "!"@ },
        worktree_char: if untracked { "?"@ } else { "!"@ },
        display: text_or(f.take(2), "  "@),
        state_description: if untracked { "Untracked"@ } else { "Ignored"@ },
    }
}

/// The entry of any other field, given the original path that follows it.
pub open spec fn coded_entry(f: Seq<u8>, orig: Option<Seq<char>>) -> StatusView {
    let x = code_char(f[0]);
    let y = code_char(f[1]);
    StatusView {
        path: text_or(f.skip(3), Seq::empty()),
        old_path: orig,
        status: status_of(x, y),
        staged: x != ' ' && x != '?' && x != '!',
        worktree: y != ' ' && y != '?' && y != '!',
        index_char: seq![x],
        worktree_char: seq![y],
        display: text_or(f.take(2), "  "@),
        state_description: state_text(x, y),
    }
}

/// The original path that follows the `i`-th field, when its codes mark a
/// rename or a copy.
pub open spec fn orig_after(fields: Seq<Seq<u8>>, i: int) -> Option<Seq<char>> {
    let orig = if i + 1 < fields.len() {
        text_or(fields[i + 1], Seq::empty())
    } else {
        Seq::empty()
    };
    if orig.len() == 0 {
        None
    } else {
        Some(orig)
    }
}

/// Whether the `i`-th field's codes mark a rename or a copy.
pub open spec fn renames(f: Seq<u8>) -> bool {
    let x = code_char(f[0]);
    let y = code_char(f[1]);
    !(x == '?' && y == '?') && !(x == '!' && y == '!') && is_rename_pair(x, y)
}

/// The entry of the `i`-th field (at least three bytes long).
pub open spec fn entry_at(fields: Seq<Seq<u8>>, i: int) -> StatusView {
    let f = fields[i];
    let x = code_char(f[0]);
    let y = code_char(f[1]);
    if x == '?' && y == '?' {
        marked_entry(f, true)
    } else if x == '!' && y == '!' {
        marked_entry(f, false)
    } else if is_rename_pair(x, y) {
        coded_entry(f, orig_after(fields, i))
    } else {
        coded_entry(f, None)
    }
}

/// The field after the `i`-th field's entry.
pub open spec fn next_at(fields: Seq<Seq<u8>>, i: int) -> int {
    if renames(fields[i]) && i + 1 < fields.len() {
        i + 2
    } else {
        i + 1
    }
}

/// The entries of the fields from the `i`-th on, or `None` when one of them
/// is two bytes long, which is too short to hold a path.
pub open spec fn porcelain_from(fields: Seq<Seq<u8>>, i: int) -> Option<Seq<StatusView>>
    decreases fields.len() - i,
{
    if i < 0 || i >= fields.len() {
        Some(Seq::empty())
    } else if fields[i].len() < 2 {
        porcelain_from(fields, i + 1)
    } else if fields[i].len() == 2 {
        None
    } else {
        match porcelain_from(fields, next_at(fields, i)) {
            Some(rest) => Some(seq![entry_at(fields, i)] + rest),
            None => None,
        }
    }
}

/// The entries that `git status --porcelain=1 -z` output lists: one per
/// NUL-separated field, renames and copies taking the next field as their
/// original path.
pub open spec fn porcelain_entries(stdout: Seq<u8>) -> Option<Seq<StatusView>> {
    porcelain_from(split_on(stdout, 0u8), 0)
}

/// The entry of one field.
fn status_entry(f: &Vec<u8>, orig: Option<String>) -> (e: GitStatusEntry)
    requires
        f@.len() > 2,
    ensures
        e.bare(),
        ({
            let x = code_char(f@[0]);
            let y = code_char(f@[1]);
            if x == '?' && y == '?' {
                e@ == marked_entry(f@, true)
            } else if x == '!' && y == '!' {
                e@ == marked_entry(f@, false)
            } else {
                e@ == coded_entry(f@, opt_text(orig))
            }
        }),
{
    proof {
        reveal_strlit("");
        assert(""@ =~= Seq::<char>::empty());
    }
    let head = byte_range(f, 0, 2);
    let tail = byte_range(f, 3, f.len());
    let display = utf8_text_or(&head, "  ");
    let path = utf8_text_or(&tail, "");
    proof {
        assert(head@ == f@.take(2));
        assert(tail@ == f@.skip(3));
    }
    let x = f[0] as char;
    let y = f[1] as char;
    assert(x == code_char(f@[0]));
    assert(y == code_char(f@[1]));
    if x == '?' && y == '?' {
        GitStatusEntry {
            path,
            old_path: None,
            status: "untracked".to_string(),
            staged: false,
            worktree: true,
            index_char: "?".to_string(),
            worktree_char: "?".to_string(),
            display,
            state_description: "Untracked".to_string(),
            diff: None,
            staged_diff: None,
            symbols: None,
        }
    } else if x == '!' && y == '!' {
        GitStatusEntry {
            path,
            old_path: None,
            status: "ignored".to_string(),
            staged: false,
            worktree: false,
            index_char: "!".to_string(),
            worktree_char: "!".to_string(),
            display,
            state_description: "Ignored".to_string(),
            diff: None,
            staged_diff: None,
            symbols: None,
        }
    } else {
        GitStatusEntry {
            path,
            old_path: orig,
            status: resolve_status(x, y),
            staged: x != ' ' && x != '?' && x != '!',
            worktree: y != ' ' && y != '?' && y != '!',
            index_char: char_string(x),
            worktree_char: char_string(y),
            display,
            state_description: state_description(x, y),
            diff: None,
            staged_diff: None,
            symbols: None,
        }
    }
}

/// The views of a list of status entries.
pub open spec fn entry_views(es: Seq<GitStatusEntry>) -> Seq<StatusView> {
    es.map_values(|e: GitStatusEntry| e@)
}

/// Whether `git status --porcelain=1 -z` output can be parsed: no field is
/// two bytes long.
pub fn porcelain_parsable(stdout: &[u8]) -> (b: bool)
    ensures
        b == porcelain_entries(stdout@) is Some,
{
    let fields = split_bytes(stdout, 0u8);
    let ghost fs = split_on(stdout@, 0u8);
    assert(fields@.map_values(|v: Vec<u8>| v@) =~= fs);
    let mut j: usize = 0;
    while j < fields.len()
        invariant
            j <= fields@.len(),
            fs == split_on(stdout@, 0u8),
            fields@.len() == fs.len(),
            forall|k: int| 0 <= k < fields@.len() ==> #[trigger] fields@[k]@ == fs[k],
            porcelain_from(fs, 0) is Some <==> porcelain_from(fs, j as int) is Some,
        decreases fields.len() - j,
    {
        let f = &fields[j];
        if f.len() < 2 {
            j += 1;
        } else if f.len() == 2 {
            assert(f@ == fs[j as int]);
            assert(porcelain_from(fs, j as int) is None);
            return false;
        } else {
            let x = f[0] as char;
            let y = f[1] as char;
            if !(x == '?' && y == '?') && !(x == '!' && y == '!') && (x == 'R' || x == 'C' || y
                == 'R' || y == 'C') && j + 1 < fields.len() {
                j += 2;
            } else {
                j += 1;
            }
        }
    }
    true
}

/// Parses `git status --porcelain=1 -z` output into its entries.
pub fn parse_porcelain_v1_z(stdout: &[u8]) -> (r: Result<Vec<GitStatusEntry>, GitError>)
    requires
        porcelain_entries(stdout@) is Some,
    ensures
        r matches Ok(es) && entry_views(es@) == porcelain_entries(stdout@)->0 && forall|k: int|
            0 <= k < es@.len() ==> (#[trigger] es@[k]).bare(),
{
    let fields = split_bytes(stdout, 0u8);
    let ghost fs = split_on(stdout@, 0u8);
    let mut entries: Vec<GitStatusEntry> = Vec::new();
    let mut i: usize = 0;
    while i < fields.len()
        invariant
            i <= fields@.len(),
            fields@.len() == fs.len(),
            fs == split_on(stdout@, 0u8),
            forall|k: int| 0 <= k < fields@.len() ==> #[trigger] fields@[k]@ == fs[k],
            porcelain_from(fs, i as int) is Some,
            porcelain_from(fs, 0) == Some(entry_views(entries@) + porcelain_from(fs, i as int)->0),
            forall|k: int| 0 <= k < entries@.len() ==> (#[trigger] entries@[k]).bare(),
        decreases fields.len() - i,
    {
        let f = &fields[i];
        let ghost at = i as int;
        assert(f@ == fs[at]);
        if f.len() < 2 {
            i += 1;
        } else {
            assert(f@.len() > 2);
            let x = f[0] as char;
            let y = f[1] as char;
            let ghost before = entries@;
            let ghost rest = porcelain_from(fs, next_at(fs, at))->0;
            assert(porcelain_from(fs, at) == Some(seq![entry_at(fs, at)] + rest));
            if !(x == '?' && y == '?') && !(x == '!' && y == '!') && (x == 'R' || x == 'C' || y
                == 'R' || y == 'C') {
                proof {
                    reveal_strlit("");
                    assert(""@ =~= Seq::<char>::empty());
                }
                let orig = if i + 1 < fields.len() {
                    let o = utf8_text_or(&fields[i + 1], "");
                    assert(fields@[at + 1]@ == fs[at + 1]);
                    i += 2;
                    o
                } else {
                    i += 1;
                    String::new()
                };
                let old = if orig.as_str().is_empty() {
                    None
                } else {
                    Some(orig)
                };
                assert(opt_text(old) == orig_after(fs, at));
                let e = status_entry(f, old);
                entries.push(e);
            } else {
                let e = status_entry(f, None);
                entries.push(e);
                i += 1;
            }
            proof {
                assert(entries@.last()@ == entry_at(fs, at));
                assert(i == next_at(fs, at));
                assert(entry_views(entries@) =~= entry_views(before).push(entries@.last()@));
                assert(entry_views(entries@) + rest =~= entry_views(before) + (seq![entry_at(fs, at)] + rest));
            }
        }
    }
    proof {
        assert(entry_views(entries@) + Seq::<StatusView>::empty() =~= entry_views(entries@));
    }
    Ok(entries)
}

// ---------------------------------------------------------------------------
// `git diff` headers

/// `s` trimmed, without one pair of enclosing double quotes.
pub open spec fn unquoted(s: Seq<char>) -> Seq<char> {
    let t = trim(s);
    if t.len() >= 2 && t[0] == '"' && t.last() == '"' {
        t.subrange(1, t.len() - 1)
    } else {
        t
    }
}

/// `s` trimmed, without one pair of enclosing double quotes.
fn strip_quotes(s: &[char]) -> (r: Vec<char>)
    ensures
        r@ == unquoted(s@),
{
    let (a, b) = trim_bounds(s, 0, s.len());
    assert(s@.subrange(0, s@.len() as int) == s@);
    if b - a >= 2 && s[a] == '"' && s[b - 1] == '"' {
        let r = slice_range(s, a + 1, b - 1);
        proof {
            let t = trim(s@);
            assert(t == s@.subrange(a as int, b as int));
            assert(t[0] == s@[a as int]);
            assert(t.last() == s@[b - 1]);
            assert(r@ =~= t.subrange(1, t.len() - 1));
        }
        r
    } else {
        let r = slice_range(s, a, b);
        proof {
            let t = trim(s@);
            assert(t == s@.subrange(a as int, b as int));
            if t.len() >= 2 {
                assert(t[0] == s@[a as int]);
                assert(t.last() == s@[b - 1]);
            }
        }
        r
    }
}

/// The number of leading `+` and `-` signs.
pub open spec fn sign_run(s: Seq<char>) -> nat
    decreases s.len(),
{
    if s.len() > 0 && (s[0] == '+' || s[0] == '-') {
        1 + sign_run(s.drop_first())
    } else {
        0
    }
}

proof fn lemma_sign_run(s: Seq<char>, i: int)
    requires
        0 <= i <= s.len(),
        forall|k: int| 0 <= k < i ==> s[k] == '+' || s[k] == '-',
        i == s.len() || (s[i] != '+' && s[i] != '-'),
    ensures
        sign_run(s) == i,
    decreases i,
{
    if i > 0 {
        lemma_sign_run(s.drop_first(), i - 1);
    }
}

/// A `u32` read from `s`, or 0 when `s` is not one.
pub open spec fn u32_or_zero(s: Seq<char>) -> u32 {
    match parse_uint(s, u32::MAX as nat) {
        Some(n) => n as u32,
        None => 0,
    }
}

/// A hunk range `start,count` (or `start`, counting one line), after any
/// leading signs.
pub open spec fn range_of(s: Seq<char>) -> (u32, u32) {
    let t = s.skip(sign_run(s) as int);
    match find(t, seq![',']) {
        Some(k) => (u32_or_zero(t.take(k)), u32_or_zero(t.skip(k + 1))),
        None => (u32_or_zero(t), 1),
    }
}

fn u32_or_zero_exec(v: &[char], lo: usize, hi: usize) -> (n: u32)
    requires
        lo <= hi <= v@.len(),
    ensures
        n == u32_or_zero(v@.subrange(lo as int, hi as int)),
{
    match parse_uint_range(v, lo, hi, u32::MAX as u64) {
        Some(n) => n as u32,
        None => 0,
    }
}

/// Reads a hunk range `start,count`.
fn parse_range(s: &[char]) -> (r: (u32, u32))
    ensures
        r == range_of(s@),
{
    let mut i: usize = 0;
    while i < s.len() && (s[i] == '+' || s[i] == '-')
        invariant
            i <= s@.len(),
            forall|k: int| 0 <= k < i ==> s@[k] == '+' || s@[k] == '-',
        decreases s.len() - i,
    {
        i += 1;
    }
    proof {
        lemma_sign_run(s@, i as int);
    }
    let t = slice_range(s, i, s.len());
    assert(t@ == s@.skip(i as int));
    let comma: Vec<char> = vec![','];
    assert(comma@ =~= seq![',']);
    match find_in(&t, &comma) {
        Some(k) => {
            proof {
                lemma_find_from_facts(t@, comma@, 0);
            }
            let a = u32_or_zero_exec(&t, 0, k);
            let b = u32_or_zero_exec(&t, k + 1, t.len());
            assert(t@.subrange(0, k as int) == t@.take(k as int));
            assert(t@.subrange(k + 1, t@.len() as int) == t@.skip(k + 1));
            (a, b)
        },
        None => {
            let a = u32_or_zero_exec(&t, 0, t.len());
            assert(t@.subrange(0, t@.len() as int) == t@);
            (a, 1)
        },
    }
}

/// The mathematical content of a diff line.
pub struct LineV {
    pub kind: Seq<char>,
    pub text: Seq<char>,
    pub old_line: Option<u32>,
    pub new_line: Option<u32>,
}

/// The mathematical content of a hunk.
pub struct HunkV {
    pub old_start: u32,
    pub old_lines: u32,
    pub new_start: u32,
    pub new_lines: u32,
    pub header: Seq<char>,
    pub lines: Seq<LineV>,
}

/// The mathematical content of a file's diff.
pub struct DeltaV {
    pub path: Seq<char>,
    pub old_path: Seq<char>,
    pub change_type: Seq<char>,
    pub is_binary: bool,
    pub old_mode: Option<Seq<char>>,
    pub new_mode: Option<Seq<char>>,
    pub similarity: Option<u32>,
    pub insertions: Option<nat>,
    pub deletions: Option<nat>,
    pub hunks: Option<Seq<HunkV>>,
}

impl GitDiffLine {
    pub open spec fn view(&self) -> LineV {
        LineV { kind: self.kind@, text: self.text@, old_line: self.old_line, new_line: self.new_line }
    }
}

/// The views of diff lines.
pub open spec fn line_views(ls: Seq<GitDiffLine>) -> Seq<LineV> {
    ls.map_values(|l: GitDiffLine| l@)
}

impl GitDiffHunk {
    pub open spec fn view(&self) -> HunkV {
        HunkV {
            old_start: self.old_start,
            old_lines: self.old_lines,
            new_start: self.new_start,
            new_lines: self.new_lines,
            header: self.header@,
            lines: line_views(self.lines@),
        }
    }
}

/// The views of hunks.
pub open spec fn hunk_views(hs: Seq<GitDiffHunk>) -> Seq<HunkV> {
    hs.map_values(|h: GitDiffHunk| h@)
}

/// The count in an optional counter.
pub open spec fn opt_count(o: Option<usize>) -> Option<nat> {
    match o {
        Some(n) => Some(n as nat),
        None => None,
    }
}

impl GitDiffDelta {
    pub open spec fn view(&self) -> DeltaV {
        DeltaV {
            path: self.path@,
            old_path: self.old_path@,
            change_type: self.change_type@,
            is_binary: self.is_binary,
            old_mode: opt_text(self.old_mode),
            new_mode: opt_text(self.new_mode),
            similarity: self.similarity,
            insertions: opt_count(self.insertions),
            deletions: opt_count(self.deletions),
            hunks: match self.hunks {
                Some(hs) => Some(hunk_views(hs@)),
                None => None,
            },
        }
    }
}

/// The header of a hunk: `@@ -a,b +c,d @@ ...` and its two ranges.
pub open spec fn hunk_header(line: Seq<char>) -> Option<HunkV> {
    let t1 = trim_start_char(line, '@');
    let t2 = trim_start_char(t1, ' ');
    let t3 = trim_end_char(t2, '@');
    let t4 = trim_end_char(t3, ' ');
    let ws = words(trim(t4));
    if ws.len() < 2 {
        None
    } else {
        let (os, ol) = range_of(ws[0]);
        let (ns, nl) = range_of(ws[1]);
        Some(
            HunkV {
                old_start: os,
                old_lines: ol,
                new_start: ns,
                new_lines: nl,
                header: line,
                lines: Seq::empty(),
            },
        )
    }
}

/// Reads the header of a hunk: `@@ -start[,lines] +start[,lines] @@`.
pub fn parse_hunk_header(line: &str) -> (r: Option<GitDiffHunk>)
    ensures
        match hunk_header(line@) {
            Some(h) => r matches Some(x) && x@ == h,
            None => r is None,
        },
{
    let v = chars_of(line);
    parse_hunk_header_chars(v.as_slice())
}

/// Reads the header of a hunk, given as characters.
pub fn parse_hunk_header_chars(line: &[char]) -> (r: Option<GitDiffHunk>)
    ensures
        match hunk_header(line@) {
            Some(h) => r matches Some(x) && x@ == h,
            None => r is None,
        },
{
    let a = lead_run_exec(line, '@');
    let t1 = slice_range(line, a, line.len());
    let b = lead_run_exec(&t1, ' ');
    let t2 = slice_range(&t1, b, t1.len());
    let c = trail_run_exec(&t2, '@');
    let t3 = slice_range(&t2, 0, t2.len() - c);
    let d = trail_run_exec(&t3, ' ');
    let t4 = slice_range(&t3, 0, t3.len() - d);
    let (lo, hi) = trim_bounds(&t4, 0, t4.len());
    let inner = slice_range(&t4, lo, hi);
    proof {
        assert(t1@ == trim_start_char(line@, '@'));
        assert(t2@ == trim_start_char(t1@, ' '));
        assert(t3@ == trim_end_char(t2@, '@'));
        assert(t4@ == trim_end_char(t3@, ' '));
        assert(t4@.subrange(0, t4@.len() as int) == t4@);
        assert(inner@ == trim(t4@));
    }
    let ws = words_exec(&inner);
    if ws.len() < 2 {
        return None;
    }
    let (os, ol) = parse_range(&ws[0]);
    let (ns, nl) = parse_range(&ws[1]);
    let h = GitDiffHunk {
        old_start: os,
        old_lines: ol,
        new_start: ns,
        new_lines: nl,
        header: string_of(line),
        lines: Vec::new(),
    };
    proof {
        assert(ws@[0]@ == words(inner@)[0]);
        assert(ws@[1]@ == words(inner@)[1]);
        assert(line_views(h.lines@) =~= Seq::<LineV>::empty());
    }
    Some(h)
}

/// Whether `rest` splits at an occurrence of ` b/` at `p` into two equal
/// paths.
pub open spec fn equal_split(rest: Seq<char>, p: int) -> bool {
    occurs_at(rest, " b/"@, p) && rest.take(p) == rest.skip(p + 3)
}

/// `s` without the prefix `p`, when it has it.
pub open spec fn without_prefix(s: Seq<char>, p: Seq<char>) -> Seq<char> {
    if starts_with(s, p) {
        s.skip(p.len() as int)
    } else {
        s
    }
}

/// The old and new paths of a `diff --git` line, from the text after
/// `diff --git `: an `a/X b/X` pair with equal sides is split at its middle
/// (paths may hold spaces); otherwise the first two words are taken, without
/// quotes and without their `a/` and `b/` prefixes.
pub open spec fn diff_git_paths(after: Seq<char>) -> (Seq<char>, Seq<char>) {
    let a = trim(after);
    let rest = a.skip(2);
    if starts_with(a, "a/"@) && exists|p: int| #[trigger] equal_split(rest, p) {
        let p = choose|p: int| #[trigger] equal_split(rest, p);
        (rest.take(p), rest.take(p))
    } else {
        let ws = words(a);
        let o = unquoted(if ws.len() > 0 { ws[0] } else { Seq::empty() });
        let n = unquoted(if ws.len() > 1 { ws[1] } else { Seq::empty() });
        (without_prefix(o, "a/"@), without_prefix(n, "b/"@))
    }
}

/// `s` without the prefix `p`, when it has it.
fn strip_prefix_chars(s: &[char], p: &str) -> (r: Vec<char>)
    ensures
        r@ == without_prefix(s@, p@),
{
    let q = chars_of(p);
    if starts_with_str(s, p) {
        proof {
            assert(q@.len() <= s@.len());
        }
        let r = slice_range(s, q.len(), s.len());
        r
    } else {
        let r = slice_range(s, 0, s.len());
        assert(s@.subrange(0, s@.len() as int) == s@);
        r
    }
}

/// Reads the old and new paths of a `diff --git` line.
fn parse_diff_git_paths(after: &[char]) -> (r: (String, String))
    ensures
        r.0@ == diff_git_paths(after@).0,
        r.1@ == diff_git_paths(after@).1,
{
    let (lo, hi) = trim_bounds(after, 0, after.len());
    let a = slice_range(after, lo, hi);
    assert(after@.subrange(0, after@.len() as int) == after@);
    proof {
        reveal_strlit("a/");
        reveal_strlit(" b/");
    }
    if a.len() >= 2 && a[0] == 'a' && a[1] == '/' {
        let rest = slice_range(&a, 2, a.len());
        assert(rest@ == a@.skip(2));
        assert(starts_with(a@, "a/"@)) by {
            assert(a@.subrange(0, 2) =~= "a/"@);
        }
        let n = rest.len();
        if n >= 3 && (n - 3) % 2 == 0 {
            let p = (n - 3) / 2;
            let sep: Vec<char> = vec![' ', 'b', '/'];
            assert(sep@ =~= " b/"@);
            if matches_at(&rest, &sep, p) {
                let left = slice_range(&rest, 0, p);
                let right = slice_range(&rest, p + 3, n);
                if seq_eq_vec(&left, &right) {
                    proof {
                        assert(left@ == rest@.take(p as int));
                        assert(right@ == rest@.skip(p + 3));
                        assert(equal_split(rest@, p as int));
                        let c = choose|c: int| #[trigger] equal_split(rest@, c);
                        assert(rest@.take(c).len() == rest@.skip(c + 3).len());
                    }
                    let o = string_of(&left);
                    let o2 = string_of(&left);
                    return (o, o2);
                }
            }
        }
        proof {
            assert forall|c: int| !#[trigger] equal_split(rest@, c) by {
                if equal_split(rest@, c) {
                    assert(rest@.take(c).len() == rest@.skip(c + 3).len());
                    assert(c == (n - 3) / 2);
                }
            }
        }
    } else {
        proof {
            if starts_with(a@, "a/"@) {
                assert(a@[0] == "a/"@[0]);
                assert(a@[1] == "a/"@[1]);
            }
        }
    }
    let ws = words_exec(&a);
    let empty: Vec<char> = Vec::new();
    let o = if ws.len() > 0 {
        strip_quotes(&ws[0])
    } else {
        strip_quotes(&empty)
    };
    let nw = if ws.len() > 1 {
        strip_quotes(&ws[1])
    } else {
        strip_quotes(&empty)
    };
    let o2 = strip_prefix_chars(&o, "a/");
    let n2 = strip_prefix_chars(&nw, "b/");
    proof {
        assert(empty@ =~= Seq::<char>::empty());
    }
    (string_of(&o2), string_of(&n2))
}

/// Whether two character vectors are equal.
fn seq_eq_vec(x: &Vec<char>, y: &Vec<char>) -> (r: bool)
    ensures
        r == (x@ == y@),
{
    crate::text::seq_eq(x.as_slice(), y.as_slice())
}

// ---------------------------------------------------------------------------
// `git diff`

/// Where a reader of a unified diff stands after some lines.
pub struct DiffState {
    /// The files finished so far.
    pub deltas: Seq<DeltaV>,
    /// The file being read.
    pub current: Option<DeltaV>,
    /// The hunk being read.
    pub hunk: Option<HunkV>,
    /// The old-side number of the next line.
    pub old_line: u32,
    /// The new-side number of the next line.
    pub new_line: u32,
}

/// The file being read with the hunk being read added to its hunks (when it
/// keeps hunks).
pub open spec fn with_hunk(cur: Option<DeltaV>, hunk: Option<HunkV>) -> Option<DeltaV> {
    match cur {
        Some(d) => match d.hunks {
            Some(hs) => match hunk {
                Some(h) => Some(DeltaV { hunks: Some(hs.push(h)), ..d }),
                None => Some(d),
            },
            None => Some(d),
        },
        None => None,
    }
}

/// A finished file: a modification that changed both modes is a type change.
pub open spec fn finished(d: DeltaV) -> DeltaV {
    if d.change_type == "modified"@ && d.old_mode is Some && d.new_mode is Some {
        DeltaV { change_type: "type_changed"@, ..d }
    } else {
        d
    }
}

/// The finished files with the file being read added.
pub open spec fn close_delta(deltas: Seq<DeltaV>, cur: Option<DeltaV>) -> Seq<DeltaV> {
    match cur {
        Some(d) => deltas.push(finished(d)),
        None => deltas,
    }
}

/// The file a `diff --git` line opens.
pub open spec fn fresh_delta(after: Seq<char>, stat_only: bool) -> DeltaV {
    DeltaV {
        path: diff_git_paths(after).1,
        old_path: diff_git_paths(after).0,
        change_type: "modified"@,
        is_binary: false,
        old_mode: None,
        new_mode: None,
        similarity: None,
        insertions: Some(0),
        deletions: Some(0),
        hunks: if stat_only {
            None
        } else {
            Some(Seq::empty())
        },
    }
}

/// The line number after `x` (wrapping past the largest `u32`).
pub open spec fn next_no(x: u32) -> u32 {
    if x == u32::MAX {
        0
    } else {
        (x + 1) as u32
    }
}

/// One more, for a counter that is kept.
pub open spec fn bump(o: Option<nat>) -> Option<nat> {
    match o {
        Some(n) => Some(n + 1),
        None => None,
    }
}

/// The similarity percentage of a `similarity index` line.
pub open spec fn similarity_of(rest: Seq<char>) -> Option<u32> {
    match parse_uint(trim_end_char(rest, '%'), u32::MAX as nat) {
        Some(n) => Some(n as u32),
        None => None,
    }
}

/// A diff line of the given kind added to the hunk being read.
pub open spec fn add_line(h: HunkV, kind: Seq<char>, text: Seq<char>, o: Option<u32>, n: Option<u32>) -> HunkV {
    HunkV { lines: h.lines.push(LineV { kind, text, old_line: o, new_line: n }), ..h }
}

/// What a line inside a file's diff changes about the file's header.
pub open spec fn header_step(d: DeltaV, line: Seq<char>) -> Option<DeltaV> {
    if starts_with(line, "old mode "@) {
        Some(DeltaV { old_mode: Some(line.skip("old mode "@.len() as int)), ..d })
    } else if starts_with(line, "new mode "@) {
        Some(DeltaV { new_mode: Some(line.skip("new mode "@.len() as int)), ..d })
    } else if starts_with(line, "deleted file mode "@) {
        Some(
            DeltaV {
                change_type: "deleted"@,
                old_mode: Some(line.skip("deleted file mode "@.len() as int)),
                ..d
            },
        )
    } else if starts_with(line, "new file mode "@) {
        Some(
            DeltaV {
                change_type: "added"@,
                new_mode: Some(line.skip("new file mode "@.len() as int)),
                ..d
            },
        )
    } else if starts_with(line, "similarity index "@) {
        Some(DeltaV { similarity: similarity_of(line.skip("similarity index "@.len() as int)), ..d })
    } else if starts_with(line, "rename from "@) {
        Some(
            DeltaV {
                change_type: "renamed"@,
                old_path: unquoted(line.skip("rename from "@.len() as int)),
                ..d
            },
        )
    } else if starts_with(line, "rename to "@) {
        Some(DeltaV { path: unquoted(line.skip("rename to "@.len() as int)), ..d })
    } else if starts_with(line, "copy from "@) {
        Some(
            DeltaV {
                change_type: "copied"@,
                old_path: unquoted(line.skip("copy from "@.len() as int)),
                ..d
            },
        )
    } else if starts_with(line, "copy to "@) {
        Some(DeltaV { path: unquoted(line.skip("copy to "@.len() as int)), ..d })
    } else {
        None
    }
}

/// What a line inside a file's diff, other than a header line, does.
pub open spec fn body_step(st: DiffState, d: DeltaV, line: Seq<char>) -> DiffState {
    if starts_with(line, "index "@) {
        st
    } else if starts_with(line, "Binary files "@) {
        DiffState { current: Some(DeltaV { is_binary: true, hunks: None, ..d }), hunk: None, ..st }
    } else if starts_with(line, "--- "@) || starts_with(line, "+++ "@) {
        st
    } else if starts_with(line, "@@"@) {
        let c = with_hunk(Some(d), st.hunk)->0;
        match hunk_header(line) {
            Some(h) => DiffState {
                current: Some(c),
                hunk: if c.hunks is Some {
                    Some(h)
                } else {
                    None
                },
                old_line: h.old_start,
                new_line: h.new_start,
                ..st
            },
            None => DiffState { current: Some(c), hunk: None, ..st },
        }
    } else if starts_with(line, " "@) {
        match st.hunk {
            Some(h) => DiffState {
                hunk: Some(
                    add_line(h, "context"@, line.skip(" "@.len() as int), Some(st.old_line), Some(st.new_line)),
                ),
                old_line: next_no(st.old_line),
                new_line: next_no(st.new_line),
                ..st
            },
            None => st,
        }
    } else if starts_with(line, "-"@) {
        let st2 = match st.hunk {
            Some(h) => DiffState {
                hunk: Some(
                    add_line(h, "deletion"@, line.skip("-"@.len() as int), Some(st.old_line), None),
                ),
                old_line: next_no(st.old_line),
                ..st
            },
            None => st,
        };
        DiffState { current: Some(DeltaV { deletions: bump(d.deletions), ..d }), ..st2 }
    } else if starts_with(line, "+"@) {
        let st2 = match st.hunk {
            Some(h) => DiffState {
                hunk: Some(
                    add_line(h, "addition"@, line.skip("+"@.len() as int), None, Some(st.new_line)),
                ),
                new_line: next_no(st.new_line),
                ..st
            },
            None => st,
        };
        DiffState { current: Some(DeltaV { insertions: bump(d.insertions), ..d }), ..st2 }
    } else {
        st
    }
}

/// What reading one more line of a unified diff does.
pub open spec fn diff_step(st: DiffState, line: Seq<char>, stat_only: bool) -> DiffState {
    if starts_with(line, "diff --git "@) {
        DiffState {
            deltas: close_delta(st.deltas, with_hunk(st.current, st.hunk)),
            current: Some(fresh_delta(line.skip("diff --git "@.len() as int), stat_only)),
            hunk: None,
            ..st
        }
    } else {
        match st.current {
            None => st,
            Some(d) => match header_step(d, line) {
                Some(d2) => DiffState { current: Some(d2), ..st },
                None => body_step(st, d, line),
            },
        }
    }
}

/// Where a reader stands after the given lines.
pub open spec fn diff_fold(lines: Seq<Seq<char>>, stat_only: bool) -> DiffState
    decreases lines.len(),
{
    if lines.len() == 0 {
        DiffState { deltas: Seq::empty(), current: None, hunk: None, old_line: 0, new_line: 0 }
    } else {
        diff_step(diff_fold(lines.drop_last(), stat_only), lines.last(), stat_only)
    }
}

/// The files of a unified diff, read line by line.
pub open spec fn unified_diff(text: Seq<char>, stat_only: bool) -> Seq<DeltaV> {
    let st = diff_fold(lines_of(text), stat_only);
    close_delta(st.deltas, with_hunk(st.current, st.hunk))
}

/// Whether the counters of the file being read are at most `n`.
pub open spec fn counts_at_most(st: DiffState, n: nat) -> bool {
    st.current matches Some(d) ==> (d.insertions matches Some(k) ==> k <= n) && (
    d.deletions matches Some(k) ==> k <= n)
}

/// The views of a list of file diffs.
pub open spec fn delta_views(ds: Seq<GitDiffDelta>) -> Seq<DeltaV> {
    ds.map_values(|d: GitDiffDelta| d@)
}

/// The view of an optional file diff.
pub open spec fn opt_delta(o: Option<GitDiffDelta>) -> Option<DeltaV> {
    match o {
        Some(d) => Some(d@),
        None => None,
    }
}

/// The view of an optional hunk.
pub open spec fn opt_hunk(o: Option<GitDiffHunk>) -> Option<HunkV> {
    match o {
        Some(h) => Some(h@),
        None => None,
    }
}

/// A reader of a unified diff.
struct DiffReader {
    deltas: Vec<GitDiffDelta>,
    current: Option<GitDiffDelta>,
    hunk: Option<GitDiffHunk>,
    old_line: u32,
    new_line: u32,
    stat_only: bool,
}

impl DiffReader {
    spec fn view(&self) -> DiffState {
        DiffState {
            deltas: delta_views(self.deltas@),
            current: opt_delta(self.current),
            hunk: opt_hunk(self.hunk),
            old_line: self.old_line,
            new_line: self.new_line,
        }
    }

    /// Adds the hunk being read to the file being read.
    fn flush_hunk(&mut self)
        ensures
            final(self)@ == (DiffState { current: with_hunk(old(self)@.current, old(self)@.hunk), hunk: None, ..old(self)@ }),
            final(self).stat_only == old(self).stat_only,
    {
        let h = self.hunk.take();
        match h {
            Some(h) => match &mut self.current {
                Some(d) => match &mut d.hunks {
                    Some(hs) => {
                        let ghost before = hs@;
                        hs.push(h);
                        proof {
                            assert(hunk_views(hs@) =~= hunk_views(before).push(h@));
                        }
                    },
                    None => {},
                },
                None => {},
            },
            None => {},
        }
    }

    /// Finishes the file being read.
    fn close_current(&mut self)
        ensures
            final(self)@ == (DiffState { deltas: close_delta(old(self)@.deltas, old(self)@.current), current: None, ..old(self)@ }),
            final(self).stat_only == old(self).stat_only,
    {
        let cur = self.current.take();
        match cur {
            Some(mut d) => {
                if str_eq_lit(d.change_type.as_str(), "modified") && d.old_mode.is_some()
                    && d.new_mode.is_some() {
                    d.change_type = "type_changed".to_string();
                }
                let ghost before = self.deltas@;
                self.deltas.push(d);
                proof {
                    assert(delta_views(self.deltas@) =~= delta_views(before).push(d@));
                }
            },
            None => {},
        }
    }
}

/// Whether a string equals a literal.
fn str_eq_lit(a: &str, b: &str) -> (r: bool)
    ensures
        r == (a@ == b@),
{
    crate::text::str_eq(a, b)
}

/// The rest of `line` after the prefix `p`, when it starts with `p`.
fn after_prefix(line: &[char], p: &str) -> (r: Option<Vec<char>>)
    ensures
        match r {
            Some(v) => starts_with(line@, p@) && v@ == line@.skip(p@.len() as int),
            None => !starts_with(line@, p@),
        },
{
    let q = chars_of(p);
    if crate::text::has_prefix(line, &q) {
        Some(slice_range(line, q.len(), line.len()))
    } else {
        None
    }
}

/// The text of a character vector.
fn text_of(v: &Vec<char>) -> (s: String)
    ensures
        s@ == v@,
{
    string_of(v.as_slice())
}

/// Applies a header line to the file being read; `false` when the line is not
/// a header line.
fn header_line(d: &mut GitDiffDelta, line: &[char]) -> (handled: bool)
    ensures
        handled == header_step(old(d)@, line@) is Some,
        handled ==> final(d)@ == header_step(old(d)@, line@)->0,
        !handled ==> *final(d) == *old(d),
{
    match after_prefix(line, "old mode ") {
        Some(rest) => {
            d.old_mode = Some(text_of(&rest));
            return true;
        },
        None => {},
    }
    match after_prefix(line, "new mode ") {
        Some(rest) => {
            d.new_mode = Some(text_of(&rest));
            return true;
        },
        None => {},
    }
    match after_prefix(line, "deleted file mode ") {
        Some(rest) => {
            d.change_type = "deleted".to_string();
            d.old_mode = Some(text_of(&rest));
            return true;
        },
        None => {},
    }
    match after_prefix(line, "new file mode ") {
        Some(rest) => {
            d.change_type = "added".to_string();
            d.new_mode = Some(text_of(&rest));
            return true;
        },
        None => {},
    }
    match after_prefix(line, "similarity index ") {
        Some(rest) => {
            let t = trail_run_exec(&rest, '%');
            let n = parse_uint_range(&rest, 0, rest.len() - t, u32::MAX as u64);
            d.similarity = match n {
                Some(n) => Some(n as u32),
                None => None,
            };
            proof {
                assert(rest@.subrange(0, rest@.len() - t) == trim_end_char(rest@, '%'));
            }
            return true;
        },
        None => {},
    }
    match after_prefix(line, "rename from ") {
        Some(rest) => {
            d.change_type = "renamed".to_string();
            d.old_path = text_of(&strip_quotes(&rest));
            return true;
        },
        None => {},
    }
    match after_prefix(line, "rename to ") {
        Some(rest) => {
            d.path = text_of(&strip_quotes(&rest));
            return true;
        },
        None => {},
    }
    match after_prefix(line, "copy from ") {
        Some(rest) => {
            d.change_type = "copied".to_string();
            d.old_path = text_of(&strip_quotes(&rest));
            return true;
        },
        None => {},
    }
    match after_prefix(line, "copy to ") {
        Some(rest) => {
            d.path = text_of(&strip_quotes(&rest));
            return true;
        },
        None => {},
    }
    false
}

/// The file a `diff --git` line opens.
fn fresh_delta_exec(after: &[char], stat_only: bool) -> (d: GitDiffDelta)
    ensures
        d@ == fresh_delta(after@, stat_only),
{
    let (old_path, path) = parse_diff_git_paths(after);
    let d = GitDiffDelta {
        path,
        old_path,
        change_type: "modified".to_string(),
        is_binary: false,
        old_mode: None,
        new_mode: None,
        similarity: None,
        insertions: Some(0),
        deletions: Some(0),
        hunks: if stat_only {
            None
        } else {
            Some(Vec::new())
        },
    };
    proof {
        if !stat_only {
            assert(hunk_views(d.hunks->0@) =~= Seq::<HunkV>::empty());
        }
    }
    d
}

/// One more than `x`, wrapping past the largest `u32`.
fn next_no_exec(x: u32) -> (r: u32)
    ensures
        r == next_no(x),
{
    x.wrapping_add(1)
}

impl DiffReader {
    /// Applies a line inside a file's diff that is not a header line.
    fn body_line(&mut self, line: &[char], Ghost(n): Ghost<nat>)
        requires
            old(self).current is Some,
            counts_at_most(old(self)@, n),
            n < usize::MAX,
        ensures
            final(self)@ == body_step(old(self)@, old(self)@.current->0, line@),
            final(self).stat_only == old(self).stat_only,
            counts_at_most(final(self)@, n + 1),
    {
        if starts_with_str(line, "index ") {
            return;
        }
        if starts_with_str(line, "Binary files ") {
            match &mut self.current {
                Some(d) => {
                    d.is_binary = true;
                    d.hunks = None;
                },
                None => {},
            }
            self.hunk = None;
            return;
        }
        if starts_with_str(line, "--- ") || starts_with_str(line, "+++ ") {
            return;
        }
        if starts_with_str(line, "@@") {
            self.flush_hunk();
            match parse_hunk_header_chars(line) {
                Some(h) => {
                    self.old_line = h.old_start;
                    self.new_line = h.new_start;
                    let keeps = match &self.current {
                        Some(d) => d.hunks.is_some(),
                        None => false,
                    };
                    if keeps {
                        self.hunk = Some(h);
                    }
                },
                None => {},
            }
            return;
        }
        match after_prefix(line, " ") {
            Some(rest) => {
                match &mut self.hunk {
                    Some(h) => {
                        let ghost before = h.lines@;
                        h.lines.push(
                            GitDiffLine {
                                kind: "context".to_string(),
                                text: text_of(&rest),
                                old_line: Some(self.old_line),
                                new_line: Some(self.new_line),
                            },
                        );
                        proof {
                            assert(line_views(h.lines@) =~= line_views(before).push(h.lines@.last()@));
                        }
                        self.old_line = next_no_exec(self.old_line);
                        self.new_line = next_no_exec(self.new_line);
                    },
                    None => {},
                }
                return;
            },
            None => {},
        }
        match after_prefix(line, "-") {
            Some(rest) => {
                match &mut self.hunk {
                    Some(h) => {
                        let ghost before = h.lines@;
                        h.lines.push(
                            GitDiffLine {
                                kind: "deletion".to_string(),
                                text: text_of(&rest),
                                old_line: Some(self.old_line),
                                new_line: None,
                            },
                        );
                        proof {
                            assert(line_views(h.lines@) =~= line_views(before).push(h.lines@.last()@));
                        }
                        self.old_line = next_no_exec(self.old_line);
                    },
                    None => {},
                }
                match &mut self.current {
                    Some(d) => match &mut d.deletions {
                        Some(k) => {
                            *k = *k + 1;
                        },
                        None => {},
                    },
                    None => {},
                }
                return;
            },
            None => {},
        }
        match after_prefix(line, "+") {
            Some(rest) => {
                match &mut self.hunk {
                    Some(h) => {
                        let ghost before = h.lines@;
                        h.lines.push(
                            GitDiffLine {
                                kind: "addition".to_string(),
                                text: text_of(&rest),
                                old_line: None,
                                new_line: Some(self.new_line),
                            },
                        );
                        proof {
                            assert(line_views(h.lines@) =~= line_views(before).push(h.lines@.last()@));
                        }
                        self.new_line = next_no_exec(self.new_line);
                    },
                    None => {},
                }
                match &mut self.current {
                    Some(d) => match &mut d.insertions {
                        Some(k) => {
                            *k = *k + 1;
                        },
                        None => {},
                    },
                    None => {},
                }
                return;
            },
            None => {},
        }
    }

    /// Reads one more line.
    fn step(&mut self, line: &[char], Ghost(n): Ghost<nat>)
        requires
            counts_at_most(old(self)@, n),
            n < usize::MAX,
        ensures
            final(self)@ == diff_step(old(self)@, line@, old(self).stat_only),
            final(self).stat_only == old(self).stat_only,
            counts_at_most(final(self)@, n + 1),
    {
        match after_prefix(line, "diff --git ") {
            Some(after) => {
                self.flush_hunk();
                self.close_current();
                self.current = Some(fresh_delta_exec(&after, self.stat_only));
                return;
            },
            None => {},
        }
        let handled = match &mut self.current {
            Some(d) => header_line(d, line),
            None => {
                return;
            },
        };
        if !handled {
            self.body_line(line, Ghost(n));
        }
    }
}

/// Parses the output of `git diff` into one entry per file.  With `stat_only`
/// the hunks are not kept, only the counts of added and deleted lines.
pub fn parse_unified_diff(text: &str, stat_only: bool) -> (r: Result<Vec<GitDiffDelta>, GitError>)
    ensures
        r matches Ok(ds) && delta_views(ds@) == unified_diff(text@, stat_only),
{
    let v = chars_of(text);
    let lines = lines_chars(&v);
    let ghost ls = lines_of(text@);
    let mut rd = DiffReader {
        deltas: Vec::new(),
        current: None,
        hunk: None,
        old_line: 0,
        new_line: 0,
        stat_only,
    };
    proof {
        assert(delta_views(rd.deltas@) =~= Seq::<DeltaV>::empty());
        assert(ls.take(0) =~= Seq::<Seq<char>>::empty());
    }
    let mut i: usize = 0;
    while i < lines.len()
        invariant
            i <= lines@.len(),
            lines@.len() == ls.len(),
            ls == lines_of(text@),
            forall|k: int| 0 <= k < lines@.len() ==> #[trigger] lines@[k]@ == ls[k],
            rd.stat_only == stat_only,
            rd@ == diff_fold(ls.take(i as int), stat_only),
            counts_at_most(rd@, i as nat),
        decreases lines.len() - i,
    {
        rd.step(&lines[i], Ghost(i as nat));
        proof {
            assert(ls.take(i + 1).drop_last() == ls.take(i as int));
            assert(ls.take(i + 1).last() == ls[i as int]);
        }
        i += 1;
    }
    proof {
        assert(ls.take(ls.len() as int) == ls);
    }
    rd.flush_hunk();
    rd.close_current();
    Ok(rd.deltas)
}

// ---------------------------------------------------------------------------
// `git log`

/// One commit of `git log`.
#[derive(Clone, Debug)]
pub struct GitLogEntry {
    pub sha: String,
    pub subject: String,
    pub author: String,
    pub date: String,
}

/// The mathematical content of a log entry.
pub struct LogView {
    pub sha: Seq<char>,
    pub subject: Seq<char>,
    pub author: Seq<char>,
    pub date: Seq<char>,
}

impl GitLogEntry {
    pub open spec fn view(&self) -> LogView {
        LogView { sha: self.sha@, subject: self.subject@, author: self.author@, date: self.date@ }
    }
}

/// The entries of the log lines: each non-empty line with at least four
/// fields separated by the record separator `\x1E` gives sha, subject,
/// author and date.
pub open spec fn log_entries(lines: Seq<Seq<char>>) -> Seq<LogView>
    decreases lines.len(),
{
    if lines.len() == 0 {
        Seq::empty()
    } else {
        let prev = log_entries(lines.drop_last());
        let line = lines.last();
        let parts = split_on(line, '\x1E');
        if line.len() > 0 && parts.len() >= 4 {
            prev.push(LogView { sha: parts[0], subject: parts[1], author: parts[2], date: parts[3] })
        } else {
            prev
        }
    }
}

/// Parses `git log --format=%H%x1E%s%x1E%an%x1E%ad` output.
pub fn parse_git_log(text: &str) -> (r: Result<Vec<GitLogEntry>, GitError>)
    ensures
        r matches Ok(es) && es@.map_values(|e: GitLogEntry| e@) == log_entries(lines_of(text@)),
{
    let v = chars_of(text);
    let lines = lines_chars(&v);
    let ghost ls = lines_of(text@);
    let mut entries: Vec<GitLogEntry> = Vec::new();
    let mut i: usize = 0;
    assert(ls.take(0) =~= Seq::<Seq<char>>::empty());
    assert(entries@.map_values(|e: GitLogEntry| e@) =~= Seq::<LogView>::empty());
    while i < lines.len()
        invariant
            i <= lines@.len(),
            lines@.len() == ls.len(),
            ls == lines_of(text@),
            forall|k: int| 0 <= k < lines@.len() ==> #[trigger] lines@[k]@ == ls[k],
            entries@.map_values(|e: GitLogEntry| e@) == log_entries(ls.take(i as int)),
        decreases lines.len() - i,
    {
        let line = &lines[i];
        proof {
            assert(ls.take(i + 1).drop_last() == ls.take(i as int));
            assert(ls.take(i + 1).last() == ls[i as int]);
        }
        if line.len() > 0 {
            let parts = split_chars(line, '\x1E');
            if parts.len() >= 4 {
                let ghost before = entries@;
                entries.push(
                    GitLogEntry {
                        sha: text_of(&parts[0]),
                        subject: text_of(&parts[1]),
                        author: text_of(&parts[2]),
                        date: text_of(&parts[3]),
                    },
                );
                proof {
                    assert(entries@.map_values(|e: GitLogEntry| e@) =~= before.map_values(
                        |e: GitLogEntry| e@,
                    ).push(entries@.last()@));
                }
            }
        }
        i += 1;
    }
    assert(ls.take(ls.len() as int) == ls);
    Ok(entries)
}

// ---------------------------------------------------------------------------
// Changed lines and the symbols around them

/// The runs of consecutive numbers in `s`, as `(first, last)` pairs, in order.
pub open spec fn line_runs(s: Seq<usize>) -> Seq<(int, int)>
    decreases s.len(),
{
    if s.len() == 0 {
        Seq::empty()
    } else {
        let r = line_runs(s.drop_last());
        let x = s.last() as int;
        if r.len() > 0 && x == r.last().1 + 1 {
            r.update(r.len() - 1, (r.last().0, x))
        } else {
            r.push((x, x))
        }
    }
}

/// The pairs of a list of ranges.
pub open spec fn range_pairs(v: Seq<[usize; 2]>) -> Seq<(int, int)> {
    v.map_values(|a: [usize; 2]| (a@[0] as int, a@[1] as int))
}

/// Compacts line numbers into runs of consecutive lines.
pub fn compact_line_ranges(lines: &[usize]) -> (r: Vec<[usize; 2]>)
    requires
        forall|i: int| 0 <= i < lines@.len() - 1 ==> lines@[i] < usize::MAX,
    ensures
        range_pairs(r@) == line_runs(lines@),
{
    let mut ranges: Vec<[usize; 2]> = Vec::new();
    if lines.len() == 0 {
        proof {
            assert(range_pairs(ranges@) =~= Seq::<(int, int)>::empty());
        }
        return ranges;
    }
    let mut start = lines[0];
    let mut end = lines[0];
    let mut i: usize = 1;
    proof {
        assert(lines@.take(1).drop_last() =~= Seq::<usize>::empty());
        assert(lines@.take(1).last() == lines@[0]);
        assert(line_runs(Seq::<usize>::empty()) =~= Seq::<(int, int)>::empty());
        assert(range_pairs(ranges@) =~= Seq::<(int, int)>::empty());
        assert(line_runs(lines@.take(1)) =~= seq![(lines@[0] as int, lines@[0] as int)]);
    }
    while i < lines.len()
        invariant
            1 <= i <= lines@.len(),
            forall|k: int| 0 <= k < lines@.len() - 1 ==> lines@[k] < usize::MAX,
            end == lines@[i - 1],
            range_pairs(ranges@).push((start as int, end as int)) == line_runs(lines@.take(i as int)),
        decreases lines.len() - i,
    {
        let line = lines[i];
        proof {
            assert(lines@.take(i + 1).drop_last() == lines@.take(i as int));
            assert(lines@.take(i + 1).last() == line);
        }
        if line == end + 1 {
            end = line;
        } else {
            let ghost before = ranges@;
            ranges.push([start, end]);
            proof {
                assert(range_pairs(ranges@) =~= range_pairs(before).push((start as int, lines@[i - 1] as int)));
            }
            start = line;
            end = line;
        }
        i += 1;
    }
    let ghost before = ranges@;
    ranges.push([start, end]);
    proof {
        assert(range_pairs(ranges@) =~= range_pairs(before).push((start as int, end as int)));
        assert(lines@.take(lines@.len() as int) == lines@);
    }
    ranges
}

/// Whether outline entry `a` is a better fit than `b`: it spans fewer lines,
/// or as many and starts later.
pub open spec fn fits_better(a: OutlineEntry, b: OutlineEntry) -> bool {
    a.span() < b.span() || (a.span() == b.span() && a.start_line > b.start_line)
}

/// The best fitting of the first `k` entries that span `line`: the first of
/// the ones with the fewest lines, among them the one that starts last.
pub open spec fn smallest_upto(outline: Seq<OutlineEntry>, line: usize, k: int) -> Option<int>
    decreases k,
{
    if k <= 0 {
        None
    } else {
        let best = smallest_upto(outline, line, k - 1);
        let e = outline[k - 1];
        if e.spans(line) && (best is None || fits_better(e, outline[best->0])) {
            Some(k - 1)
        } else {
            best
        }
    }
}

proof fn lemma_smallest_upto_bounds(outline: Seq<OutlineEntry>, line: usize, k: int)
    requires
        0 <= k <= outline.len(),
    ensures
        smallest_upto(outline, line, k) matches Some(i) ==> 0 <= i < k && outline[i].spans(line),
    decreases k,
{
    if k > 0 {
        lemma_smallest_upto_bounds(outline, line, k - 1);
    }
}

/// The number of lines an outline entry spans beyond its first.
fn span_exec(e: &OutlineEntry) -> (n: usize)
    ensures
        n == e.span(),
{
    let last = match e.end_line {
        Some(x) => x,
        None => e.start_line,
    };
    last.saturating_sub(e.start_line)
}

/// The index of the outline entry that fits `line` most tightly.
fn smallest_index(outline: &[OutlineEntry], line: usize) -> (r: Option<usize>)
    ensures
        match smallest_upto(outline@, line, outline@.len() as int) {
            Some(i) => r == Some(i as usize) && 0 <= i < outline@.len(),
            None => r is None,
        },
{
    let mut best: Option<usize> = None;
    let mut k: usize = 0;
    while k < outline.len()
        invariant
            k <= outline@.len(),
            match smallest_upto(outline@, line, k as int) {
                Some(i) => best == Some(i as usize),
                None => best is None,
            },
        decreases outline.len() - k,
    {
        proof {
            lemma_smallest_upto_bounds(outline@, line, k as int);
        }
        let e = &outline[k];
        let last = match e.end_line {
            Some(x) => x,
            None => e.start_line,
        };
        if e.start_line <= line && line <= last {
            let better = match best {
                None => true,
                Some(b) => {
                    let se = span_exec(e);
                    let sb = span_exec(&outline[b]);
                    se < sb || (se == sb && e.start_line > outline[b].start_line)
                },
            };
            if better {
                best = Some(k);
            }
        }
        k += 1;
    }
    proof {
        lemma_smallest_upto_bounds(outline@, line, outline@.len() as int);
    }
    best
}

/// The outline entry that fits `line` most tightly: of the entries that span
/// it, the first of those with the fewest lines and, among them, the latest
/// start.
pub fn smallest_containing_entry(outline: &[OutlineEntry], line: usize) -> (r: Option<&OutlineEntry>)
    ensures
        match smallest_upto(outline@, line, outline@.len() as int) {
            Some(i) => r matches Some(e) && *e == outline@[i],
            None => r is None,
        },
{
    match smallest_index(outline, line) {
        Some(b) => Some(&outline[b]),
        None => None,
    }
}

/// Whether a list of line numbers is strictly increasing.
pub open spec fn strictly_sorted(v: Seq<usize>) -> bool {
    forall|i: int, j: int| 0 <= i < j < v.len() ==> v[i] < v[j]
}

/// The numbers a list holds.
pub open spec fn line_set(v: Seq<usize>) -> Set<int> {
    Set::new(|x: int| exists|i: int| 0 <= i < v.len() && v[i] as int == x)
}

/// Adds a number to a strictly increasing list, keeping it so.
pub fn insert_line(v: &mut Vec<usize>, x: usize)
    requires
        strictly_sorted(old(v)@),
    ensures
        strictly_sorted(final(v)@),
        line_set(final(v)@) == line_set(old(v)@).insert(x as int),
{
    let mut p: usize = 0;
    while p < v.len() && v[p] < x
        invariant
            p <= v@.len(),
            v@ == old(v)@,
            forall|k: int| 0 <= k < p ==> v@[k] < x,
        decreases v.len() - p,
    {
        p += 1;
    }
    if p < v.len() && v[p] == x {
        assert(line_set(v@) =~= line_set(old(v)@).insert(x as int)) by {
            assert(v@[p as int] as int == x as int);
        }
        return;
    }
    let ghost before = v@;
    v.insert(p, x);
    proof {
        assert(v@ == before.insert(p as int, x));
        assert forall|i: int, j: int| 0 <= i < j < v@.len() implies v@[i] < v@[j] by {
            if j < p {
            } else if j == p {
            } else if i < p {
                assert(before[j - 1] >= x) by {
                    if before[j - 1] < x {
                        assert(before[p as int] <= before[j - 1]);
                    }
                }
            } else if i == p {
                assert(before[p as int] > x || p == before.len());
                if j - 1 > p {
                    assert(before[p as int] < before[j - 1]);
                }
            }
        }
        assert forall|y: int| line_set(v@).contains(y) <==> line_set(before).insert(x as int).contains(y) by {
            if line_set(v@).contains(y) {
                let i = choose|i: int| 0 <= i < v@.len() && v@[i] as int == y;
                if i < p {
                    assert(before[i] as int == y);
                } else if i > p {
                    assert(before[i - 1] as int == y);
                }
            }
            if line_set(before).contains(y) {
                let i = choose|i: int| 0 <= i < before.len() && before[i] as int == y;
                if i < p {
                    assert(v@[i] as int == y);
                } else {
                    assert(v@[i + 1] as int == y);
                }
            }
            if y == x as int {
                assert(v@[p as int] as int == y);
            }
        }
        assert(line_set(v@) =~= line_set(before).insert(x as int));
    }
}

/// Whether line `m` of a hunk adds new-side line `x` (a positive number).
pub open spec fn adds_at(h: HunkV, m: int, x: int) -> bool {
    &&& h.lines[m].kind == "addition"@
    &&& (h.lines[m].new_line matches Some(n) && n > 0 && n as int == x)
}

/// Whether one of the first `j` lines of a hunk adds new-side line `x`.
pub open spec fn adds_upto(h: HunkV, j: int, x: int) -> bool {
    exists|m: int| 0 <= m < j && #[trigger] adds_at(h, m, x)
}

/// Whether a hunk adds new-side line `x`.
pub open spec fn adds_line(h: HunkV, x: int) -> bool {
    adds_upto(h, h.lines.len() as int, x)
}

/// Whether one of the first `j` lines of a hunk deletes a line.
pub open spec fn deletes_upto(h: HunkV, j: int) -> bool {
    exists|m: int| 0 <= m < j && (#[trigger] h.lines[m]).kind == "deletion"@
}

/// Whether a hunk deletes a line.
pub open spec fn deletes(h: HunkV) -> bool {
    deletes_upto(h, h.lines.len() as int)
}

/// The new-side lines a hunk changes: the lines it adds, or, when it only
/// deletes, the line where the deletion stands.
pub open spec fn hunk_changed(h: HunkV) -> Set<int> {
    if exists|x: int| #[trigger] adds_line(h, x) {
        Set::new(|x: int| adds_line(h, x))
    } else if deletes(h) {
        set![if h.new_start > 1 { h.new_start as int } else { 1 }]
    } else {
        Set::empty()
    }
}

/// The new-side lines of `hs[0..k]` that change.
pub open spec fn hunks_changed(hs: Seq<HunkV>, k: int) -> Set<int>
    decreases k,
{
    if k <= 0 {
        Set::empty()
    } else {
        hunks_changed(hs, k - 1).union(hunk_changed(hs[k - 1]))
    }
}

/// The new-side lines a file's diff changes (none for a binary file or a
/// diff without hunks).
pub open spec fn delta_changed(d: DeltaV) -> Set<int> {
    if d.is_binary {
        Set::empty()
    } else {
        match d.hunks {
            Some(hs) => hunks_changed(hs, hs.len() as int),
            None => Set::empty(),
        }
    }
}

/// Adds the new-side lines one hunk changes.
fn collect_hunk_lines(h: &GitDiffHunk, out: &mut Vec<usize>)
    requires
        strictly_sorted(old(out)@),
    ensures
        strictly_sorted(final(out)@),
        line_set(final(out)@) == line_set(old(out)@).union(hunk_changed(h@)),
{
    let ghost hv = h@;
    let mut added = false;
    let mut deleted = false;
    let mut j: usize = 0;
    assert(line_set(out@) =~= line_set(old(out)@).union(Set::new(|x: int| adds_upto(hv, 0, x))));
    while j < h.lines.len()
        invariant
            j <= h.lines@.len(),
            hv == h@,
            hv.lines.len() == h.lines@.len(),
            strictly_sorted(out@),
            line_set(out@) == line_set(old(out)@).union(Set::new(|x: int| adds_upto(hv, j as int, x))),
            added == exists|x: int| #[trigger] adds_upto(hv, j as int, x),
            deleted == deletes_upto(hv, j as int),
        decreases h.lines.len() - j,
    {
        let l = &h.lines[j];
        assert(hv.lines[j as int] == l@);
        proof {
            reveal_strlit("addition");
            reveal_strlit("deletion");
            assert("addition"@[0] != "deletion"@[0]);
        }
        let ghost before = out@;
        let mut new_add = false;
        if str_eq_lit(l.kind.as_str(), "addition") {
            match l.new_line {
                Some(n) => {
                    if n > 0 {
                        insert_line(out, n as usize);
                        new_add = true;
                        assert(adds_at(hv, j as int, n as int));
                    }
                },
                None => {},
            }
        } else if str_eq_lit(l.kind.as_str(), "deletion") {
            deleted = true;
        }
        proof {
            assert forall|x: int| adds_upto(hv, j + 1, x) <==> (adds_upto(hv, j as int, x) || adds_at(
                hv,
                j as int,
                x,
            )) by {
                if adds_upto(hv, j + 1, x) {
                    let m = choose|m: int| 0 <= m < j + 1 && #[trigger] adds_at(hv, m, x);
                    if m < j {
                        assert(adds_upto(hv, j as int, x));
                    }
                }
                if adds_upto(hv, j as int, x) {
                    let m = choose|m: int| 0 <= m < j && #[trigger] adds_at(hv, m, x);
                    assert(0 <= m < j + 1 && adds_at(hv, m, x));
                }
            }
            assert(line_set(out@) =~= line_set(old(out)@).union(Set::new(|x: int| adds_upto(hv, j + 1, x))));
            assert(deletes_upto(hv, j + 1) == (deletes_upto(hv, j as int) || hv.lines[j as int].kind
                == "deletion"@)) by {
                if deletes_upto(hv, j + 1) {
                    let m = choose|m: int| 0 <= m < j + 1 && (#[trigger] hv.lines[m]).kind == "deletion"@;
                    if m < j {
                        assert(deletes_upto(hv, j as int));
                    }
                }
            }
            if new_add {
                assert(adds_upto(hv, j + 1, l.new_line->0 as int));
            }
            assert((exists|x: int| #[trigger] adds_upto(hv, j + 1, x)) == (added || new_add)) by {
                if exists|x: int| #[trigger] adds_upto(hv, j + 1, x) {
                    let x = choose|x: int| #[trigger] adds_upto(hv, j + 1, x);
                    if !adds_upto(hv, j as int, x) {
                        assert(adds_at(hv, j as int, x));
                    }
                }
            }
        }
        added = added || new_add;
        j += 1;
    }
    if !added && deleted {
        let at = if h.new_start > 1 {
            h.new_start as usize
        } else {
            1
        };
        insert_line(out, at);
        proof {
            assert forall|x: int| !#[trigger] adds_line(hv, x) by {
                assert(!adds_upto(hv, hv.lines.len() as int, x));
            }
            assert(Set::new(|x: int| adds_line(hv, x)) =~= Set::<int>::empty());
            assert(line_set(out@) =~= line_set(old(out)@).union(hunk_changed(hv)));
        }
    } else {
        proof {
            if added {
                let x = choose|x: int| #[trigger] adds_upto(hv, hv.lines.len() as int, x);
                assert(adds_line(hv, x));
            } else {
                assert forall|x: int| !#[trigger] adds_line(hv, x) by {
                    assert(!adds_upto(hv, hv.lines.len() as int, x));
                }
                assert(Set::new(|x: int| adds_line(hv, x)) =~= Set::<int>::empty());
            }
            assert(line_set(out@) =~= line_set(old(out)@).union(hunk_changed(hv)));
        }
    }
}

/// Adds the new-side lines a file's diff changes to a set of line numbers.
pub fn collect_changed_new_lines(delta: &GitDiffDelta, out: &mut Vec<usize>)
    requires
        strictly_sorted(old(out)@),
    ensures
        strictly_sorted(final(out)@),
        line_set(final(out)@) == line_set(old(out)@).union(delta_changed(delta@)),
{
    if delta.is_binary {
        assert(line_set(out@).union(Set::empty()) =~= line_set(out@));
        return;
    }
    match &delta.hunks {
        None => {
            assert(line_set(out@).union(Set::empty()) =~= line_set(out@));
        },
        Some(hunks) => {
            let ghost hs = hunk_views(hunks@);
            let mut k: usize = 0;
            assert(line_set(out@).union(hunks_changed(hs, 0)) =~= line_set(out@));
            while k < hunks.len()
                invariant
                    k <= hunks@.len(),
                    hs == hunk_views(hunks@),
                    strictly_sorted(out@),
                    line_set(out@) == line_set(old(out)@).union(hunks_changed(hs, k as int)),
                decreases hunks.len() - k,
            {
                collect_hunk_lines(&hunks[k], out);
                proof {
                    assert(hs[k as int] == hunks@[k as int]@);
                    assert(line_set(out@) =~= line_set(old(out)@).union(hunks_changed(hs, k + 1)));
                }
                k += 1;
            }
        },
    }
}

/// The changed lines that fall in one symbol.
pub struct GroupV {
    pub entry: OutlineEntry,
    pub lines: Seq<usize>,
}

/// Whether two outline entries name the same symbol: same kind, name and
/// lines.
pub open spec fn same_symbol(a: OutlineEntry, b: OutlineEntry) -> bool {
    a.kind@ == b.kind@ && a.name@ == b.name@ && a.start_line == b.start_line && a.end_line == b.end_line
}

/// The first group, from the `i`-th on, of the symbol of `e`.
pub open spec fn group_index_from(gs: Seq<GroupV>, e: OutlineEntry, i: int) -> Option<int>
    decreases gs.len() - i,
{
    if i < 0 || i >= gs.len() {
        None
    } else if same_symbol(gs[i].entry, e) {
        Some(i)
    } else {
        group_index_from(gs, e, i + 1)
    }
}

proof fn lemma_group_index_from(gs: Seq<GroupV>, e: OutlineEntry, i: int)
    requires
        0 <= i,
    ensures
        group_index_from(gs, e, i) matches Some(j) ==> i <= j < gs.len(),
    decreases gs.len() - i,
{
    if i < gs.len() && !same_symbol(gs[i].entry, e) {
        lemma_group_index_from(gs, e, i + 1);
    }
}

/// The groups with changed line `l` of symbol `e` added.
pub open spec fn add_to_groups(gs: Seq<GroupV>, e: OutlineEntry, l: usize) -> Seq<GroupV> {
    match group_index_from(gs, e, 0) {
        Some(i) => gs.update(i, GroupV { lines: gs[i].lines.push(l), ..gs[i] }),
        None => gs.push(GroupV { entry: e, lines: seq![l] }),
    }
}

/// The first `k` changed lines grouped by the symbol that fits each most
/// tightly, groups in the order their first line comes; lines outside every
/// symbol are dropped.
pub open spec fn group_lines(outline: Seq<OutlineEntry>, lines: Seq<usize>, k: int) -> Seq<GroupV>
    decreases k,
{
    if k <= 0 {
        Seq::empty()
    } else {
        let gs = group_lines(outline, lines, k - 1);
        let l = lines[k - 1];
        match smallest_upto(outline, l, outline.len() as int) {
            Some(i) => add_to_groups(gs, outline[i], l),
            None => gs,
        }
    }
}

/// The place where a group starting at line `start` goes among groups sorted
/// by start line, after those that start no later.
pub open spec fn insert_pos(s: Seq<GroupV>, start: usize, i: int) -> int
    decreases s.len() - i,
{
    if i < 0 || i >= s.len() {
        s.len() as int
    } else if s[i].entry.start_line > start {
        i
    } else {
        insert_pos(s, start, i + 1)
    }
}

/// The groups sorted by the start line of their symbol, groups with the same
/// start line keeping their order.
pub open spec fn sort_by_start(gs: Seq<GroupV>) -> Seq<GroupV>
    decreases gs.len(),
{
    if gs.len() == 0 {
        Seq::empty()
    } else {
        let s = sort_by_start(gs.drop_last());
        s.insert(insert_pos(s, gs.last().entry.start_line, 0), gs.last())
    }
}

/// The mathematical content of a changed symbol.
pub struct SymbolView {
    pub name: Seq<char>,
    pub kind: Seq<char>,
    pub start_line: usize,
    pub end_line: Option<usize>,
    pub signature: Seq<char>,
    pub changed_ranges: Seq<(int, int)>,
    pub changed_line_count: nat,
}

impl ChangedSymbol {
    pub open spec fn view(&self) -> SymbolView {
        SymbolView {
            name: self.name@,
            kind: self.kind@,
            start_line: self.start_line,
            end_line: self.end_line,
            signature: self.signature@,
            changed_ranges: range_pairs(self.changed_ranges@),
            changed_line_count: self.changed_line_count as nat,
        }
    }
}

/// What a group reports.
pub open spec fn symbol_of(g: GroupV) -> SymbolView {
    SymbolView {
        name: g.entry.name@,
        kind: g.entry.kind@,
        start_line: g.entry.start_line,
        end_line: g.entry.end_line,
        signature: g.entry.signature@,
        changed_ranges: line_runs(g.lines),
        changed_line_count: g.lines.len(),
    }
}

/// The symbols that hold changed lines, with the changed lines of each.
pub open spec fn changed_symbols(outline: Seq<OutlineEntry>, lines: Seq<usize>) -> Seq<SymbolView> {
    sort_by_start(group_lines(outline, lines, lines.len() as int)).map_values(|g: GroupV| symbol_of(g))
}

/// Changed lines of one symbol, by the index of its outline entry.
struct LineGroup {
    entry: usize,
    lines: Vec<usize>,
}

/// The views of groups over an outline.
spec fn group_views(outline: Seq<OutlineEntry>, gs: Seq<LineGroup>) -> Seq<GroupV> {
    gs.map_values(|g: LineGroup| GroupV { entry: outline[g.entry as int], lines: g.lines@ })
}

/// Whether two outline entries name the same symbol.
fn same_symbol_exec(a: &OutlineEntry, b: &OutlineEntry) -> (r: bool)
    ensures
        r == same_symbol(*a, *b),
{
    let ends = match (a.end_line, b.end_line) {
        (Some(x), Some(y)) => x == y,
        (None, None) => true,
        _ => false,
    };
    str_eq_lit(a.kind.as_str(), b.kind.as_str()) && str_eq_lit(a.name.as_str(), b.name.as_str())
        && a.start_line == b.start_line && ends
}

/// Groups the changed lines by the symbol that fits each most tightly.
fn group_changed_lines(outline: &[OutlineEntry], lines: &Vec<usize>) -> (gs: Vec<LineGroup>)
    requires
        strictly_sorted(lines@),
    ensures
        group_views(outline@, gs@) == group_lines(outline@, lines@, lines@.len() as int),
        forall|g: int| 0 <= g < gs@.len() ==> (#[trigger] gs@[g]).entry < outline@.len()
            && strictly_sorted(gs@[g].lines@),
{
    let mut gs: Vec<LineGroup> = Vec::new();
    let mut k: usize = 0;
    proof {
        assert(group_views(outline@, gs@) =~= Seq::<GroupV>::empty());
    }
    while k < lines.len()
        invariant
            k <= lines@.len(),
            strictly_sorted(lines@),
            group_views(outline@, gs@) == group_lines(outline@, lines@, k as int),
            forall|g: int| 0 <= g < gs@.len() ==> (#[trigger] gs@[g]).entry < outline@.len()
                && strictly_sorted(gs@[g].lines@),
            forall|g: int, m: int|
                0 <= g < gs@.len() && 0 <= m < gs@[g].lines@.len() ==> exists|t: int|
                    0 <= t < k && lines@[t] == #[trigger] gs@[g].lines@[m],
        decreases lines.len() - k,
    {
        let l = lines[k];
        let ghost views = group_views(outline@, gs@);
        match smallest_index(outline, l) {
            None => {
                assert(group_lines(outline@, lines@, k + 1) == views);
            },
            Some(e) => {
                let mut gi: usize = 0;
                while gi < gs.len() && !same_symbol_exec(&outline[gs[gi].entry], &outline[e])
                    invariant
                        gi <= gs@.len(),
                        e < outline@.len(),
                        views == group_views(outline@, gs@),
                        forall|g: int| 0 <= g < gs@.len() ==> (#[trigger] gs@[g]).entry < outline@.len(),
                        group_index_from(views, outline@[e as int], 0) == group_index_from(
                            views,
                            outline@[e as int],
                            gi as int,
                        ),
                    decreases gs.len() - gi,
                {
                    gi += 1;
                }
                proof {
                    lemma_group_index_from(views, outline@[e as int], 0);
                    assert(group_lines(outline@, lines@, k + 1) == add_to_groups(
                        views,
                        outline@[e as int],
                        l,
                    ));
                }
                if gi < gs.len() {
                    assert(group_index_from(views, outline@[e as int], 0) == Some(gi as int));
                    let ghost before = gs@;
                    let mut g = gs.remove(gi);
                    g.lines.push(l);
                    gs.insert(gi, g);
                    proof {
                        assert(group_views(outline@, gs@) =~= views.update(
                            gi as int,
                            GroupV { lines: views[gi as int].lines.push(l), ..views[gi as int] },
                        ));
                        assert forall|a: int, b: int|
                            0 <= a < b < gs@[gi as int].lines@.len() implies gs@[gi as int].lines@[a]
                            < gs@[gi as int].lines@[b] by {
                            if b == gs@[gi as int].lines@.len() - 1 {
                                let t = choose|t: int|
                                    0 <= t < k && lines@[t] == #[trigger] before[gi as int].lines@[a];
                                assert(lines@[t] < lines@[k as int]);
                            } else {
                                assert(before[gi as int].lines@[a] < before[gi as int].lines@[b]);
                            }
                        }
                        assert forall|g: int, m: int|
                            0 <= g < gs@.len() && 0 <= m < gs@[g].lines@.len() implies exists|t: int|
                                0 <= t < k + 1 && lines@[t] == #[trigger] gs@[g].lines@[m] by {
                            if g == gi && m == gs@[g].lines@.len() - 1 {
                                assert(lines@[k as int] == gs@[g].lines@[m]);
                            } else if g == gi {
                                assert(gs@[g].lines@[m] == before[g].lines@[m]);
                                let t = choose|t: int|
                                    0 <= t < k && lines@[t] == #[trigger] before[g].lines@[m];
                            } else {
                                assert(gs@[g] == before[g]);
                                let t = choose|t: int|
                                    0 <= t < k && lines@[t] == #[trigger] before[g].lines@[m];
                            }
                        }
                    }
                } else {
                    assert(group_index_from(views, outline@[e as int], 0) is None);
                    let mut ls: Vec<usize> = Vec::new();
                    ls.push(l);
                    let ghost before = gs@;
                    gs.push(LineGroup { entry: e, lines: ls });
                    proof {
                        assert(group_views(outline@, gs@) =~= views.push(
                            GroupV { entry: outline@[e as int], lines: seq![l] },
                        ));
                        assert forall|g: int, m: int|
                            0 <= g < gs@.len() && 0 <= m < gs@[g].lines@.len() implies exists|t: int|
                                0 <= t < k + 1 && lines@[t] == #[trigger] gs@[g].lines@[m] by {
                            if g == gs@.len() - 1 {
                                assert(lines@[k as int] == gs@[g].lines@[m]);
                            } else {
                                assert(gs@[g] == before[g]);
                                let t = choose|t: int|
                                    0 <= t < k && lines@[t] == #[trigger] before[g].lines@[m];
                            }
                        }
                    }
                }
            },
        }
        k += 1;
    }
    gs
}

/// Whether every group names an outline entry and holds increasing lines.
spec fn groups_ok(outline: Seq<OutlineEntry>, gs: Seq<LineGroup>) -> bool {
    forall|g: int| 0 <= g < gs.len() ==> (#[trigger] gs[g]).entry < outline.len()
        && strictly_sorted(gs[g].lines@)
}

/// Sorts groups by the start line of their symbol, keeping the order of
/// groups that start on the same line.
fn sort_groups(outline: &[OutlineEntry], gs: Vec<LineGroup>) -> (r: Vec<LineGroup>)
    requires
        groups_ok(outline@, gs@),
    ensures
        groups_ok(outline@, r@),
        group_views(outline@, r@) == sort_by_start(group_views(outline@, gs@)),
{
    let ghost orig = gs@;
    let ghost ov = group_views(outline@, orig);
    let n = gs.len();
    let mut rest = gs;
    let mut sorted: Vec<LineGroup> = Vec::new();
    let mut i: usize = 0;
    proof {
        assert(ov.take(0) =~= Seq::<GroupV>::empty());
        assert(group_views(outline@, sorted@) =~= Seq::<GroupV>::empty());
        assert(rest@ =~= orig.skip(0));
    }
    while rest.len() > 0
        invariant
            i <= orig.len(),
            n == orig.len(),
            rest@ == orig.skip(i as int),
            ov == group_views(outline@, orig),
            groups_ok(outline@, orig),
            groups_ok(outline@, sorted@),
            group_views(outline@, sorted@) == sort_by_start(ov.take(i as int)),
        decreases rest.len(),
    {
        let g = rest.remove(0);
        proof {
            assert(g == orig[i as int]);
            assert(rest@ =~= orig.skip(i + 1));
        }
        let start = outline[g.entry].start_line;
        let ghost sv = group_views(outline@, sorted@);
        let mut p: usize = 0;
        while p < sorted.len() && outline[sorted[p].entry].start_line <= start
            invariant
                p <= sorted@.len(),
                groups_ok(outline@, sorted@),
                sv == group_views(outline@, sorted@),
                insert_pos(sv, start, 0) == insert_pos(sv, start, p as int),
            decreases sorted.len() - p,
        {
            p += 1;
        }
        let ghost gv = GroupV { entry: outline@[g.entry as int], lines: g.lines@ };
        let ghost before = sorted@;
        sorted.insert(p, g);
        proof {
            assert(ov.take(i + 1).drop_last() == ov.take(i as int));
            assert(ov.take(i + 1).last() == gv);
            assert(insert_pos(sv, start, 0) == p);
            assert(group_views(outline@, sorted@) =~= sv.insert(p as int, gv));
            assert forall|k: int| 0 <= k < sorted@.len() implies (#[trigger] sorted@[k]).entry
                < outline@.len() && strictly_sorted(sorted@[k].lines@) by {
                if k < p {
                    assert(sorted@[k] == before[k]);
                } else if k > p {
                    assert(sorted@[k] == before[k - 1]);
                }
            }
        }
        i += 1;
    }
    proof {
        assert(orig.skip(i as int).len() == 0);
        assert(ov.take(i as int) == ov);
    }
    sorted
}

/// The symbols of an outline that hold changed lines, each with its changed
/// lines compacted into runs: a line belongs to the symbol that fits it most
/// tightly, lines outside every symbol are dropped, and the symbols come in
/// the order of their start lines.
pub fn changed_symbols_for_lines(outline: &[OutlineEntry], changed_lines: &Vec<usize>) -> (r: Vec<
    ChangedSymbol,
>)
    requires
        strictly_sorted(changed_lines@),
    ensures
        r@.map_values(|c: ChangedSymbol| c@) == changed_symbols(outline@, changed_lines@),
{
    let groups = group_changed_lines(outline, changed_lines);
    let sorted = sort_groups(outline, groups);
    let ghost sv = group_views(outline@, sorted@);
    let mut out: Vec<ChangedSymbol> = Vec::new();
    let mut i: usize = 0;
    proof {
        assert(out@.map_values(|c: ChangedSymbol| c@) =~= sv.take(0).map_values(|g: GroupV| symbol_of(g)));
    }
    while i < sorted.len()
        invariant
            i <= sorted@.len(),
            sv == group_views(outline@, sorted@),
            groups_ok(outline@, sorted@),
            out@.map_values(|c: ChangedSymbol| c@) == sv.take(i as int).map_values(
                |g: GroupV| symbol_of(g),
            ),
        decreases sorted.len() - i,
    {
        let g = &sorted[i];
        assert(strictly_sorted(g.lines@));
        let e = &outline[g.entry];
        let sym = ChangedSymbol {
            name: e.name.clone(),
            kind: e.kind.clone(),
            start_line: e.start_line,
            end_line: e.end_line,
            signature: e.signature.clone(),
            changed_ranges: compact_line_ranges(g.lines.as_slice()),
            changed_line_count: g.lines.len(),
        };
        let ghost before = out@;
        out.push(sym);
        proof {
            assert(sv[i as int] == GroupV { entry: outline@[g.entry as int], lines: g.lines@ });
            assert(sv.take(i + 1) == sv.take(i as int).push(sv[i as int]));
            assert(out@.map_values(|c: ChangedSymbol| c@) =~= before.map_values(|c: ChangedSymbol| c@).push(
                symbol_of(sv[i as int]),
            ));
            assert(sv.take(i + 1).map_values(|g: GroupV| symbol_of(g)) =~= sv.take(i as int).map_values(
                |g: GroupV| symbol_of(g),
            ).push(symbol_of(sv[i as int])));
        }
        i += 1;
    }
    proof {
        assert(sv.take(i as int) == sv);
    }
    out
}

// ---------------------------------------------------------------------------
// Status entries and their diffs

/// Whether `git status` with the `staged` filter keeps an entry: staged
/// entries, worktree entries (untracked ones among them), or all.
pub open spec fn status_kept(e: StatusView, staged: Option<bool>) -> bool {
    match staged {
        Some(true) => e.staged,
        Some(false) => e.worktree || e.status == "untracked"@,
        None => true,
    }
}

/// The entries the filter keeps, in order.
pub open spec fn kept_entries(es: Seq<StatusView>, staged: Option<bool>) -> Seq<StatusView> {
    es.filter(|e: StatusView| status_kept(e, staged))
}

/// Keeps the entries that the `staged` filter of `git status` asks for.
pub fn filter_status_entries(entries: Vec<GitStatusEntry>, staged: Option<bool>) -> (r: Vec<
    GitStatusEntry,
>)
    ensures
        entry_views(r@) == kept_entries(entry_views(entries@), staged),
{
    let ghost all = entry_views(entries@);
    let n = entries.len();
    let mut rest = entries;
    let mut kept: Vec<GitStatusEntry> = Vec::new();
    let mut i: usize = 0;
    let ghost orig = rest@;
    proof {
        assert(all.take(0).filter(|e: StatusView| status_kept(e, staged)) =~= Seq::<StatusView>::empty());
        assert(entry_views(kept@) =~= Seq::<StatusView>::empty());
        assert(rest@ =~= orig.skip(0));
    }
    while rest.len() > 0
        invariant
            i <= orig.len(),
            n == orig.len(),
            all == entry_views(orig),
            rest@ == orig.skip(i as int),
            entry_views(kept@) == all.take(i as int).filter(|e: StatusView| status_kept(e, staged)),
        decreases rest.len(),
    {
        let e = rest.remove(0);
        proof {
            assert(e == orig[i as int]);
            assert(rest@ =~= orig.skip(i + 1));
            assert(all.take(i + 1).drop_last() == all.take(i as int));
            assert(all.take(i + 1).last() == e@);
            reveal(Seq::filter);
        }
        let keep = match staged {
            Some(true) => e.staged,
            Some(false) => e.worktree || str_eq_lit(e.status.as_str(), "untracked"),
            None => true,
        };
        let ghost before = kept@;
        if keep {
            kept.push(e);
            proof {
                assert(entry_views(kept@) =~= entry_views(before).push(e@));
            }
        }
        i += 1;
    }
    proof {
        assert(all.take(i as int) == all);
    }
    kept
}

/// The paths whose worktree diff, and those whose staged diff, a change
/// listing needs: untracked and ignored entries need none.
pub open spec fn needs_diff(e: StatusView) -> bool {
    e.status != "untracked"@ && e.status != "ignored"@
}

/// The paths of the entries that need a diff and satisfy `side`, in order.
pub open spec fn diff_paths_where(es: Seq<StatusView>, worktree: bool) -> Seq<Seq<char>>
    decreases es.len(),
{
    if es.len() == 0 {
        Seq::empty()
    } else {
        let prev = diff_paths_where(es.drop_last(), worktree);
        let e = es.last();
        if needs_diff(e) && (if worktree { e.worktree } else { e.staged }) {
            prev.push(e.path)
        } else {
            prev
        }
    }
}

/// The paths that need a worktree diff and those that need a staged diff.
pub fn diff_paths(entries: &Vec<GitStatusEntry>) -> (r: (Vec<String>, Vec<String>))
    ensures
        r.0@.map_values(|s: String| s@) == diff_paths_where(entry_views(entries@), true),
        r.1@.map_values(|s: String| s@) == diff_paths_where(entry_views(entries@), false),
{
    let ghost es = entry_views(entries@);
    let mut worktree: Vec<String> = Vec::new();
    let mut staged: Vec<String> = Vec::new();
    let mut i: usize = 0;
    proof {
        assert(es.take(0) =~= Seq::<StatusView>::empty());
        assert(worktree@.map_values(|s: String| s@) =~= Seq::<Seq<char>>::empty());
        assert(staged@.map_values(|s: String| s@) =~= Seq::<Seq<char>>::empty());
    }
    while i < entries.len()
        invariant
            i <= entries@.len(),
            es == entry_views(entries@),
            worktree@.map_values(|s: String| s@) == diff_paths_where(es.take(i as int), true),
            staged@.map_values(|s: String| s@) == diff_paths_where(es.take(i as int), false),
        decreases entries.len() - i,
    {
        let e = &entries[i];
        proof {
            assert(es.take(i + 1).drop_last() == es.take(i as int));
            assert(es.take(i + 1).last() == e@);
        }
        let skip = str_eq_lit(e.status.as_str(), "untracked") || str_eq_lit(
            e.status.as_str(),
            "ignored",
        );
        if !skip {
            if e.worktree {
                let ghost before = worktree@;
                worktree.push(e.path.clone());
                proof {
                    assert(worktree@.map_values(|s: String| s@) =~= before.map_values(|s: String| s@).push(
                        e.path@,
                    ));
                }
            }
            if e.staged {
                let ghost before = staged@;
                staged.push(e.path.clone());
                proof {
                    assert(staged@.map_values(|s: String| s@) =~= before.map_values(|s: String| s@).push(
                        e.path@,
                    ));
                }
            }
        }
        i += 1;
    }
    proof {
        assert(es.take(i as int) == es);
    }
    (worktree, staged)
}

/// A copy of a diff line.
fn clone_line(l: &GitDiffLine) -> (r: GitDiffLine)
    ensures
        r@ == l@,
{
    GitDiffLine { kind: l.kind.clone(), text: l.text.clone(), old_line: l.old_line, new_line: l.new_line }
}

/// A copy of a hunk.
fn clone_hunk(h: &GitDiffHunk) -> (r: GitDiffHunk)
    ensures
        r@ == h@,
{
    let mut lines: Vec<GitDiffLine> = Vec::new();
    let mut i: usize = 0;
    while i < h.lines.len()
        invariant
            i <= h.lines@.len(),
            line_views(lines@) == line_views(h.lines@).take(i as int),
        decreases h.lines.len() - i,
    {
        let ghost before = lines@;
        lines.push(clone_line(&h.lines[i]));
        proof {
            assert(line_views(lines@) =~= line_views(before).push(lines@.last()@));
            assert(line_views(h.lines@).take(i + 1) =~= line_views(h.lines@).take(i as int).push(
                line_views(h.lines@)[i as int],
            ));
        }
        i += 1;
    }
    proof {
        assert(line_views(h.lines@).take(i as int) =~= line_views(h.lines@));
    }
    GitDiffHunk {
        old_start: h.old_start,
        old_lines: h.old_lines,
        new_start: h.new_start,
        new_lines: h.new_lines,
        header: h.header.clone(),
        lines,
    }
}

/// A copy of an optional string.
fn clone_opt(o: &Option<String>) -> (r: Option<String>)
    ensures
        opt_text(r) == opt_text(*o),
{
    match o {
        Some(s) => Some(s.clone()),
        None => None,
    }
}

/// A copy of a file's diff.
pub fn clone_delta(d: &GitDiffDelta) -> (r: GitDiffDelta)
    ensures
        r@ == d@,
{
    let hunks = match &d.hunks {
        None => None,
        Some(hs) => {
            let mut out: Vec<GitDiffHunk> = Vec::new();
            let mut i: usize = 0;
            while i < hs.len()
                invariant
                    i <= hs@.len(),
                    hunk_views(out@) == hunk_views(hs@).take(i as int),
                decreases hs.len() - i,
            {
                let ghost before = out@;
                out.push(clone_hunk(&hs[i]));
                proof {
                    assert(hunk_views(out@) =~= hunk_views(before).push(out@.last()@));
                    assert(hunk_views(hs@).take(i + 1) =~= hunk_views(hs@).take(i as int).push(
                        hunk_views(hs@)[i as int],
                    ));
                }
                i += 1;
            }
            proof {
                assert(hunk_views(hs@).take(i as int) =~= hunk_views(hs@));
            }
            Some(out)
        },
    };
    GitDiffDelta {
        path: d.path.clone(),
        old_path: d.old_path.clone(),
        change_type: d.change_type.clone(),
        is_binary: d.is_binary,
        old_mode: clone_opt(&d.old_mode),
        new_mode: clone_opt(&d.new_mode),
        similarity: d.similarity,
        insertions: d.insertions,
        deletions: d.deletions,
        hunks,
    }
}

/// The last of the diffs whose path is `path` (a later diff of the same path
/// replaces an earlier one), from the first `k`.
pub open spec fn delta_for_upto(ds: Seq<DeltaV>, path: Seq<char>, k: int) -> Option<DeltaV>
    decreases k,
{
    if k <= 0 {
        None
    } else if ds[k - 1].path == path {
        Some(ds[k - 1])
    } else {
        delta_for_upto(ds, path, k - 1)
    }
}

/// The diff listed for `path`.
pub open spec fn delta_for(ds: Seq<DeltaV>, path: Seq<char>) -> Option<DeltaV> {
    delta_for_upto(ds, path, ds.len() as int)
}

/// A copy of the diff listed for `path`.
fn find_delta(ds: &Vec<GitDiffDelta>, path: &str) -> (r: Option<GitDiffDelta>)
    ensures
        opt_delta(r) == delta_for(delta_views(ds@), path@),
{
    let ghost dv = delta_views(ds@);
    let mut k: usize = ds.len();
    while k > 0
        invariant
            k <= ds@.len(),
            dv == delta_views(ds@),
            delta_for(dv, path@) == delta_for_upto(dv, path@, k as int),
        decreases k,
    {
        if str_eq_lit(ds[k - 1].path.as_str(), path) {
            return Some(clone_delta(&ds[k - 1]));
        }
        k -= 1;
    }
    None
}

/// Attaches to each entry the worktree diff and the staged diff listed for
/// its path, where there is one.
pub fn attach_diffs(
    entries: &mut Vec<GitStatusEntry>,
    worktree: &Vec<GitDiffDelta>,
    staged: &Vec<GitDiffDelta>,
)
    ensures
        final(entries)@.len() == old(entries)@.len(),
        forall|i: int|
            0 <= i < final(entries)@.len() ==> {
                let e = #[trigger] final(entries)@[i];
                let o = old(entries)@[i];
                &&& e@ == o@
                &&& e.symbols == o.symbols
                &&& opt_delta(e.diff) == match delta_for(delta_views(worktree@), o.path@) {
                    Some(d) => Some(d),
                    None => opt_delta(o.diff),
                }
                &&& opt_delta(e.staged_diff) == match delta_for(delta_views(staged@), o.path@) {
                    Some(d) => Some(d),
                    None => opt_delta(o.staged_diff),
                }
            },
{
    let mut i: usize = 0;
    while i < entries.len()
        invariant
            i <= entries@.len(),
            entries@.len() == old(entries)@.len(),
            forall|k: int| i <= k < entries@.len() ==> #[trigger] entries@[k] == old(entries)@[k],
            forall|k: int|
                0 <= k < i ==> {
                    let e = #[trigger] entries@[k];
                    let o = old(entries)@[k];
                    &&& e@ == o@
                    &&& e.symbols == o.symbols
                    &&& opt_delta(e.diff) == match delta_for(delta_views(worktree@), o.path@) {
                        Some(d) => Some(d),
                        None => opt_delta(o.diff),
                    }
                    &&& opt_delta(e.staged_diff) == match delta_for(delta_views(staged@), o.path@) {
                        Some(d) => Some(d),
                        None => opt_delta(o.staged_diff),
                    }
                },
        decreases entries.len() - i,
    {
        let w = find_delta(worktree, entries[i].path.as_str());
        let s = find_delta(staged, entries[i].path.as_str());
        match w {
            Some(d) => {
                entries[i].diff = Some(d);
            },
            None => {},
        }
        match s {
            Some(d) => {
                entries[i].staged_diff = Some(d);
            },
            None => {},
        }
        i += 1;
    }
}

/// Drops the hunks of every attached diff, keeping the counts.
pub fn drop_hunks(entries: &mut Vec<GitStatusEntry>)
    ensures
        final(entries)@.len() == old(entries)@.len(),
        forall|i: int|
            0 <= i < final(entries)@.len() ==> {
                let e = #[trigger] final(entries)@[i];
                let o = old(entries)@[i];
                &&& e@ == o@
                &&& e.symbols == o.symbols
                &&& opt_delta(e.diff) == match opt_delta(o.diff) {
                    Some(d) => Some(DeltaV { hunks: None, ..d }),
                    None => None,
                }
                &&& opt_delta(e.staged_diff) == match opt_delta(o.staged_diff) {
                    Some(d) => Some(DeltaV { hunks: None, ..d }),
                    None => None,
                }
            },
{
    let mut i: usize = 0;
    while i < entries.len()
        invariant
            i <= entries@.len(),
            entries@.len() == old(entries)@.len(),
            forall|k: int| i <= k < entries@.len() ==> #[trigger] entries@[k] == old(entries)@[k],
            forall|k: int|
                0 <= k < i ==> {
                    let e = #[trigger] entries@[k];
                    let o = old(entries)@[k];
                    &&& e@ == o@
                    &&& e.symbols == o.symbols
                    &&& opt_delta(e.diff) == match opt_delta(o.diff) {
                        Some(d) => Some(DeltaV { hunks: None, ..d }),
                        None => None,
                    }
                    &&& opt_delta(e.staged_diff) == match opt_delta(o.staged_diff) {
                        Some(d) => Some(DeltaV { hunks: None, ..d }),
                        None => None,
                    }
                },
        decreases entries.len() - i,
    {
        let mut e = entries.remove(i);
        match &mut e.diff {
            Some(d) => {
                d.hunks = None;
            },
            None => {},
        }
        match &mut e.staged_diff {
            Some(d) => {
                d.hunks = None;
            },
            None => {},
        }
        entries.insert(i, e);
        i += 1;
    }
}

/// The new-side lines that the diffs attached to an entry change, in
/// increasing order.
pub fn entry_changed_lines(e: &GitStatusEntry) -> (r: Vec<usize>)
    ensures
        strictly_sorted(r@),
        line_set(r@) == (match opt_delta(e.diff) {
            Some(d) => delta_changed(d),
            None => Set::empty(),
        }).union(match opt_delta(e.staged_diff) {
            Some(d) => delta_changed(d),
            None => Set::empty(),
        }),
{
    let mut out: Vec<usize> = Vec::new();
    assert(line_set(out@) =~= Set::<int>::empty());
    match &e.diff {
        Some(d) => collect_changed_new_lines(d, &mut out),
        None => {},
    }
    let ghost mid = line_set(out@);
    match &e.staged_diff {
        Some(d) => collect_changed_new_lines(d, &mut out),
        None => {},
    }
    proof {
        assert(line_set(out@) =~= (match opt_delta(e.diff) {
            Some(d) => delta_changed(d),
            None => Set::<int>::empty(),
        }).union(match opt_delta(e.staged_diff) {
            Some(d) => delta_changed(d),
            None => Set::<int>::empty(),
        }));
    }
    out
}

/// The lines an entry's attached diffs change.
pub open spec fn changed_set(e: GitStatusEntry) -> Set<int> {
    (match opt_delta(e.diff) {
        Some(d) => delta_changed(d),
        None => Set::empty(),
    }).union(match opt_delta(e.staged_diff) {
        Some(d) => delta_changed(d),
        None => Set::empty(),
    })
}

/// The numbers of a set of line numbers, in increasing order.
pub open spec fn sorted_lines(s: Set<int>) -> Seq<usize> {
    choose|v: Seq<usize>| strictly_sorted(v) && line_set(v) == s
}

/// The changed lines of an entry, in increasing order.
pub open spec fn entry_changed_lines_spec(e: GitStatusEntry) -> Seq<usize> {
    sorted_lines(changed_set(e))
}

/// Two increasing lists with the same numbers are equal.
proof fn lemma_sorted_unique(a: Seq<usize>, b: Seq<usize>)
    requires
        strictly_sorted(a),
        strictly_sorted(b),
        line_set(a) == line_set(b),
    ensures
        a == b,
    decreases a.len(),
{
    if a.len() == 0 {
        if b.len() > 0 {
            assert(line_set(b).contains(b[0] as int));
        }
    } else if b.len() == 0 {
        assert(line_set(a).contains(a[0] as int));
    } else {
        assert(line_set(b).contains(a[0] as int));
        assert(line_set(a).contains(b[0] as int));
        let i = choose|i: int| 0 <= i < b.len() && b[i] as int == a[0] as int;
        let j = choose|j: int| 0 <= j < a.len() && a[j] as int == b[0] as int;
        if i > 0 {
            assert(b[0] < b[i]);
        }
        if j > 0 {
            assert(a[0] < a[j]);
        }
        assert(a[0] == b[0]);
        let a1 = a.drop_first();
        let b1 = b.drop_first();
        assert forall|x: int| line_set(a1).contains(x) <==> line_set(b1).contains(x) by {
            if line_set(a1).contains(x) {
                let k = choose|k: int| 0 <= k < a1.len() && a1[k] as int == x;
                assert(a[k + 1] as int == x);
                assert(line_set(b).contains(x));
                let m = choose|m: int| 0 <= m < b.len() && b[m] as int == x;
                assert(a[0] < a[k + 1]);
                if m == 0 {
                    assert(false);
                }
                assert(b1[m - 1] as int == x);
            }
            if line_set(b1).contains(x) {
                let k = choose|k: int| 0 <= k < b1.len() && b1[k] as int == x;
                assert(b[k + 1] as int == x);
                assert(line_set(a).contains(x));
                let m = choose|m: int| 0 <= m < a.len() && a[m] as int == x;
                assert(b[0] < b[k + 1]);
                if m == 0 {
                    assert(false);
                }
                assert(a1[m - 1] as int == x);
            }
        }
        assert(line_set(a1) =~= line_set(b1));
        lemma_sorted_unique(a1, b1);
        assert(a =~= b) by {
            assert forall|k: int| 0 <= k < a.len() implies a[k] == b[k] by {
                if k > 0 {
                    assert(a[k] == a1[k - 1]);
                    assert(b[k] == b1[k - 1]);
                }
            }
        }
    }
}

/// An increasing list is the sorted list of its numbers.
proof fn lemma_sorted_set_unique(v: Seq<usize>, s: Seq<usize>)
    requires
        strictly_sorted(v),
        s == sorted_lines(line_set(v)),
    ensures
        v == s,
{
    let w = choose|w: Seq<usize>| strictly_sorted(w) && line_set(w) == line_set(v);
    lemma_sorted_unique(v, w);
}

/// Attaches to an entry the symbols of its file's outline that its changed
/// lines fall in, when there are any.
pub fn attach_symbols(e: &mut GitStatusEntry, outline: &[OutlineEntry])
    ensures
        final(e)@ == old(e)@,
        final(e).diff == old(e).diff,
        final(e).staged_diff == old(e).staged_diff,
        ({
            let lines = entry_changed_lines_spec(*old(e));
            let syms = changed_symbols(outline@, lines);
            if lines.len() > 0 && syms.len() > 0 {
                final(e).symbols matches Some(v) && v@.map_values(|c: ChangedSymbol| c@) == syms
            } else {
                final(e).symbols == old(e).symbols
            }
        }),
{
    let lines = entry_changed_lines(e);
    proof {
        assert(line_set(lines@) == changed_set(*e));
        lemma_sorted_set_unique(lines@, entry_changed_lines_spec(*e));
    }
    if lines.len() == 0 {
        return;
    }
    let symbols = changed_symbols_for_lines(outline, &lines);
    if symbols.len() > 0 {
        e.symbols = Some(symbols);
    }
}

// ---------------------------------------------------------------------------
// Command lines

/// The texts of a list of strings.
pub open spec fn texts(v: Seq<String>) -> Seq<Seq<char>> {
    v.map_values(|s: String| s@)
}

/// `--` and the paths, when there are paths.
pub open spec fn path_args(paths: Seq<Seq<char>>) -> Seq<Seq<char>> {
    if paths.len() == 0 {
        Seq::empty()
    } else {
        seq!["--"@] + paths
    }
}

/// Appends `s` to a list of arguments.
fn push_arg(args: &mut Vec<String>, s: &str)
    ensures
        texts(final(args)@) == texts(old(args)@).push(s@),
{
    let ghost before = args@;
    args.push(s.to_string());
    proof {
        assert(texts(args@) =~= texts(before).push(s@));
    }
}

/// Appends the paths to a list of arguments.
fn push_paths(args: &mut Vec<String>, paths: &Vec<String>)
    ensures
        texts(final(args)@) == texts(old(args)@) + texts(paths@),
{
    let ghost start = texts(args@);
    let mut i: usize = 0;
    while i < paths.len()
        invariant
            i <= paths@.len(),
            texts(args@) == start + texts(paths@).take(i as int),
        decreases paths.len() - i,
    {
        push_arg(args, paths[i].as_str());
        proof {
            assert(texts(paths@).take(i + 1) =~= texts(paths@).take(i as int).push(paths@[i as int]@));
            assert(start + texts(paths@).take(i + 1) =~= (start + texts(paths@).take(i as int)).push(
                paths@[i as int]@,
            ));
        }
        i += 1;
    }
    proof {
        assert(texts(paths@).take(i as int) =~= texts(paths@));
    }
}

/// The arguments of `git status` for the status tool.
pub open spec fn status_args(untracked: bool, paths: Seq<Seq<char>>) -> Seq<Seq<char>> {
    seq!["status"@, "--porcelain=1"@, "-z"@] + (if untracked {
        Seq::empty()
    } else {
        seq!["--untracked-files=no"@]
    }) + path_args(paths)
}

/// Builds the arguments of `git status` for the status tool.
pub fn git_status_args(untracked: bool, paths: &Vec<String>) -> (r: Vec<String>)
    ensures
        texts(r@) == status_args(untracked, texts(paths@)),
{
    let mut args: Vec<String> = Vec::new();
    push_arg(&mut args, "status");
    push_arg(&mut args, "--porcelain=1");
    push_arg(&mut args, "-z");
    if !untracked {
        push_arg(&mut args, "--untracked-files=no");
    }
    if paths.len() > 0 {
        push_arg(&mut args, "--");
        push_paths(&mut args, paths);
    }
    proof {
        assert(texts(args@) =~= status_args(untracked, texts(paths@)));
    }
    args
}

/// `-U` and the number of context lines.
pub open spec fn context_arg(context: u32) -> Seq<char> {
    "-U"@ + decimal(context as nat)
}

/// Builds `-U<context>`.
fn context_flag(context: u32) -> (r: String)
    ensures
        r@ == context_arg(context),
{
    let mut s = String::new();
    s.append("-U");
    push_decimal(&mut s, context as u64);
    s
}

/// The arguments of `git diff` for the diff tool: the index, or a base, then
/// the context (capped) and the paths.
pub open spec fn diff_args(
    staged: Option<bool>,
    base: Option<Seq<char>>,
    context: u32,
    paths: Seq<Seq<char>>,
) -> Seq<Seq<char>> {
    let c = if context < MAX_GIT_CONTEXT {
        context
    } else {
        MAX_GIT_CONTEXT
    };
    seq!["diff"@, "--no-ext-diff"@] + (if staged == Some(true) {
        seq!["--cached"@]
    } else {
        match base {
            Some(b) => seq![b],
            None => Seq::empty(),
        }
    }) + seq![context_arg(c)] + path_args(paths)
}

/// Builds the arguments of `git diff` for the diff tool.
pub fn git_diff_args(staged: Option<bool>, base: &Option<String>, context: u32, paths: &Vec<String>) -> (r: Vec<
    String,
>)
    ensures
        texts(r@) == diff_args(staged, opt_text(*base), context, texts(paths@)),
{
    let mut args: Vec<String> = Vec::new();
    push_arg(&mut args, "diff");
    push_arg(&mut args, "--no-ext-diff");
    let cached = match staged {
        Some(true) => true,
        _ => false,
    };
    if cached {
        push_arg(&mut args, "--cached");
    } else {
        match base {
            Some(b) => push_arg(&mut args, b.as_str()),
            None => {},
        }
    }
    let c = bounded_context(context);
    let flag = context_flag(c);
    push_arg(&mut args, flag.as_str());
    if paths.len() > 0 {
        push_arg(&mut args, "--");
        push_paths(&mut args, paths);
    }
    proof {
        assert(texts(args@) =~= diff_args(staged, opt_text(*base), context, texts(paths@)));
    }
    args
}

/// The arguments of the `git diff` that a change listing runs for its paths.
pub open spec fn changes_diff_args(
    context: u32,
    staged: bool,
    base: Option<Seq<char>>,
    paths: Seq<Seq<char>>,
) -> Seq<Seq<char>> {
    let c = if context < MAX_GIT_CONTEXT {
        context
    } else {
        MAX_GIT_CONTEXT
    };
    seq!["diff"@, "--no-ext-diff"@, context_arg(c)] + (if staged {
        seq!["--cached"@]
    } else {
        Seq::empty()
    }) + (match base {
        Some(b) => seq![b],
        None => Seq::empty(),
    }) + seq!["--"@] + paths
}

/// Builds the arguments of the `git diff` that a change listing runs.
pub fn run_diff_args(context: u32, staged: bool, base: &Option<String>, paths: &Vec<String>) -> (r: Vec<
    String,
>)
    ensures
        texts(r@) == changes_diff_args(context, staged, opt_text(*base), texts(paths@)),
{
    let mut args: Vec<String> = Vec::new();
    push_arg(&mut args, "diff");
    push_arg(&mut args, "--no-ext-diff");
    let c = bounded_context(context);
    let flag = context_flag(c);
    push_arg(&mut args, flag.as_str());
    if staged {
        push_arg(&mut args, "--cached");
    }
    match base {
        Some(b) => push_arg(&mut args, b.as_str()),
        None => {},
    }
    push_arg(&mut args, "--");
    push_paths(&mut args, paths);
    proof {
        assert(texts(args@) =~= changes_diff_args(context, staged, opt_text(*base), texts(paths@)));
    }
    args
}

/// The arguments of `git log` for the log tool.
pub open spec fn log_args(n: u32, paths: Seq<Seq<char>>) -> Seq<Seq<char>> {
    let k = if n < MAX_GIT_LOG_ENTRIES {
        n
    } else {
        MAX_GIT_LOG_ENTRIES
    };
    seq!["log"@, "--format=%H%x1E%s%x1E%an%x1E%ad"@, "--no-decorate"@, "-n"@ + decimal(k as nat)]
        + path_args(paths)
}

/// Builds the arguments of `git log` for the log tool.
pub fn git_log_args(n: u32, paths: &Vec<String>) -> (r: Vec<String>)
    ensures
        texts(r@) == log_args(n, texts(paths@)),
{
    let mut args: Vec<String> = Vec::new();
    push_arg(&mut args, "log");
    push_arg(&mut args, "--format=%H%x1E%s%x1E%an%x1E%ad");
    push_arg(&mut args, "--no-decorate");
    let k = bounded_log_entries(n);
    let mut flag = String::new();
    flag.append("-n");
    push_decimal(&mut flag, k as u64);
    push_arg(&mut args, flag.as_str());
    if paths.len() > 0 {
        push_arg(&mut args, "--");
        push_paths(&mut args, paths);
    }
    proof {
        assert(texts(args@) =~= log_args(n, texts(paths@)));
    }
    args
}

/// The object `git show` reads: `<ref>:<path>`, the ref `staged` meaning
/// the index.
pub open spec fn show_object(git_ref: Seq<char>, path: Seq<char>) -> Seq<char> {
    (if git_ref == "staged"@ {
        ":0"@
    } else {
        git_ref
    }) + ":"@ + path
}

/// Builds the object `git show` reads.
pub fn git_show_object(git_ref: &str, path: &str) -> (r: String)
    ensures
        r@ == show_object(git_ref@, path@),
{
    let mut s = String::new();
    if str_eq_lit(git_ref, "staged") {
        s.append(":0");
    } else {
        s.append(git_ref);
    }
    s.append(":");
    s.append(path);
    s
}

/// Whether a failure of `git show` says that the file is not at the ref.
pub open spec fn says_missing(err: Seq<char>) -> bool {
    contains(err, "exists on disk, but not in"@) || contains(err, "does not exist"@) || contains(
        err,
        "Not a valid object name"@,
    ) || contains(err, "Path"@)
}

/// Whether a failure of `git show` says that the file is not at the ref.
pub fn show_error_is_missing_file(err: &str) -> (b: bool)
    ensures
        b == says_missing(err@),
{
    str_contains(err, "exists on disk, but not in") || str_contains(err, "does not exist")
        || str_contains(err, "Not a valid object name") || str_contains(err, "Path")
}

// ---------------------------------------------------------------------------
// Laws

/// A file's diff without its hunks.
pub open spec fn without_hunks(d: DeltaV) -> DeltaV {
    DeltaV { hunks: None, ..d }
}

/// How a reader that keeps no hunks stands to one that keeps them.
pub open spec fn stat_matches(t: DiffState, f: DiffState) -> bool {
    &&& t.deltas == f.deltas.map_values(|d: DeltaV| without_hunks(d))
    &&& t.hunk is None
    &&& match (t.current, f.current) {
        (Some(a), Some(b)) => a == without_hunks(b),
        (None, None) => true,
        _ => false,
    }
}

proof fn lemma_stat_step(t: DiffState, f: DiffState, line: Seq<char>)
    requires
        stat_matches(t, f),
    ensures
        stat_matches(diff_step(t, line, true), diff_step(f, line, false)),
{
    let t2 = diff_step(t, line, true);
    let f2 = diff_step(f, line, false);
    if starts_with(line, "diff --git "@) {
        match f.current {
            Some(b) => {
                let wb = with_hunk(Some(b), f.hunk)->0;
                assert(without_hunks(finished(wb)) == finished(without_hunks(b)));
                assert(t2.deltas =~= f2.deltas.map_values(|d: DeltaV| without_hunks(d)));
            },
            None => {
                assert(t2.deltas =~= f2.deltas.map_values(|d: DeltaV| without_hunks(d)));
            },
        }
    } else {
        match f.current {
            None => {},
            Some(b) => {
                let a = t.current->0;
                match header_step(b, line) {
                    Some(b2) => {
                        assert(header_step(a, line) == Some(without_hunks(b2)));
                    },
                    None => {
                        assert(header_step(a, line) is None);
                    },
                }
            },
        }
    }
}

proof fn lemma_stat_fold(lines: Seq<Seq<char>>)
    ensures
        stat_matches(diff_fold(lines, true), diff_fold(lines, false)),
    decreases lines.len(),
{
    if lines.len() == 0 {
        let t = diff_fold(lines, true);
        let f = diff_fold(lines, false);
        assert(t.deltas =~= f.deltas.map_values(|d: DeltaV| without_hunks(d)));
    } else {
        lemma_stat_fold(lines.drop_last());
        lemma_stat_step(diff_fold(lines.drop_last(), true), diff_fold(lines.drop_last(), false), lines.last());
    }
}

/// Reading a diff without hunks gives the same files, with the same paths,
/// kinds, modes and counts, as reading it with hunks, less the hunks.
pub proof fn lemma_stat_only_drops_only_hunks(text: Seq<char>)
    ensures
        unified_diff(text, true) == unified_diff(text, false).map_values(|d: DeltaV| without_hunks(d)),
{
    let ls = lines_of(text);
    lemma_stat_fold(ls);
    let t = diff_fold(ls, true);
    let f = diff_fold(ls, false);
    match f.current {
        Some(b) => {
            let wb = with_hunk(Some(b), f.hunk)->0;
            assert(without_hunks(finished(wb)) == finished(without_hunks(b)));
        },
        None => {},
    }
    assert(unified_diff(text, true) =~= unified_diff(text, false).map_values(
        |d: DeltaV| without_hunks(d),
    ));
}

/// Every entry of parsed `git status` output has one index code and one
/// worktree code; it is staged exactly when its index code is set, and in the
/// worktree exactly when its worktree code is set or it is untracked (`??`).
pub proof fn lemma_porcelain_flags(fields: Seq<Seq<u8>>, i: int)
    requires
        0 <= i,
        porcelain_from(fields, i) is Some,
    ensures
        forall|k: int|
            0 <= k < porcelain_from(fields, i)->0.len() ==> {
                let e = #[trigger] porcelain_from(fields, i)->0[k];
                &&& e.index_char.len() == 1
                &&& e.worktree_char.len() == 1
                &&& e.staged == (e.index_char[0] != ' ' && e.index_char[0] != '?' && e.index_char[0]
                    != '!')
                &&& e.worktree == (e.worktree_char[0] != ' ' && e.worktree_char[0] != '?'
                    && e.worktree_char[0] != '!' || (e.index_char[0] == '?' && e.worktree_char[0]
                    == '?'))
            },
    decreases fields.len() - i,
{
    if i < fields.len() {
        if fields[i].len() < 2 {
            lemma_porcelain_flags(fields, i + 1);
        } else if fields[i].len() > 2 {
            lemma_porcelain_flags(fields, next_at(fields, i));
            let rest = porcelain_from(fields, next_at(fields, i))->0;
            let all = porcelain_from(fields, i)->0;
            assert(all == seq![entry_at(fields, i)] + rest);
            assert forall|k: int| 0 <= k < all.len() implies {
                let e = #[trigger] all[k];
                &&& e.index_char.len() == 1
                &&& e.worktree_char.len() == 1
                &&& e.staged == (e.index_char[0] != ' ' && e.index_char[0] != '?' && e.index_char[0]
                    != '!')
                &&& e.worktree == (e.worktree_char[0] != ' ' && e.worktree_char[0] != '?'
                    && e.worktree_char[0] != '!' || (e.index_char[0] == '?' && e.worktree_char[0]
                    == '?'))
            } by {
                if k == 0 {
                    reveal_strlit("?");
                    reveal_strlit("!");
                } else {
                    assert(all[k] == rest[k - 1]);
                }
            }
        }
    }
}

// ---------------------------------------------------------------------------
// Path arguments

/// Why a path argument is refused, if it is: blank, absolute, or outside the
/// workspace.
pub open spec fn path_fault(root: Seq<char>, home: Option<Seq<char>>, path: Seq<char>) -> Option<GitFault> {
    if is_blank(path) {
        Some(GitFault::EmptyPath)
    } else if is_abs(path) {
        Some(GitFault::AbsolutePath { path })
    } else if !within(tool_path(root, home, path), root) {
        Some(GitFault::OutsidePath { path })
    } else {
        None
    }
}

/// Checks that a path argument names a place in the workspace by a relative
/// path.
pub fn validate_git_path(workspace: &Workspace, path: &str) -> (r: Result<(), GitError>)
    ensures
        match path_fault(workspace.root_text(), workspace.home_text(), path@) {
            Some(f) => r matches Err(e) && e@ == f,
            None => r is Ok,
        },
{
    if str_is_blank(path) {
        return Err(GitError::EmptyPath);
    }
    let v = chars_of(path);
    if v.len() > 0 && v[0] == '/' {
        return Err(GitError::AbsolutePath { path: path.to_string() });
    }
    match workspace.workspace_path(path) {
        Ok(_) => Ok(()),
        Err(_) => Err(GitError::OutsidePath { path: path.to_string() }),
    }
}

/// The first refused path argument.
pub open spec fn paths_fault_upto(
    root: Seq<char>,
    home: Option<Seq<char>>,
    paths: Seq<Seq<char>>,
    k: int,
) -> Option<GitFault>
    decreases k,
{
    if k <= 0 {
        None
    } else {
        match paths_fault_upto(root, home, paths, k - 1) {
            Some(f) => Some(f),
            None => path_fault(root, home, paths[k - 1]),
        }
    }
}

/// Checks every path argument, refusing the first that fails.
pub fn validate_git_paths(workspace: &Workspace, paths: &Vec<String>) -> (r: Result<(), GitError>)
    ensures
        match paths_fault_upto(workspace.root_text(), workspace.home_text(), texts(paths@), paths@.len() as int) {
            Some(f) => r matches Err(e) && e@ == f,
            None => r is Ok,
        },
{
    let ghost ps = texts(paths@);
    let mut i: usize = 0;
    while i < paths.len()
        invariant
            i <= paths@.len(),
            ps == texts(paths@),
            paths_fault_upto(workspace.root_text(), workspace.home_text(), ps, i as int) is None,
        decreases paths.len() - i,
    {
        match validate_git_path(workspace, paths[i].as_str()) {
            Err(e) => {
                proof {
                    assert(ps[i as int] == paths@[i as int]@);
                    lemma_paths_fault_sticks(workspace.root_text(), workspace.home_text(), ps, i + 1, ps.len() as int);
                }
                return Err(e);
            },
            Ok(_) => {},
        }
        i += 1;
    }
    Ok(())
}

proof fn lemma_paths_fault_sticks(
    root: Seq<char>,
    home: Option<Seq<char>>,
    paths: Seq<Seq<char>>,
    i: int,
    j: int,
)
    requires
        0 <= i <= j,
        paths_fault_upto(root, home, paths, i) is Some,
    ensures
        paths_fault_upto(root, home, paths, j) == paths_fault_upto(root, home, paths, i),
    decreases j - i,
{
    if j > i {
        lemma_paths_fault_sticks(root, home, paths, i, j - 1);
    }
}

/// An entry's status names the change its codes show, in the words its
/// description uses. Unless a code marks it unmerged, renamed, copied or
/// type-changed, the status is the change of the worktree code when that is
/// set, else of the index code (`A` added, `D` deleted, `?` untracked, `!`
/// ignored, any other modified); an entry changed on one side only is
/// described by its status, capitalized, and that side.
pub proof fn lemma_status_follows_codes(x: char, y: char)
    ensures
        (x == 'U' || y == 'U') ==> status_of(x, y) == "unmerged"@,
        !(x == 'U' || y == 'U') && (x == 'R' || y == 'R') ==> status_of(x, y) == "renamed"@,
        !(x == 'U' || y == 'U' || x == 'R' || y == 'R') && (x == 'C' || y == 'C') ==> status_of(x, y)
            == "copied"@,
        !(x == 'U' || y == 'U' || x == 'R' || y == 'R' || x == 'C' || y == 'C' || x == 'T' || y == 'T')
            ==> ({
            let c = if y != ' ' {
                y
            } else {
                x
            };
            &&& status_of(x, y) == side_word(c)
            &&& c == 'A' ==> status_of(x, y) == "added"@
            &&& c == 'D' ==> status_of(x, y) == "deleted"@
            &&& c == '?' ==> status_of(x, y) == "untracked"@
            &&& c == '!' ==> status_of(x, y) == "ignored"@
            &&& (c != 'A' && c != 'D' && c != '?' && c != '!') ==> status_of(x, y) == "modified"@
            &&& (x == ' ' && y != ' ') ==> state_text(x, y) == capitalized(status_of(x, y))
                + " in worktree"@
            &&& (y == ' ' && x != ' ' && x != '?' && x != '!') ==> state_text(x, y) == capitalized(
                status_of(x, y),
            ) + " in index"@
        }),
{
}

} // verus!
