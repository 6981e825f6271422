//! The shell tool's guard on `cd`: a command may only change into the
//! workspace or `/tmp`.
use vstd::prelude::*;
use crate::text::{
    chars_of, trim, trim_start, words, words_exec, find, find_in, lemma_find_from_facts, lines_of,
    lines_chars, split_on, split_chars, string_of, string_push, push_chars,
    slice_range, trim_bounds, skip_ws_forward, starts_with, seq_eq,
};
use crate::workspace::{Workspace, normalized, within, joined, normalize, path_within, join_path};

verus! {

broadcast use vstd::string::group_string_axioms;

/// The number of leading quote characters (`'` or `"`).
pub open spec fn lead_quotes(s: Seq<char>) -> nat
    decreases s.len(),
{
    if s.len() > 0 && (s[0] == '\'' || s[0] == '"') {
        1 + lead_quotes(s.drop_first())
    } else {
        0
    }
}

/// The number of trailing quote characters.
pub open spec fn trail_quotes(s: Seq<char>) -> nat
    decreases s.len(),
{
    if s.len() > 0 && (s.last() == '\'' || s.last() == '"') {
        1 + trail_quotes(s.drop_last())
    } else {
        0
    }
}

/// `s` without its leading and trailing quote characters.
pub open spec fn unquote_marker(s: Seq<char>) -> Seq<char> {
    let a = lead_quotes(s);
    if a >= s.len() {
        Seq::empty()
    } else {
        s.subrange(a as int, s.len() - trail_quotes(s))
    }
}

proof fn lemma_lead_quotes(s: Seq<char>, i: int)
    requires
        0 <= i <= s.len(),
        forall|k: int| 0 <= k < i ==> s[k] == '\'' || s[k] == '"',
        i == s.len() || (s[i] != '\'' && s[i] != '"'),
    ensures
        lead_quotes(s) == i,
    decreases i,
{
    if i > 0 {
        lemma_lead_quotes(s.drop_first(), i - 1);
    }
}

proof fn lemma_trail_quotes(s: Seq<char>, i: int)
    requires
        0 <= i <= s.len(),
        forall|k: int| s.len() - i <= k < s.len() ==> s[k] == '\'' || s[k] == '"',
        i == s.len() || (s[s.len() - 1 - i] != '\'' && s[s.len() - 1 - i] != '"'),
    ensures
        trail_quotes(s) == i,
    decreases i,
{
    if i > 0 {
        lemma_trail_quotes(s.drop_last(), i - 1);
    }
}

/// The marker of a here-document that a line opens: the first word after
/// `<<`, without quotes, when it is not empty.
pub open spec fn heredoc_marker(line: Seq<char>) -> Option<Seq<char>> {
    match find(line, seq!['<', '<']) {
        None => None,
        Some(k) => {
            let ws = words(trim_start(line.skip(k + 2)));
            if ws.len() == 0 {
                None
            } else {
                let m = unquote_marker(ws[0]);
                if m.len() == 0 {
                    None
                } else {
                    Some(m)
                }
            }
        },
    }
}

/// The marker of a here-document that a line opens.
pub fn heredoc_marker_exec(line: &[char]) -> (r: Option<Vec<char>>)
    ensures
        match heredoc_marker(line@) {
            Some(m) => r matches Some(v) && v@ == m,
            None => r is None,
        },
{
    let pat: Vec<char> = vec!['<', '<'];
    assert(pat@ =~= seq!['<', '<']);
    let k = match find_in(line, &pat) {
        Some(k) => k,
        None => {
            return None;
        },
    };
    proof {
        lemma_find_from_facts(line@, pat@, 0);
    }
    assert(k + 2 <= line.len());
    let rest = slice_range(line, k + 2, line.len());
    assert(rest@ == line@.skip(k + 2));
    let a = skip_ws_forward(&rest, 0, rest.len());
    let t = slice_range(&rest, a, rest.len());
    proof {
        assert(rest@.subrange(0, rest@.len() as int) == rest@);
        assert(t@ == trim_start(rest@));
    }
    let ws = words_exec(&t);
    if ws.len() == 0 {
        return None;
    }
    let w = &ws[0];
    assert(w@ == words(t@)[0]);
    let mut i: usize = 0;
    while i < w.len() && (w[i] == '\'' || w[i] == '"')
        invariant
            i <= w@.len(),
            forall|k: int| 0 <= k < i ==> w@[k] == '\'' || w@[k] == '"',
        decreases w.len() - i,
    {
        i += 1;
    }
    proof {
        lemma_lead_quotes(w@, i as int);
    }
    if i >= w.len() {
        return None;
    }
    let mut j: usize = 0;
    while j < w.len() - i && (w[w.len() - 1 - j] == '\'' || w[w.len() - 1 - j] == '"')
        invariant
            i < w@.len(),
            j <= w@.len() - i,
            forall|k: int| w@.len() - j <= k < w@.len() ==> w@[k] == '\'' || w@[k] == '"',
        decreases w.len() - i - j,
    {
        j += 1;
    }
    proof {
        if j == w@.len() - i {
            assert(w@[i as int] != '\'' && w@[i as int] != '"');
            assert(w@[w@.len() - j] == '\'' || w@[w@.len() - j] == '"');
        }
        lemma_trail_quotes(w@, j as int);
    }
    let m = slice_range(w, i, w.len() - j);
    if m.len() == 0 {
        None
    } else {
        Some(m)
    }
}

/// Where the removal of here-document bodies stands after some lines: the
/// text kept so far, and the marker of the here-document being skipped.
pub struct HereState {
    pub out: Seq<char>,
    pub marker: Option<Seq<char>>,
}

/// What one more line does: outside a here-document it is kept and may open
/// one; inside, only the line that closes it is kept.
pub open spec fn here_step(st: HereState, line: Seq<char>) -> HereState {
    match st.marker {
        None => HereState { out: st.out + line + seq!['\n'], marker: heredoc_marker(line) },
        Some(m) => if trim(line) == m {
            HereState { out: st.out + line + seq!['\n'], marker: None }
        } else {
            st
        },
    }
}

/// The state after the given lines.
pub open spec fn here_fold(lines: Seq<Seq<char>>) -> HereState
    decreases lines.len(),
{
    if lines.len() == 0 {
        HereState { out: Seq::empty(), marker: None }
    } else {
        here_step(here_fold(lines.drop_last()), lines.last())
    }
}

/// A command with the bodies of its here-documents left out, each line
/// ended by a newline.
pub open spec fn without_heredocs(command: Seq<char>) -> Seq<char> {
    here_fold(lines_of(command)).out
}

/// Leaves the bodies of here-documents out of a command.
pub fn strip_heredoc_bodies(command: &str) -> (r: String)
    ensures
        r@ == without_heredocs(command@),
{
    let v = chars_of(command);
    let lines = lines_chars(&v);
    let ghost ls = lines_of(command@);
    let mut out = String::new();
    let mut marker: Option<Vec<char>> = None;
    let mut i: usize = 0;
    assert(ls.take(0) =~= Seq::<Seq<char>>::empty());
    while i < lines.len()
        invariant
            i <= lines@.len(),
            ls == lines_of(command@),
            lines@.len() == ls.len(),
            forall|k: int| 0 <= k < lines@.len() ==> #[trigger] lines@[k]@ == ls[k],
            out@ == here_fold(ls.take(i as int)).out,
            match here_fold(ls.take(i as int)).marker {
                Some(m) => marker matches Some(x) && x@ == m,
                None => marker is None,
            },
        decreases lines.len() - i,
    {
        let line = &lines[i];
        proof {
            assert(ls.take(i + 1).drop_last() == ls.take(i as int));
            assert(ls.take(i + 1).last() == line@);
        }
        match &marker {
            None => {
                push_chars(&mut out, line.as_slice());
                string_push(&mut out, '\n');
                marker = heredoc_marker_exec(line.as_slice());
            },
            Some(m) => {
                let (a, b) = trim_bounds(line, 0, line.len());
                let t = slice_range(line, a, b);
                assert(line@.subrange(0, line@.len() as int) == line@);
                if seq_eq(t.as_slice(), m.as_slice()) {
                    push_chars(&mut out, line.as_slice());
                    string_push(&mut out, '\n');
                    marker = None;
                }
            },
        }
        i += 1;
    }
    assert(ls.take(ls.len() as int) == ls);
    out
}

/// `s` with every `p0 p1` pair replaced by a newline, left to right.
pub open spec fn replace_pair(s: Seq<char>, p0: char, p1: char) -> Seq<char>
    decreases s.len(),
{
    if s.len() == 0 {
        Seq::empty()
    } else if s.len() >= 2 && s[0] == p0 && s[1] == p1 {
        seq!['\n'] + replace_pair(s.skip(2), p0, p1)
    } else {
        seq![s[0]] + replace_pair(s.skip(1), p0, p1)
    }
}

/// `s` with every `c` replaced by a newline.
pub open spec fn replace_one(s: Seq<char>, c: char) -> Seq<char> {
    s.map_values(|x: char| if x == c { '\n' } else { x })
}

/// A command with each `&&`, `||`, `|`, `;` and carriage return replaced by
/// a newline, so that every simple command stands on a line of its own.
pub open spec fn separated(s: Seq<char>) -> Seq<char> {
    replace_one(replace_one(replace_one(replace_pair(replace_pair(s, '&', '&'), '|', '|'), '|'), ';'), '\r')
}

/// Replaces every `p0 p1` pair by a newline.
fn replace_pair_exec(s: &Vec<char>, p0: char, p1: char) -> (r: Vec<char>)
    ensures
        r@ == replace_pair(s@, p0, p1),
{
    let mut out: Vec<char> = Vec::new();
    let mut i: usize = 0;
    assert(s@.skip(0) == s@);
    while i < s.len()
        invariant
            i <= s@.len(),
            out@ + replace_pair(s@.skip(i as int), p0, p1) == replace_pair(s@, p0, p1),
        decreases s.len() - i,
    {
        let ghost rest = s@.skip(i as int);
        if i + 1 < s.len() && s[i] == p0 && s[i + 1] == p1 {
            proof {
                assert(rest[0] == p0 && rest[1] == p1);
                assert(rest.skip(2) == s@.skip(i + 2));
            }
            out.push('\n');
            proof {
                assert(out@ + replace_pair(s@.skip(i + 2), p0, p1) =~= replace_pair(s@, p0, p1));
            }
            i += 2;
        } else {
            proof {
                assert(rest[0] == s@[i as int]);
                assert(rest.skip(1) == s@.skip(i + 1));
                if rest.len() >= 2 {
                    assert(rest[1] == s@[i + 1]);
                }
            }
            out.push(s[i]);
            proof {
                assert(out@ + replace_pair(s@.skip(i + 1), p0, p1) =~= replace_pair(s@, p0, p1));
            }
            i += 1;
        }
    }
    assert(s@.skip(i as int) =~= Seq::<char>::empty());
    assert(out@ + Seq::<char>::empty() =~= out@);
    out
}

/// Replaces every `c` by a newline.
fn replace_one_exec(s: &Vec<char>, c: char) -> (r: Vec<char>)
    ensures
        r@ == replace_one(s@, c),
{
    let mut out: Vec<char> = Vec::new();
    let mut i: usize = 0;
    while i < s.len()
        invariant
            i <= s@.len(),
            out@ == replace_one(s@.take(i as int), c),
        decreases s.len() - i,
    {
        if s[i] == c {
            out.push('\n');
        } else {
            out.push(s[i]);
        }
        assert(replace_one(s@.take(i + 1), c) =~= replace_one(s@.take(i as int), c).push(
            if s@[i as int] == c {
                '\n'
            } else {
                s@[i as int]
            },
        ));
        i += 1;
    }
    assert(s@.take(s@.len() as int) == s@);
    out
}

/// Puts every simple command of a command on a line of its own.
pub fn split_shell_separators(command: &str) -> (r: String)
    ensures
        r@ == separated(command@),
{
    let v = chars_of(command);
    let a = replace_pair_exec(&v, '&', '&');
    let b = replace_pair_exec(&a, '|', '|');
    let c = replace_one_exec(&b, '|');
    let d = replace_one_exec(&c, ';');
    let e = replace_one_exec(&d, '\r');
    string_of(e.as_slice())
}

/// Why a command's `cd` is refused.
#[derive(Clone, Debug)]
pub enum ShellError {
    /// `cd` with no directory (it would go home).
    CdWithoutArg,
    /// `cd ~` while the home directory is unknown.
    CdHome,
    /// `cd ~/...` while the home directory is unknown.
    CdHomePath,
    /// A `cd` out of the workspace and `/tmp`.
    CdOutside { path: String },
}

/// The mathematical content of a `ShellError`.
pub enum ShellFault {
    CdWithoutArg,
    CdHome,
    CdHomePath,
    CdOutside { path: Seq<char> },
}

impl ShellError {
    pub open spec fn view(&self) -> ShellFault {
        match self {
            ShellError::CdWithoutArg => ShellFault::CdWithoutArg,
            ShellError::CdHome => ShellFault::CdHome,
            ShellError::CdHomePath => ShellFault::CdHomePath,
            ShellError::CdOutside { path } => ShellFault::CdOutside { path: path@ },
        }
    }

    /// The message that describes the error.
    pub fn message(&self) -> (r: String)
        ensures
            r@ == shell_fault_text(self@),
    {
        let mut out = String::new();
        match self {
            ShellError::CdWithoutArg => out.append("cd without argument is not allowed (would go to $HOME). Use a relative path within the workspace (e.g., ./foo) or /tmp.",
            ),
            ShellError::CdHome => out.append("cd to ~ is not allowed. Use a relative path within the workspace (e.g., ./foo) or /tmp.",
            ),
            ShellError::CdHomePath => out.append("cd to ~/... is not allowed. Use a relative path within the workspace (e.g., ./foo) or /tmp.",
            ),
            ShellError::CdOutside { path } => {
                out.append("cd to ");
                out.append(path.as_str());
                out.append(" is not allowed. You cannot cd outside the workspace or /tmp. Use relative paths within the workspace (e.g., ./foo or foo).",
                );
            },
        }
        out
    }
}

/// The message that describes a refused `cd`.
pub open spec fn shell_fault_text(f: ShellFault) -> Seq<char> {
    match f {
        ShellFault::CdWithoutArg =>
            "cd without argument is not allowed (would go to $HOME). Use a relative path within the workspace (e.g., ./foo) or /tmp."@,
        ShellFault::CdHome =>
            "cd to ~ is not allowed. Use a relative path within the workspace (e.g., ./foo) or /tmp."@,
        ShellFault::CdHomePath =>
            "cd to ~/... is not allowed. Use a relative path within the workspace (e.g., ./foo) or /tmp."@,
        ShellFault::CdOutside { path } => "cd to "@ + path
            + " is not allowed. You cannot cd outside the workspace or /tmp. Use relative paths within the workspace (e.g., ./foo or foo)."@,
    }
}

/// Where `cd path` goes from `cwd`: home for `~`, under home for `~/...`,
/// the path itself when absolute, else under `cwd`.
pub open spec fn cd_target(cwd: Seq<char>, home: Option<Seq<char>>, path: Seq<char>) -> Result<
    Seq<char>,
    ShellFault,
> {
    if path == seq!['~'] {
        match home {
            Some(h) => Ok(h),
            None => Err(ShellFault::CdHome),
        }
    } else if starts_with(path, seq!['~', '/']) {
        match home {
            Some(h) => Ok(joined(h, path.skip(2))),
            None => Err(ShellFault::CdHomePath),
        }
    } else if path.len() > 0 && path[0] == '/' {
        Ok(path)
    } else {
        Ok(joined(cwd, path))
    }
}

/// Where `cd path` goes from `cwd`.
pub fn resolve_cd_target(cwd: &str, home: &Option<String>, path: &str) -> (r: Result<String, ShellError>)
    ensures
        match cd_target(cwd@, match home {
            Some(h) => Some(h@),
            None => None::<Seq<char>>,
        }, path@) {
            Ok(t) => r matches Ok(s) && s@ == t,
            Err(f) => r matches Err(e) && e@ == f,
        },
{
    let v = chars_of(path);
    if v.len() == 1 && v[0] == '~' {
        assert(path@ =~= seq!['~']);
        return match home {
            Some(h) => Ok(h.clone()),
            None => Err(ShellError::CdHome),
        };
    }
    assert(path@ != seq!['~']) by {
        if path@ == seq!['~'] {
            assert(v@.len() == 1 && v@[0] == '~');
        }
    }
    let tilde = v.len() >= 2 && v[0] == '~' && v[1] == '/';
    proof {
        if tilde {
            assert(v@.subrange(0, 2) =~= seq!['~', '/']);
        } else if starts_with(path@, seq!['~', '/']) {
            assert(v@[0] == seq!['~', '/'][0]);
            assert(v@[1] == seq!['~', '/'][1]);
        }
    }
    if tilde {
        return match home {
            Some(h) => {
                let rest = string_of(&slice_range(&v, 2, v.len()));
                assert(v@.subrange(2, v@.len() as int) == path@.skip(2));
                Ok(join_path(h.as_str(), rest.as_str()))
            },
            None => Err(ShellError::CdHomePath),
        };
    }
    if v.len() > 0 && v[0] == '/' {
        return Ok(path.to_string());
    }
    Ok(join_path(cwd, path))
}

/// What one line of a command does to the state of the check: a `cd` moves
/// the current directory, and is refused when it leaves the workspace and
/// `/tmp`.
pub open spec fn cd_step(
    st: Result<Seq<char>, ShellFault>,
    line: Seq<char>,
    root: Seq<char>,
    home: Option<Seq<char>>,
) -> Result<Seq<char>, ShellFault> {
    match st {
        Err(e) => Err(e),
        Ok(cwd) => {
            let ws = words(line);
            if ws.len() > 0 && ws[0] == seq!['c', 'd'] {
                let p = if ws.len() > 1 {
                    ws[1]
                } else {
                    Seq::empty()
                };
                if p.len() == 0 {
                    Err(ShellFault::CdWithoutArg)
                } else {
                    match cd_target(cwd, home, p) {
                        Err(e) => Err(e),
                        Ok(t) => {
                            let n = normalized(t);
                            if within(n, root) || within(n, seq!['/', 't', 'm', 'p']) {
                                Ok(n)
                            } else {
                                Err(ShellFault::CdOutside { path: p })
                            }
                        },
                    }
                }
            } else {
                Ok(cwd)
            }
        },
    }
}

/// The state of the check after the given lines, starting at the root.
pub open spec fn cd_fold(lines: Seq<Seq<char>>, root: Seq<char>, home: Option<Seq<char>>) -> Result<
    Seq<char>,
    ShellFault,
>
    decreases lines.len(),
{
    if lines.len() == 0 {
        Ok(root)
    } else {
        cd_step(cd_fold(lines.drop_last(), root, home), lines.last(), root, home)
    }
}

/// Once a `cd` is refused, the whole command is.
proof fn lemma_cd_fold_err(
    ls: Seq<Seq<char>>,
    root: Seq<char>,
    home: Option<Seq<char>>,
    i: int,
    j: int,
)
    requires
        0 <= i <= j <= ls.len(),
        cd_fold(ls.take(i), root, home) is Err,
    ensures
        cd_fold(ls.take(j), root, home) == cd_fold(ls.take(i), root, home),
    decreases j - i,
{
    if j > i {
        lemma_cd_fold_err(ls, root, home, i, j - 1);
        assert(ls.take(j).drop_last() == ls.take(j - 1));
    }
}

/// Why a command's directory changes are refused, if they are.
pub open spec fn cds_fault(root: Seq<char>, home: Option<Seq<char>>, command: Seq<char>) -> Option<
    ShellFault,
> {
    match cd_fold(split_on(separated(without_heredocs(command)), '\n'), root, home) {
        Ok(_) => None,
        Err(e) => Some(e),
    }
}

/// Follows the `cd`s of a shell command from the workspace root and refuses
/// the command when one of them leaves the workspace and `/tmp`
/// (here-document bodies are not commands and are not followed).
pub fn check_bash_cds(workspace: &Workspace, command: &str) -> (r: Result<(), ShellError>)
    ensures
        match cds_fault(workspace.root_text(), workspace.home_text(), command@) {
            Some(f) => r matches Err(e) && e@ == f,
            None => r is Ok,
        },
{
    let stripped = strip_heredoc_bodies(command);
    let cmd = split_shell_separators(stripped.as_str());
    let cv = chars_of(cmd.as_str());
    let lines = split_chars(&cv, '\n');
    let ghost ls = split_on(cmd@, '\n');
    let ghost root = workspace.root_text();
    let ghost home = workspace.home_text();
    let home_dir = workspace.home_dir();
    let mut cwd = workspace.root().to_string();
    let mut i: usize = 0;
    assert(ls.take(0) =~= Seq::<Seq<char>>::empty());
    while i < lines.len()
        invariant
            i <= lines@.len(),
            ls == split_on(cmd@, '\n'),
            ls == split_on(separated(without_heredocs(command@)), '\n'),
            lines@.len() == ls.len(),
            forall|k: int| 0 <= k < lines@.len() ==> #[trigger] lines@[k]@ == ls[k],
            root == workspace.root_text(),
            home == workspace.home_text(),
            home == match home_dir {
                Some(h) => Some(h@),
                None => None::<Seq<char>>,
            },
            cd_fold(ls.take(i as int), root, home) == Ok::<Seq<char>, ShellFault>(cwd@),
        decreases lines.len() - i,
    {
        let line = &lines[i];
        proof {
            assert(ls.take(i + 1).drop_last() == ls.take(i as int));
            assert(ls.take(i + 1).last() == line@);
        }
        let ws = words_exec(line.as_slice());
        if ws.len() > 0 && ws[0].len() == 2 && ws[0][0] == 'c' && ws[0][1] == 'd' {
            assert(ws@[0]@ =~= seq!['c', 'd']);
            assert(ws@[0]@ == words(line@)[0]);
            let empty: Vec<char> = Vec::new();
            let p = if ws.len() > 1 {
                string_of(ws[1].as_slice())
            } else {
                string_of(empty.as_slice())
            };
            proof {
                if ws.len() > 1 {
                    assert(ws@[1]@ == words(line@)[1]);
                }
                assert(empty@ =~= Seq::<char>::empty());
            }
            if p.as_str().is_empty() {
                proof {
                    assert(cd_fold(ls.take(i + 1), root, home) == Err::<Seq<char>, ShellFault>(
                        ShellFault::CdWithoutArg,
                    ));
                    lemma_cd_fold_err(ls, root, home, i + 1, ls.len() as int);
                    assert(ls.take(ls.len() as int) == ls);
                }
                return Err(ShellError::CdWithoutArg);
            }
            let target = match resolve_cd_target(cwd.as_str(), &home_dir, p.as_str()) {
                Ok(t) => t,
                Err(e) => {
                    proof {
                        assert(cd_fold(ls.take(i + 1), root, home) == Err::<Seq<char>, ShellFault>(
                            e@,
                        ));
                        lemma_cd_fold_err(ls, root, home, i + 1, ls.len() as int);
                        assert(ls.take(ls.len() as int) == ls);
                    }
                    return Err(e);
                },
            };
            let norm = normalize(target.as_str());
            let in_ws = path_within(norm.as_str(), workspace.root());
            let tmp = string_of(&['/', 't', 'm', 'p']);
            assert(tmp@ =~= seq!['/', 't', 'm', 'p']);
            let in_tmp = path_within(norm.as_str(), tmp.as_str());
            if !in_ws && !in_tmp {
                proof {
                    lemma_cd_fold_err(ls, root, home, i + 1, ls.len() as int);
                    assert(ls.take(ls.len() as int) == ls);
                }
                return Err(ShellError::CdOutside { path: p });
            }
            cwd = norm;
        } else {
            proof {
                if words(line@).len() > 0 && words(line@)[0] == seq!['c', 'd'] {
                    assert(ws@[0]@ == words(line@)[0]);
                    assert(ws@[0]@.len() == 2);
                    assert(ws@[0]@[0] == 'c' && ws@[0]@[1] == 'd');
                }
            }
        }
        i += 1;
    }
    assert(ls.take(ls.len() as int) == ls);
    Ok(())
}

/// Every `cd` that the check lets through leaves the command in the
/// workspace or in `/tmp`.
pub proof fn lemma_cd_stays_inside(lines: Seq<Seq<char>>, root: Seq<char>, home: Option<Seq<char>>)
    ensures
        cd_fold(lines, root, home) matches Ok(cwd) ==> cwd == root || within(cwd, root) || within(
            cwd,
            seq!['/', 't', 'm', 'p'],
        ),
    decreases lines.len(),
{
    if lines.len() > 0 {
        lemma_cd_stays_inside(lines.drop_last(), root, home);
    }
}

} // verus!
