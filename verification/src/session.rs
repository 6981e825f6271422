//! Where sessions are kept, which session ids are accepted, and how a stored
//! session is read back line by line.
use vstd::prelude::*;
use crate::text::{
    chars_of, push_decimal, push_hex_padded, decimal, hex, zero_padded, lines_of,
    lines_chars, trim, trim_bounds, string_of,
};
use crate::workspace::{Workspace, joined, join_path};

verus! {

broadcast use vstd::string::group_string_axioms;

/// Why a session is not opened.
#[derive(Clone, Debug)]
pub enum SessionError {
    /// The id is empty or holds a character other than an ASCII letter,
    /// digit or dash.
    InvalidId { id: String },
}

impl SessionError {
    /// The error as it is shown.
    pub fn message(&self) -> (r: String)
        ensures
            r@ == "invalid session id: "@ + match self {
                SessionError::InvalidId { id } => id@,
            },
    {
        match self {
            SessionError::InvalidId { id } => {
                let mut s = String::new();
                s.append("invalid session id: ");
                s.append(id.as_str());
                s
            },
        }
    }
}

/// The file a session is stored in, under the workspace root.
pub open spec fn session_path(root: Seq<char>, id: Seq<char>) -> Seq<char> {
    joined(joined(root, ".ogent/sessions"@), id + ".jsonl"@)
}

/// The file a session is stored in.
pub fn session_file_in(workspace: &Workspace, session_id: &str) -> (r: String)
    ensures
        r@ == session_path(workspace.root_text(), session_id@),
{
    let dir = join_path(workspace.root(), ".ogent/sessions");
    let mut file = String::new();
    file.append(session_id);
    file.append(".jsonl");
    join_path(dir.as_str(), file.as_str())
}

/// A character allowed in a session id.
pub open spec fn id_char(c: char) -> bool {
    ('0' <= c && c <= '9') || ('a' <= c && c <= 'z') || ('A' <= c && c <= 'Z') || c == '-'
}

/// Whether a session id is accepted: non-empty, of ASCII letters, digits and
/// dashes only (so it cannot name a path elsewhere).
pub open spec fn valid_session_id(id: Seq<char>) -> bool {
    id.len() > 0 && forall|i: int| 0 <= i < id.len() ==> id_char(#[trigger] id[i])
}

/// Checks a session id.
pub fn ensure_valid_session_id(session_id: &str) -> (r: Result<(), SessionError>)
    ensures
        r is Ok <==> valid_session_id(session_id@),
        r matches Err(SessionError::InvalidId { id }) ==> id@ == session_id@,
{
    let v = chars_of(session_id);
    let mut ok = v.len() > 0;
    let mut i: usize = 0;
    while i < v.len()
        invariant
            i <= v@.len(),
            v@ == session_id@,
            ok == (v@.len() > 0 && forall|k: int| 0 <= k < i ==> id_char(#[trigger] v@[k])),
        decreases v.len() - i,
    {
        let c = v[i];
        if !(('0' <= c && c <= '9') || ('a' <= c && c <= 'z') || ('A' <= c && c <= 'Z') || c
            == '-') {
            ok = false;
        }
        i += 1;
    }
    if ok {
        Ok(())
    } else {
        Err(SessionError::InvalidId { id: session_id.to_string() })
    }
}

/// The non-blank lines of a stored session, each with its 1-based number.
pub open spec fn numbered_lines(data: Seq<char>) -> Seq<(int, Seq<char>)> {
    let ls = lines_of(data);
    Seq::new(ls.len(), |i: int| (i + 1, ls[i])).filter(|p: (int, Seq<char>)| trim(p.1).len() > 0)
}

/// The non-blank lines of a stored session with their 1-based numbers; each
/// holds one message.
pub fn session_lines(data: &str) -> (r: Vec<(usize, String)>)
    ensures
        r@.map_values(|p: (usize, String)| (p.0 as int, p.1@)) == numbered_lines(data@),
{
    let v = chars_of(data);
    let ls = lines_chars(v.as_slice());
    let ghost lv = lines_of(data@);
    let ghost all = Seq::new(lv.len(), |i: int| (i + 1, lv[i]));
    let mut r: Vec<(usize, String)> = Vec::new();
    let mut i: usize = 0;
    proof {
        assert(all.take(0).filter(|p: (int, Seq<char>)| trim(p.1).len() > 0) =~= Seq::empty());
    }
    while i < ls.len()
        invariant
            i <= ls@.len(),
            v@ == data@,
            ls@.len() == lv.len(),
            lv == lines_of(data@),
            all == Seq::new(lv.len(), |i: int| (i + 1, lv[i])),
            forall|k: int| 0 <= k < ls@.len() ==> #[trigger] ls@[k]@ == lv[k],
            r@.map_values(|p: (usize, String)| (p.0 as int, p.1@)) == all.take(i as int).filter(
                |p: (int, Seq<char>)| trim(p.1).len() > 0,
            ),
        decreases ls.len() - i,
    {
        let (a, b) = trim_bounds(ls[i].as_slice(), 0, ls[i].len());
        proof {
            assert(ls@[i as int]@.subrange(0, ls@[i as int]@.len() as int) =~= ls@[i as int]@);
            assert(all.take(i + 1) =~= all.take(i as int).push(all[i as int]));
        }
        let ghost before = r@;
        if a < b {
            r.push((i + 1, string_of(ls[i].as_slice())));
            proof {
                assert(r@.map_values(|p: (usize, String)| (p.0 as int, p.1@)) =~= before.map_values(
                    |p: (usize, String)| (p.0 as int, p.1@),
                ).push((i + 1, lv[i as int])));
            }
        }
        proof {
            reveal(Seq::filter);
            let pred = |p: (int, Seq<char>)| trim(p.1).len() > 0;
            let t1 = all.take(i + 1);
            assert(t1.drop_last() =~= all.take(i as int));
            assert(t1.last() == (i + 1, lv[i as int]));
            assert(trim(lv[i as int]) == ls@[i as int]@.subrange(a as int, b as int));
            assert(t1.filter(pred) == if pred(t1.last()) {
                t1.drop_last().filter(pred).push(t1.last())
            } else {
                t1.drop_last().filter(pred)
            });
        }
        i += 1;
    }
    proof {
        assert(all.take(ls@.len() as int) =~= all);
    }
    r
}

/// A session id made of the time in seconds, the process id (at least four
/// hexadecimal digits), the nanoseconds of the time and a counter (both
/// hexadecimal).
pub open spec fn session_id_text(secs: u64, pid: u32, nanos: u32, nonce: u64) -> Seq<char> {
    decimal(secs as nat) + seq!['-'] + zero_padded(hex(pid as nat), 4) + seq!['-'] + hex(
        nanos as nat,
    ) + seq!['-'] + hex(nonce as nat)
}

/// Formats a session id.
pub fn format_session_id(secs: u64, pid: u32, nanos: u32, nonce: u64) -> (r: String)
    ensures
        r@ == session_id_text(secs, pid, nanos, nonce),
{
    let mut s = String::new();
    push_decimal(&mut s, secs);
    crate::text::string_push(&mut s, '-');
    push_hex_padded(&mut s, pid as u64, 4);
    crate::text::string_push(&mut s, '-');
    push_hex_padded(&mut s, nanos as u64, 0);
    crate::text::string_push(&mut s, '-');
    push_hex_padded(&mut s, nonce, 0);
    proof {
        assert(zero_padded(hex(nanos as nat), 0) == hex(nanos as nat));
        assert(zero_padded(hex(nonce as nat), 0) == hex(nonce as nat));
    }
    s
}

} // verus!
