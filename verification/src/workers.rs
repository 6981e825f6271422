//! The prompts a worker agent starts with.
use vstd::prelude::*;
use crate::text::{chars_of, trim, trim_bounds, slice_range, string_of};
use crate::types::{Message, MessageOrigin, Role, plain};

verus! {

broadcast use vstd::string::group_string_axioms;

/// A text trimmed.
fn trimmed(s: &str) -> (r: String)
    ensures
        r@ == trim(s@),
{
    let v = chars_of(s);
    let (a, b) = trim_bounds(v.as_slice(), 0, v.len());
    proof {
        assert(v@.subrange(0, v@.len() as int) =~= v@);
    }
    string_of(slice_range(v.as_slice(), a, b).as_slice())
}

/// A worker's system prompt: the base prompt, then the extra section when
/// it is not blank, both trimmed and a blank line apart.
pub open spec fn worker_system_prompt(base: Seq<char>, extra: Option<Seq<char>>) -> Seq<char> {
    match extra {
        Some(e) => if trim(e).len() > 0 {
            trim(base) + "\n\n"@ + trim(e)
        } else {
            trim(base)
        },
        None => trim(base),
    }
}

/// A worker's system prompt.
pub fn compose_worker_system_prompt(base_prompt: &str, extra_section: Option<&str>) -> (r: String)
    ensures
        r@ == worker_system_prompt(
            base_prompt@,
            match extra_section {
                Some(e) => Some(e@),
                None => None,
            },
        ),
{
    let mut s = trimmed(base_prompt);
    match extra_section {
        Some(e) => {
            let t = trimmed(e);
            if !t.as_str().is_empty() {
                s.append("\n\n");
                s.append(t.as_str());
            }
        },
        None => {},
    }
    s
}

/// A worker's system prompt and task: the system prompt with a context
/// section (the trimmed context under `## Context`), and the trimmed task.
pub fn resolve_worker_prompt(system_prompt: &str, task: &str, context: &str) -> (r: (String, String))
    ensures
        r.0@ == worker_system_prompt(system_prompt@, Some("## Context\n\n"@ + trim(context@))),
        r.1@ == trim(task@),
{
    let mut section = String::new();
    section.append("## Context\n\n");
    let c = trimmed(context);
    section.append(c.as_str());
    (compose_worker_system_prompt(system_prompt, Some(section.as_str())), trimmed(task))
}

/// The task message of a worker: the session it runs in, a blank line, then
/// the prompt.
pub open spec fn worker_task_text(session_id: Seq<char>, prompt: Seq<char>) -> Seq<char> {
    "[session: "@ + session_id + "]\n\n"@ + prompt
}

/// The messages a worker starts with: its system prompt, then the task from
/// the human, last.
pub fn build_worker_messages(system_prompt: &str, prompt: &str, session_id: &str) -> (r: Vec<Message>)
    ensures
        r@.len() == 2,
        r@[0].role == Role::System && r@[0].content@ == system_prompt@ && r@[0].origin
            == MessageOrigin::Internal && plain(r@[0]),
        r@[1].role == Role::User && r@[1].content@ == worker_task_text(session_id@, prompt@)
            && r@[1].origin == MessageOrigin::Human && plain(r@[1]),
{
    let mut task = String::new();
    task.append("[session: ");
    task.append(session_id);
    task.append("]\n\n");
    task.append(prompt);
    let mut r: Vec<Message> = Vec::new();
    r.push(Message::system(system_prompt.to_string()));
    r.push(Message::user(task, MessageOrigin::Human));
    r
}

} // verus!
