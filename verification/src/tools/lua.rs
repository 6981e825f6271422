//! The argument checks of the functions that agent code calls: `task_update`,
//! `agent` and `apply_anchor_edits`, and what a finished subagent answers.
use vstd::prelude::*;
use crate::types::{Message, Role};

verus! {

broadcast use vstd::string::group_string_axioms;

/// How deeply subagents may nest.
pub const MAX_AGENT_DEPTH: u32 = 3;

/// An argument handed to a tool function, by what the checks read of it.
#[derive(Clone, Debug)]
pub enum LuaArg {
    /// A string.
    Str(String),
    /// A table.
    Table,
    /// Any other value, `nil` among them.
    Other,
}

/// The text of a string argument at `i`, if there is one.
pub open spec fn str_arg(args: Seq<LuaArg>, i: int) -> Option<Seq<char>> {
    if 0 <= i < args.len() {
        match args[i] {
            LuaArg::Str(s) => Some(s@),
            _ => None,
        }
    } else {
        None
    }
}

/// Whether the argument at `i` is a table.
pub open spec fn table_arg(args: Seq<LuaArg>, i: int) -> bool {
    0 <= i < args.len() && args[i] is Table
}

/// The string argument at `i`, if there is one.
fn string_at(args: &Vec<LuaArg>, i: usize) -> (r: Option<String>)
    ensures
        match r {
            Some(s) => str_arg(args@, i as int) == Some(s@),
            None => str_arg(args@, i as int) is None,
        },
{
    if i < args.len() {
        match &args[i] {
            LuaArg::Str(s) => Some(s.clone()),
            _ => None,
        }
    } else {
        None
    }
}

/// Whether the argument at `i` is a table.
fn is_table_at(args: &Vec<LuaArg>, i: usize) -> (r: bool)
    ensures
        r == table_arg(args@, i as int),
{
    i < args.len() && matches!(args[i], LuaArg::Table)
}

/// The status and summary of a `task_update(status, summary)` call: both
/// must be strings.
pub fn task_update_args(args: &Vec<LuaArg>) -> (r: Result<(String, String), String>)
    ensures
        match r {
            Ok((status, summary)) => str_arg(args@, 0) == Some(status@) && str_arg(args@, 1)
                == Some(summary@),
            Err(m) => if str_arg(args@, 0) is None {
                m@ == "first argument status must be a string"@
            } else {
                str_arg(args@, 1) is None && m@ == "second argument summary must be a string"@
            },
        },
{
    let status = match string_at(args, 0) {
        Some(s) => s,
        None => {
            return Err("first argument status must be a string".to_string());
        },
    };
    match string_at(args, 1) {
        Some(summary) => Ok((status, summary)),
        None => Err("second argument summary must be a string".to_string()),
    }
}

/// A subagent call, as read from its arguments.
#[derive(Clone, Debug)]
pub struct SubagentCall {
    pub role: String,
    pub task: String,
    pub profile: Option<String>,
}

/// Reads an `agent` call made at nesting depth `depth`, given its `role`,
/// `task` and `profile` members where they are strings. The role defaults to
/// `subagent`; a call without a task, or one nested too deeply, is refused.
pub fn subagent_call(role: Option<String>, task: Option<String>, profile: Option<String>, depth: u32) -> (r:
    Result<SubagentCall, String>)
    ensures
        match r {
            Ok(c) => task == Some(c.task) && depth < MAX_AGENT_DEPTH && c.profile == profile
                && c.role@ == match role {
                Some(s) => s@,
                None => "subagent"@,
            },
            Err(m) => if task is None {
                m@ == "missing 'task' parameter in agent call"@
            } else {
                depth >= MAX_AGENT_DEPTH && m@ == "max subagent depth (3) exceeded"@
            },
        },
{
    let role = match role {
        Some(s) => s,
        None => "subagent".to_string(),
    };
    let task = match task {
        Some(t) => t,
        None => {
            return Err("missing 'task' parameter in agent call".to_string());
        },
    };
    if depth >= MAX_AGENT_DEPTH {
        return Err("max subagent depth (3) exceeded".to_string());
    }
    Ok(SubagentCall { role, task, profile })
}

/// Whether no message after index `i` comes from the assistant.
pub open spec fn none_assistant_after(ms: Seq<Message>, i: int) -> bool {
    forall|j: int| i < j < ms.len() ==> #[trigger] ms[j].role != Role::Assistant
}

/// What a finished subagent answers: the text of its last assistant
/// message, empty when it has none.
pub open spec fn subagent_answer(ms: Seq<Message>) -> Seq<char> {
    if exists|i: int| 0 <= i < ms.len() && ms[i].role == Role::Assistant && none_assistant_after(ms, i) {
        let i = choose|i: int|
            0 <= i < ms.len() && ms[i].role == Role::Assistant && none_assistant_after(ms, i);
        ms[i].content@
    } else {
        Seq::empty()
    }
}

/// The text of a finished subagent's last assistant message, empty when it
/// has none.
pub fn subagent_reply(messages: &Vec<Message>) -> (r: String)
    ensures
        r@ == subagent_answer(messages@),
{
    let mut i: usize = messages.len();
    while i > 0
        invariant
            i <= messages@.len(),
            none_assistant_after(messages@, i as int - 1),
        decreases i,
    {
        if messages[i - 1].role == Role::Assistant {
            let ghost ms = messages@;
            proof {
                let k = choose|k: int|
                    0 <= k < ms.len() && ms[k].role == Role::Assistant && none_assistant_after(ms, k);
                if k != i - 1 {
                    if k < i - 1 {
                        assert(ms[i - 1].role != Role::Assistant);
                    } else {
                        assert(ms[k].role != Role::Assistant);
                    }
                }
            }
            return messages[i - 1].content.clone();
        }
        i = i - 1;
    }
    proof {
        let ms = messages@;
        if exists|k: int| 0 <= k < ms.len() && ms[k].role == Role::Assistant && none_assistant_after(ms, k) {
            let k = choose|k: int|
                0 <= k < ms.len() && ms[k].role == Role::Assistant && none_assistant_after(ms, k);
            assert(ms[k].role != Role::Assistant);
        }
    }
    String::new()
}

/// Where `apply_anchor_edits` takes its file and its edits from: with one
/// argument, the edits, on the file last named (`last_path`); with two, the
/// file and the edits. On success, the path and the index of the edits
/// argument; with two arguments the path becomes the one last named.
pub fn anchor_edit_target(args: &Vec<LuaArg>, last_path: Option<String>) -> (r: Result<(String, usize), String>)
    ensures
        args@.len() == 1 ==> match r {
            Ok((p, k)) => k == 0 && table_arg(args@, 0) && last_path == Some(p),
            Err(m) => if !table_arg(args@, 0) {
                m@ == "argument ops must be an array of EditOps"@
            } else {
                last_path is None
                    && m@ == "no path specified and no previous read_hash_anchors call to infer path from"@
            },
        },
        args@.len() == 2 ==> match r {
            Ok((p, k)) => k == 1 && str_arg(args@, 0) == Some(p@) && table_arg(args@, 1),
            Err(m) => if str_arg(args@, 0) is None {
                m@ == "first argument path must be a string"@
            } else {
                !table_arg(args@, 1) && m@ == "second argument ops must be an array of EditOps"@
            },
        },
        args@.len() != 1 && args@.len() != 2 ==> (r matches Err(m) && m@
            == "invalid number of arguments to apply_anchor_edits, expected apply_anchor_edits(ops) or apply_anchor_edits(path, ops)"@),
{
    if args.len() == 1 {
        if !is_table_at(args, 0) {
            return Err("argument ops must be an array of EditOps".to_string());
        }
        match last_path {
            Some(p) => Ok((p, 0)),
            None => Err("no path specified and no previous read_hash_anchors call to infer path from".to_string()),
        }
    } else if args.len() == 2 {
        let path = match string_at(args, 0) {
            Some(p) => p,
            None => {
                return Err("first argument path must be a string".to_string());
            },
        };
        if !is_table_at(args, 1) {
            return Err("second argument ops must be an array of EditOps".to_string());
        }
        Ok((path, 1))
    } else {
        Err(
            "invalid number of arguments to apply_anchor_edits, expected apply_anchor_edits(ops) or apply_anchor_edits(path, ops)".to_string(),
        )
    }
}

} // verus!
