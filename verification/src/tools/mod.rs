//! The tools the agent calls: the parts of them that decide and compute.
pub mod agent_tool;
pub mod artifacts;
pub mod fs;
pub mod git;
pub mod lua;
pub mod repo;
pub mod search;
pub mod shell;
pub mod skills;
pub mod web;
pub use agent_tool::agent_tools;

use vstd::prelude::*;
use crate::text::{chars_of, trim, trim_bounds};

verus! {

broadcast use vstd::string::group_string_axioms;

/// Why a tool call failed: the message the model is shown.
#[derive(Clone, Debug)]
pub struct ToolFailure {
    pub message: String,
}

impl ToolFailure {
    /// A failure with the given message.
    pub fn new(message: String) -> (f: ToolFailure)
        ensures
            f.message == message,
    {
        ToolFailure { message }
    }
}

/// The message for a missing argument.
pub open spec fn required_message(name: Seq<char>) -> Seq<char> {
    name + " is required"@
}

/// Checks that an argument is not blank.
pub fn require_nonempty(value: &str, name: &str) -> (r: Result<(), ToolFailure>)
    ensures
        match r {
            Ok(_) => trim(value@).len() > 0,
            Err(f) => trim(value@).len() == 0 && f.message@ == required_message(name@),
        },
{
    let v = chars_of(value);
    let (a, b) = trim_bounds(v.as_slice(), 0, v.len());
    proof {
        assert(v@.subrange(0, v@.len() as int) =~= v@);
    }
    if a == b {
        let mut m = String::new();
        m.append(name);
        m.append(" is required");
        return Err(ToolFailure { message: m });
    }
    Ok(())
}

} // verus!
