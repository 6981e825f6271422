//! How a running agent is steered: what can be asked of it and the states it
//! reports.
use vstd::prelude::*;

verus! {

/// What a user asks of a running agent.
#[derive(Clone, Debug, PartialEq, Eq)]
pub enum SteerEvent {
    Message(String),
    Cancel,
    New,
    Exit(Option<String>),
    Profile(String),
    Compact(Option<String>),
}

/// What the agent is doing.
#[derive(Clone, Copy, Debug, PartialEq, Eq, Structural)]
pub enum AgentState {
    Idle,
    Reasoning,
    Replying,
    Working,
}

/// A steering channel that never delivers anything and shows nothing.
#[derive(Clone, Copy, Debug)]
pub struct NoopSteer;

impl NoopSteer {
    /// Nothing is ever waiting.
    pub fn try_recv_event(&mut self) -> (r: Option<SteerEvent>)
        ensures
            r is None,
    {
        None
    }
}

} // verus!
