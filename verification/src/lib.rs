use vstd::prelude::*;

pub mod text;
pub mod agent;
pub mod artifact_creator;
pub mod hashline;
pub mod task_tracker;
pub mod workflow;
pub mod tools;
pub mod workspace;
pub mod types;
pub mod sse;
pub mod tui;
pub mod util;
pub mod steer;
pub mod session;
pub mod profiles;
pub mod config;
pub mod client;
pub mod prompts;
pub mod cli;
pub mod toolimpl;
pub mod skills;
pub mod websocket;
pub mod workers;
pub mod providers;
pub mod symbol_tree;

verus! {
} // verus!
