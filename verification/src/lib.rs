use vstd::prelude::*;

pub mod agent_runner;
pub mod commands;
pub mod config;
pub mod keyed;
pub mod laws;
pub mod orchestrator;
pub mod path_safety;
pub mod slug;
pub mod strings;
pub mod text;
pub mod tracker;
pub mod workflow;

verus! {

} // verus!
