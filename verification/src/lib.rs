use vstd::prelude::*;

pub mod text;
pub mod time;
pub mod model;
pub mod config;
pub mod logging;
pub mod launch_agent;
pub mod doctor;
pub mod cli;
pub mod daemon;
pub mod collectors;
pub mod store;
pub mod agent_run;
pub mod tui;
pub mod ipc;

verus! {

} // verus!
