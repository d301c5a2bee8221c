//! The agents' decisions: what a diff says, what a command asks for, and
//! what a message tells about its author.

pub mod chat;
pub mod git_agent;
pub mod orchestrator;

pub use git_agent::{ChangeComplexity, ChangeType, DiffInsights, GitAgent};
