//! The agent's workspace.
pub mod workspace;
