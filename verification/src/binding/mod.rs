//! The binding of an agent to a channel: what an incoming message means,
//! and the agentic loop that answers it.
pub mod intent;
pub mod approvals;
pub mod convert;
pub mod driver;
pub mod laws;
pub mod loop_bound;
pub mod prompt;
