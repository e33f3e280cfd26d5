//! Skills: prompts and tools that an agent loads by name.
pub mod skill;
pub mod manager;
