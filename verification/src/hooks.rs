//! Hooks: code that users plug into the agent's lifecycle.
use vstd::prelude::*;

verus! {

/// What every hook has: a name, a priority (lower runs first; 100 unless
/// the hook says otherwise) and whether it is enabled (unless it says
/// otherwise, it is).
pub trait Hook {
    /// The hook's name, for logging and configuration.
    fn name(&self) -> &str;

    /// The hook's priority; lower numbers run first.
    fn priority(&self) -> (p: i32)
        default_ensures
            p == 100,
    {
        100
    }

    /// Whether the hook is enabled.
    fn enabled(&self) -> (b: bool)
        default_ensures
            b,
    {
        true
    }
}

} // verus!
