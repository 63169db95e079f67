//! The ways the runtime can be misused.

use vstd::prelude::*;

verus! {

/// The ways the runtime can be misused. None of them is recoverable: a caller
/// that sees one has broken the contract of the runtime and should stop.
#[derive(Clone, Copy, Debug, PartialEq, Eq, Structural)]
pub enum RuntimeError {
    /// A function was scheduled while no slot was idle.
    PoolExhausted,
    /// A scheduling call was made before any runtime was published.
    UninitializedRuntime,
    /// A runtime was published after one had been published already.
    DoubleInitialization,
}

impl RuntimeError {
    /// The message to abort with.
    pub fn diagnostic(&self) -> (message: &'static str)
        ensures
            message@ == match *self {
                RuntimeError::PoolExhausted => "no available routine."@,
                RuntimeError::UninitializedRuntime => "Runtime not initialized"@,
                RuntimeError::DoubleInitialization => "Runtime has already been initialized"@,
            },
    {
        match self {
            RuntimeError::PoolExhausted => "no available routine.",
            RuntimeError::UninitializedRuntime => "Runtime not initialized",
            RuntimeError::DoubleInitialization => "Runtime has already been initialized",
        }
    }
}

} // verus!
