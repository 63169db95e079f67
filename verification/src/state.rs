//! The states of a routine slot.

use vstd::prelude::*;

verus! {

/// The states a routine slot can be in.
///
/// - `Idle`: the slot is free and can be given a function to run.
/// - `Running`: the routine in this slot is the one executing.
/// - `Ready`: the routine is suspended and can be resumed.
#[derive(Clone, Copy, Debug, PartialEq, Eq, Structural)]
pub enum State {
    Idle,
    Running,
    Ready,
}

} // verus!
