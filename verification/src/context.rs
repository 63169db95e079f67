//! The register record of a suspended routine.

use vstd::prelude::*;

verus! {

/// The registers that must survive while a routine is suspended: the stack
/// pointer and the callee-saved registers of the x86-64 System V calling
/// convention.
#[derive(Clone, Copy, Debug, PartialEq, Eq, Structural)]
pub struct RoutineContext {
    pub rsp: u64,
    pub r15: u64,
    pub r14: u64,
    pub r13: u64,
    pub r12: u64,
    pub rbx: u64,
    pub rbp: u64,
}

impl RoutineContext {
    /// The record with every register zero.
    pub open spec fn zeroed() -> RoutineContext {
        RoutineContext { rsp: 0, r15: 0, r14: 0, r13: 0, r12: 0, rbx: 0, rbp: 0 }
    }

    /// This record with another stack pointer.
    pub open spec fn with_rsp(self, rsp: u64) -> RoutineContext {
        RoutineContext { rsp, ..self }
    }
}

impl Default for RoutineContext {
    fn default() -> (ctx: Self)
        ensures
            ctx == RoutineContext::zeroed(),
    {
        RoutineContext { rsp: 0, r15: 0, r14: 0, r13: 0, r12: 0, rbx: 0, rbp: 0 }
    }
}

} // verus!
