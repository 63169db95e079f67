//! One routine slot: its stack buffer, its saved registers and its state.

use crate::context::RoutineContext;
use crate::frame::{
    align_down, aligned_down, put_word, with_word, Trampoline, DEFAULT_STACK_SIZE, FRAME_DEPTH,
    STACK_ALIGNMENT, WORD_SIZE,
};
use crate::state::State;
use vstd::prelude::*;

verus! {

/// What one routine slot holds, as a mathematical value.
pub struct Slot {
    pub state: State,
    pub ctx: RoutineContext,
    pub stack: Seq<u8>,
}

impl Slot {
    /// The stack buffer has the size that every slot is built with.
    pub open spec fn wf(self) -> bool {
        self.stack.len() == DEFAULT_STACK_SIZE
    }

    /// A slot as it is built: no function, registers cleared, stack zeroed.
    pub open spec fn fresh(state: State) -> Slot {
        Slot {
            state,
            ctx: RoutineContext::zeroed(),
            stack: Seq::new(DEFAULT_STACK_SIZE as nat, |i: int| 0u8),
        }
    }

    /// This slot in another state.
    pub open spec fn with_state(self, state: State) -> Slot {
        Slot { state, ..self }
    }

    /// This slot with other saved registers.
    pub open spec fn with_context(self, ctx: RoutineContext) -> Slot {
        Slot { ctx, ..self }
    }

    /// Index in the stack buffer of the entry word, when the buffer ends at
    /// address `top`: `FRAME_DEPTH` bytes below the highest aligned address of
    /// the buffer.
    pub open spec fn entry_index(self, top: u64) -> int {
        self.stack.len() - top % STACK_ALIGNMENT - FRAME_DEPTH
    }

    /// The address that `entry_index` stands for.
    pub open spec fn entry_address(top: u64) -> int {
        aligned_down(top) - FRAME_DEPTH
    }

    /// This slot made ready to run the function at address `f`, when its stack
    /// buffer ends at address `top`.
    ///
    /// Three words are stored below the aligned top of the stack, from high to
    /// low: `guard`, `skip`, `f`. The saved stack pointer is the address of the
    /// last, so that the first resume of the slot returns into `f`, a return of
    /// `f` lands in `skip`, and a return of `skip` lands in `guard`. Nothing
    /// else of the slot changes.
    pub open spec fn bootstrapped(self, top: u64, f: u64, trampoline: Trampoline) -> Slot {
        let entry = self.entry_index(top);
        Slot {
            state: State::Ready,
            ctx: self.ctx.with_rsp(Self::entry_address(top) as u64),
            stack: with_word(
                with_word(
                    with_word(self.stack, entry + 2 * WORD_SIZE, trampoline.guard),
                    entry + WORD_SIZE,
                    trampoline.skip,
                ),
                entry,
                f,
            ),
        }
    }
}

/// One routine slot: a stack buffer of its own, the saved registers, and the
/// state.
///
/// The buffer is allocated once and never grows or shrinks, so its address
/// stays what it was.
pub struct Routine {
    stack: Vec<u8>,
    ctx: RoutineContext,
    state: State,
}

impl View for Routine {
    type V = Slot;

    closed spec fn view(&self) -> Slot {
        Slot { state: self.state, ctx: self.ctx, stack: self.stack@ }
    }
}

/// The address one past the last byte of the buffer: the end pointer that
/// `as_ptr_range` of the slice gives, as a number.
///
/// Nothing is claimed of the address but that the buffer lies below it: the
/// end pointer is the start pointer moved up by the length, and the bytes of
/// a slice do not wrap around the address space.
#[verifier::external_body]
fn buffer_end(stack: &Vec<u8>) -> (top: usize)
    ensures
        top >= stack@.len(),
{
    stack.as_ptr_range().end as usize
}

impl Default for Routine {
    /// An idle routine with a zeroed stack and cleared registers.
    fn default() -> (routine: Self)
        ensures
            routine@ == Slot::fresh(State::Idle),
            routine.wf(),
    {
        Routine::with_state(State::Idle)
    }
}

impl Routine {
    /// The stack buffer has the size that every routine is built with.
    pub open spec fn wf(&self) -> bool {
        self@.wf()
    }

    /// A routine in the given state, with a zeroed stack and cleared registers.
    pub fn with_state(state: State) -> (routine: Self)
        ensures
            routine@ == Slot::fresh(state),
            routine.wf(),
    {
        let routine = Routine {
            stack: vec![0u8; DEFAULT_STACK_SIZE],
            ctx: RoutineContext::default(),
            state,
        };
        assert(routine@.stack =~= Slot::fresh(state).stack);
        routine
    }

    /// The state of the routine.
    pub fn state(&self) -> (state: State)
        ensures
            state == self@.state,
    {
        self.state
    }

    /// Puts the routine in another state.
    pub fn set_state(&mut self, state: State)
        ensures
            final(self)@ == old(self)@.with_state(state),
    {
        self.state = state;
    }

    /// The saved registers.
    pub fn context(&self) -> (ctx: &RoutineContext)
        ensures
            *ctx == self@.ctx,
    {
        &self.ctx
    }

    /// The saved registers, to be written by a register swap.
    pub fn context_mut(&mut self) -> (ctx: &mut RoutineContext)
        ensures
            *ctx == old(self)@.ctx,
            final(self)@ == old(self)@.with_context(*final(ctx)),
    {
        &mut self.ctx
    }

    /// The stack buffer.
    pub fn stack(&self) -> (stack: &Vec<u8>)
        ensures
            stack@ == self@.stack,
    {
        &self.stack
    }

    /// The address one past the last byte of the stack buffer.
    pub fn stack_top(&self) -> (top: u64)
        ensures
            top >= self@.stack.len(),
    {
        buffer_end(&self.stack) as u64
    }

    /// Prepares the routine to run the function at address `f`, given the
    /// address `top` at which its stack buffer ends.
    pub fn bootstrap(&mut self, top: u64, f: u64, trampoline: Trampoline)
        requires
            old(self).wf(),
            top >= DEFAULT_STACK_SIZE,
        ensures
            final(self)@ == old(self)@.bootstrapped(top, f, trampoline),
            final(self).wf(),
    {
        let sp: u64 = align_down(top);
        let pad: usize = (top - sp) as usize;
        let entry: usize = self.stack.len() - pad - FRAME_DEPTH;
        put_word(&mut self.stack, entry + 2 * WORD_SIZE, trampoline.guard);
        put_word(&mut self.stack, entry + WORD_SIZE, trampoline.skip);
        put_word(&mut self.stack, entry, f);
        self.ctx.rsp = sp - FRAME_DEPTH as u64;
        self.state = State::Ready;
    }
}

} // verus!
