//! The scheduler: construction, scheduling, the yield point and the end of a
//! routine.

use crate::context::RoutineContext;
use crate::error::RuntimeError;
use crate::frame::{Trampoline, DEFAULT_STACK_SIZE};
use crate::laws::lemma_drained;
use crate::pool::{ring_offset, Pool};
use crate::routine::{Routine, Slot};
use crate::state::State;
use vstd::prelude::*;

verus! {

/// The number of slots of a runtime built with `Runtime::new`.
pub const MAX_ROUTINES: usize = 4;

/// A change of the executing routine, for the caller to carry out: save the
/// live registers into the record of slot `from`, load those of slot `to`.
#[derive(Clone, Copy, Debug, PartialEq, Eq, Structural)]
pub struct Switch {
    pub from: usize,
    pub to: usize,
}

/// The exit status of a process whose pool has drained.
pub const EXIT_SUCCESS: i32 = 0;

/// What the loop that drives the pool does next.
#[derive(Clone, Copy, Debug, PartialEq, Eq, Structural)]
pub enum Drive {
    /// Carry the switch out, then take another turn.
    Switch(Switch),
    /// Nothing is left to run: end the process with this status.
    Exit { status: i32 },
}

/// The scheduler: a pool of routine slots that never grows, and the index of
/// the slot that is executing.
pub struct Runtime {
    routines: Vec<Routine>,
    current: usize,
}

impl View for Runtime {
    type V = Pool;

    closed spec fn view(&self) -> Pool {
        Pool { slots: views(self.routines@), current: self.current as int }
    }
}

/// The routines as mathematical values.
spec fn views(routines: Seq<Routine>) -> Seq<Slot> {
    Seq::new(routines.len(), |i: int| routines[i]@)
}

/// Replacing a routine replaces its value.
proof fn lemma_views_update(routines: Seq<Routine>, slot: int, routine: Routine)
    requires
        0 <= slot < routines.len(),
    ensures
        views(routines.update(slot, routine)) == views(routines).update(slot, routine@),
{
    assert(views(routines.update(slot, routine)) =~= views(routines).update(slot, routine@));
}

impl Runtime {
    /// The runtime is between two operations: see `Pool::wf`.
    pub open spec fn wf(&self) -> bool {
        self@.wf()
    }

    /// Builds a runtime with `MAX_ROUTINES` slots. Slot 0 stands for the
    /// calling context and is Running; the others are Idle.
    pub fn new() -> (runtime: Self)
        ensures
            runtime.wf(),
            runtime@ == Pool::fresh(MAX_ROUTINES as int),
    {
        Runtime::with_capacity(MAX_ROUTINES)
    }

    /// Builds a runtime with `capacity` slots, and with one where `capacity`
    /// is 0: slot 0, the calling context, is always there. It is Running; the
    /// others are Idle.
    pub fn with_capacity(capacity: usize) -> (runtime: Self)
        ensures
            runtime.wf(),
            runtime@ == Pool::fresh(
                if capacity == 0 {
                    1
                } else {
                    capacity as int
                },
            ),
    {
        let mut routines: Vec<Routine> = Vec::new();
        routines.push(Routine::with_state(State::Running));
        let mut built: usize = 1;
        while built < capacity
            invariant
                1 <= built,
                built == routines@.len(),
                built == 1 || built <= capacity,
                routines@[0]@ == Slot::fresh(State::Running),
                forall|i: int| 1 <= i < built ==> (#[trigger] routines@[i])@ == Slot::fresh(State::Idle),
            decreases capacity - built,
        {
            routines.push(Routine::default());
            built += 1;
        }
        let runtime = Runtime { routines, current: 0 };
        assert(runtime@.slots =~= Pool::fresh(built as int).slots);
        runtime
    }

    /// The number of slots.
    pub fn len(&self) -> (len: usize)
        ensures
            len == self@.len(),
    {
        self.routines.len()
    }

    /// The index of the slot that is executing.
    pub fn current(&self) -> (current: usize)
        ensures
            current == self@.current,
    {
        self.current
    }

    /// The state of slot `slot`.
    pub fn state(&self, slot: usize) -> (state: State)
        requires
            self@.has(slot as int),
        ensures
            state == self@.slots[slot as int].state,
    {
        self.routines[slot].state()
    }

    /// The saved registers of slot `slot`.
    pub fn context(&self, slot: usize) -> (ctx: &RoutineContext)
        requires
            self@.has(slot as int),
        ensures
            *ctx == self@.slots[slot as int].ctx,
    {
        self.routines[slot].context()
    }

    /// The saved registers of slot `slot`, to be written by a register swap.
    pub fn context_mut(&mut self, slot: usize) -> (ctx: &mut RoutineContext)
        requires
            old(self)@.has(slot as int),
        ensures
            *ctx == old(self)@.slots[slot as int].ctx,
            final(self)@ == old(self)@.with_context(slot as int, *final(ctx)),
            old(self).wf() ==> final(self).wf(),
    {
        proof {
            if old(self).wf() {
                assert forall|ctx: RoutineContext| #[trigger]
                    old(self)@.with_context(slot as int, ctx).wf() by {
                    old(self)@.lemma_with_context_wf(slot as int, ctx);
                }
            }
            assert forall|routine: Routine| #[trigger]
                views(old(self).routines@.update(slot as int, routine)) == views(
                    old(self).routines@,
                ).update(slot as int, routine@) by {
                lemma_views_update(old(self).routines@, slot as int, routine);
            }
        }
        self.routines[slot].context_mut()
    }

    /// The stack buffer of slot `slot`.
    pub fn stack(&self, slot: usize) -> (stack: &Vec<u8>)
        requires
            self@.has(slot as int),
        ensures
            stack@ == self@.slots[slot as int].stack,
    {
        self.routines[slot].stack()
    }

    /// The address one past the last byte of the stack buffer of slot `slot`.
    pub fn stack_top(&self, slot: usize) -> (top: u64)
        requires
            self@.has(slot as int),
        ensures
            top >= self@.slots[slot as int].stack.len(),
    {
        self.routines[slot].stack_top()
    }

    /// Looks for the Idle slot with the lowest index.
    fn find_idle(&self) -> (found: Option<usize>)
        ensures
            match found {
                Some(slot) => self@.is_first_idle(slot as int),
                None => !self@.has_idle(),
            },
    {
        let n: usize = self.routines.len();
        let mut slot: usize = 0;
        while slot < n
            invariant
                n == self.routines@.len(),
                slot <= n,
                forall|i: int|
                    #![trigger self@.slots[i]]
                    0 <= i < slot ==> self@.slots[i].state != State::Idle,
            decreases n - slot,
        {
            if self.routines[slot].state() == State::Idle {
                return Some(slot);
            }
            slot += 1;
        }
        None
    }

    /// Schedules the function at address `f`: the Idle slot with the lowest
    /// index gets its stack seeded for `f` and becomes Ready. The result is
    /// the index of that slot, which is never slot 0.
    ///
    /// With no Idle slot the pool is exhausted, and nothing changes.
    ///
    /// The frame is laid out from the address at which the stack buffer of the
    /// slot ends, which is what the machine gave: the contract holds for that
    /// address, whatever it is.
    pub fn go(&mut self, f: u64, trampoline: Trampoline) -> (scheduled: Result<usize, RuntimeError>)
        requires
            old(self).wf(),
        ensures
            final(self).wf(),
            match scheduled {
                Ok(slot) => slot != 0 && old(self)@.first_idle() == Some(slot as int)
                    && exists|top: u64|
                    top >= DEFAULT_STACK_SIZE && final(self)@ == #[trigger] old(self)@.scheduled(
                        slot as int,
                        top,
                        f,
                        trampoline,
                    ),
                Err(e) => e == RuntimeError::PoolExhausted && old(self)@.first_idle().is_none()
                    && final(self)@ == old(self)@,
            },
    {
        match self.find_idle() {
            Some(slot) => {
                let top: u64 = self.stack_top(slot);
                proof {
                    self@.lemma_first_idle_is(slot as int);
                    self@.lemma_scheduled_wf(slot as int, top, f, trampoline);
                    let _ = self@.slots[slot as int];
                }
                self.routines[slot].bootstrap(top, f, trampoline);
                assert(self@.slots =~= old(self)@.scheduled(slot as int, top, f, trampoline).slots);
                Ok(slot)
            },
            None => Err(RuntimeError::PoolExhausted),
        }
    }

    /// Looks for the next Ready slot, going round the pool from the current
    /// slot on.
    fn scan(&self) -> (found: Option<usize>)
        requires
            self@.has(self@.current),
            self@.slots[self@.current].state != State::Ready,
        ensures
            match found {
                Some(pos) => self@.is_next_ready(pos as int),
                None => !self@.has_ready(),
            },
    {
        let n: usize = self.routines.len();
        let mut pos: usize = self.current;
        let mut steps: usize = 0;
        loop
            invariant
                n == self.routines@.len(),
                self@.has(self@.current),
                pos < n,
                steps < n,
                steps == ring_offset(n as int, self@.current, pos as int),
                forall|i: int|
                    #![trigger self@.slots[i]]
                    self@.has(i) && ring_offset(n as int, self@.current, i) < steps
                        ==> self@.slots[i].state != State::Ready,
            decreases n - steps,
        {
            if self.routines[pos].state() == State::Ready {
                return Some(pos);
            }
            pos += 1;
            if pos == n {
                pos = 0;
            }
            if pos == self.current {
                return None;
            }
            steps += 1;
        }
    }

    /// Passes control from the current slot to slot `to`.
    fn switch_to(&mut self, to: usize) -> (switch: Switch)
        requires
            old(self)@.has(old(self)@.current),
            old(self)@.has(to as int),
        ensures
            final(self)@ == old(self)@.switched(to as int),
            switch == (Switch { from: old(self).current, to }),
    {
        let from: usize = self.current;
        if self.routines[from].state() == State::Running {
            self.routines[from].set_state(State::Ready);
        }
        self.routines[to].set_state(State::Running);
        self.current = to;
        assert(self@.slots =~= old(self)@.switched(to as int).slots);
        Switch { from, to }
    }

    /// The yield point. Control passes to the next Ready slot in ring order
    /// after the current one, which becomes Ready itself; the result names the
    /// switch to carry out. With no Ready slot anywhere nothing changes and the
    /// caller keeps running.
    pub fn park(&mut self) -> (switch: Option<Switch>)
        requires
            old(self).wf(),
        ensures
            final(self).wf(),
            final(self)@ == old(self)@.parked(),
            match switch {
                Some(s) => s.from == old(self)@.current && s.to != s.from
                    && old(self)@.has(s.to as int)
                    && old(self)@.next_ready() == Some(s.to as int),
                None => old(self)@.next_ready().is_none(),
            },
    {
        proof {
            old(self)@.lemma_parked_wf();
        }
        match self.scan() {
            Some(pos) => {
                proof {
                    self@.lemma_next_ready_is(pos as int);
                }
                Some(self.switch_to(pos))
            },
            None => None,
        }
    }

    /// To be called when the function of the current routine has returned.
    /// The slot becomes Idle, free for another function, and control passes to
    /// the next Ready slot: there is one, since slot 0 waits while another
    /// routine runs. For slot 0, which has no function to return from, nothing
    /// happens.
    pub fn routine_return(&mut self) -> (switch: Option<Switch>)
        requires
            old(self).wf(),
        ensures
            final(self).wf(),
            final(self)@ == old(self)@.finished(),
            match switch {
                Some(s) => old(self)@.current != 0 && s.from == old(self)@.current
                    && s.to != s.from
                    && old(self)@.has(s.to as int)
                    && old(self)@.retired().next_ready() == Some(s.to as int),
                None => old(self)@.current == 0,
            },
    {
        proof {
            old(self)@.lemma_finished_wf();
        }
        if self.current != 0 {
            let from: usize = self.current;
            self.routines[from].set_state(State::Idle);
            assert(self@.slots =~= old(self)@.retired().slots);
            proof {
                old(self)@.lemma_retired_has_ready();
            }
            match self.scan() {
                Some(pos) => {
                    proof {
                        self@.lemma_next_ready_is(pos as int);
                    }
                    Some(self.switch_to(pos))
                },
                None => None,
            }
        } else {
            None
        }
    }

    /// One turn of the loop that drives the pool from slot 0: a yield, and
    /// the end of the process with `EXIT_SUCCESS` once no slot is Ready. By
    /// then every routine has finished: all slots but slot 0 are Idle.
    pub fn run(&mut self) -> (turn: Drive)
        requires
            old(self).wf(),
        ensures
            final(self).wf(),
            final(self)@ == old(self)@.parked(),
            match turn {
                Drive::Switch(s) => s.from == old(self)@.current && s.to != s.from
                    && old(self)@.has(s.to as int)
                    && old(self)@.next_ready() == Some(s.to as int),
                Drive::Exit { status } => status == EXIT_SUCCESS && old(self)@.next_ready().is_none()
                    && (old(self)@.current == 0 ==> old(self)@.drained()),
            },
    {
        proof {
            if old(self)@.current == 0 && old(self)@.next_ready().is_none() {
                lemma_drained(old(self)@);
            }
        }
        match self.park() {
            Some(switch) => Drive::Switch(switch),
            None => Drive::Exit { status: EXIT_SUCCESS },
        }
    }
}

} // verus!
