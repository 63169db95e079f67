//! The scheduler as a mathematical value, and its operations as functions on
//! that value.

use crate::context::RoutineContext;
use crate::frame::Trampoline;
use crate::routine::Slot;
use crate::state::State;
use vstd::prelude::*;

verus! {

/// How many slots after `from` the slot `to` comes, going up through a ring of
/// `n` slots and wrapping from the last to the first. A slot is 0 after itself.
pub open spec fn ring_offset(n: int, from: int, to: int) -> int {
    if to >= from {
        to - from
    } else {
        to - from + n
    }
}

/// The scheduler as a mathematical value: the slots in pool order and the
/// index of the one that is executing.
pub struct Pool {
    pub slots: Seq<Slot>,
    pub current: int,
}

impl Pool {
    /// The number of slots.
    pub open spec fn len(self) -> int {
        self.slots.len() as int
    }

    /// `i` is the index of a slot.
    pub open spec fn has(self, i: int) -> bool {
        0 <= i < self.slots.len()
    }

    /// The pool between two operations.
    ///
    /// The current slot is the one and only Running slot. Slot 0, the context
    /// that built the pool, is never Idle: it runs or it waits to be resumed.
    /// Every stack buffer has its full size.
    pub open spec fn wf(self) -> bool {
        &&& self.has(self.current)
        &&& forall|i: int|
            #![trigger self.slots[i]]
            self.has(i) ==> (self.slots[i].state == State::Running <==> i == self.current)
        &&& self.current != 0 ==> self.slots[0].state == State::Ready
        &&& forall|i: int| #![trigger self.slots[i]] self.has(i) ==> self.slots[i].wf()
    }

    /// The pool as it is built with `capacity` slots: slot 0 runs, the others
    /// are idle, all registers are cleared and all stacks zeroed.
    pub open spec fn fresh(capacity: int) -> Pool {
        Pool {
            slots: Seq::new(
                capacity as nat,
                |i: int|
                    Slot::fresh(
                        if i == 0 {
                            State::Running
                        } else {
                            State::Idle
                        },
                    ),
            ),
            current: 0,
        }
    }

    /// How many of the first `upto` slots are in state `state`.
    pub open spec fn count_upto(self, state: State, upto: int) -> int
        decreases upto,
    {
        if upto <= 0 {
            0
        } else {
            self.count_upto(state, upto - 1) + if self.slots[upto - 1].state == state {
                1int
            } else {
                0int
            }
        }
    }

    /// How many slots are in state `state`.
    pub open spec fn count(self, state: State) -> int {
        self.count_upto(state, self.len())
    }

    /// Every slot but slot 0 is Idle: all that was scheduled has finished.
    pub open spec fn drained(self) -> bool {
        forall|i: int|
            #![trigger self.slots[i]]
            self.has(i) && i != 0 ==> self.slots[i].state == State::Idle
    }

    /// Slot 0 runs, the slots 1 to `routines` hold routines that wait to be
    /// resumed, and the slots after them are Idle: a pool as it is after
    /// `routines` functions have been scheduled from slot 0 and before any of
    /// them has returned.
    pub open spec fn filled(self, routines: int) -> bool {
        &&& self.wf()
        &&& self.current == 0
        &&& 0 <= routines < self.len()
        &&& forall|i: int|
            #![trigger self.slots[i]]
            1 <= i < self.len() ==> self.slots[i].state == if i <= routines {
                State::Ready
            } else {
                State::Idle
            }
    }

    /// This pool with slot `i` in another state.
    pub open spec fn with_state(self, i: int, state: State) -> Pool {
        Pool { slots: self.slots.update(i, self.slots[i].with_state(state)), ..self }
    }

    /// This pool with other saved registers in slot `i`.
    pub open spec fn with_context(self, i: int, ctx: RoutineContext) -> Pool {
        Pool { slots: self.slots.update(i, self.slots[i].with_context(ctx)), ..self }
    }

    /// Some slot is Idle.
    pub open spec fn has_idle(self) -> bool {
        exists|i: int| #![trigger self.slots[i]] self.has(i) && self.slots[i].state == State::Idle
    }

    /// `slot` is the Idle slot with the lowest index.
    pub open spec fn is_first_idle(self, slot: int) -> bool {
        &&& self.has(slot)
        &&& self.slots[slot].state == State::Idle
        &&& forall|i: int| #![trigger self.slots[i]] 0 <= i < slot ==> self.slots[i].state != State::Idle
    }

    /// The slot that the next scheduled function takes, if there is one.
    pub open spec fn first_idle(self) -> Option<int> {
        if self.has_idle() {
            Some(choose|slot: int| self.is_first_idle(slot))
        } else {
            None
        }
    }

    /// Some slot is Ready.
    pub open spec fn has_ready(self) -> bool {
        exists|i: int| #![trigger self.slots[i]] self.has(i) && self.slots[i].state == State::Ready
    }

    /// `pos` is the Ready slot that comes first after the current slot in ring
    /// order.
    pub open spec fn is_next_ready(self, pos: int) -> bool {
        &&& self.has(pos)
        &&& self.slots[pos].state == State::Ready
        &&& forall|i: int|
            #![trigger self.slots[i]]
            self.has(i) && self.slots[i].state == State::Ready ==> ring_offset(
                self.len(),
                self.current,
                pos,
            ) <= ring_offset(self.len(), self.current, i)
    }

    /// The slot that a yield switches to, if there is one.
    pub open spec fn next_ready(self) -> Option<int> {
        if self.has_ready() {
            Some(choose|pos: int| self.is_next_ready(pos))
        } else {
            None
        }
    }

    /// The pool after control has passed from the current slot to slot `to`.
    /// The slot that is left becomes Ready if it was Running, and keeps its
    /// state if it had given it up already.
    pub open spec fn switched(self, to: int) -> Pool {
        let left = if self.slots[self.current].state == State::Running {
            self.with_state(self.current, State::Ready)
        } else {
            self
        };
        Pool { slots: left.with_state(to, State::Running).slots, current: to }
    }

    /// The pool after the current routine has yielded: control passes to the
    /// next Ready slot; with none, nothing changes.
    pub open spec fn parked(self) -> Pool {
        match self.next_ready() {
            Some(to) => self.switched(to),
            None => self,
        }
    }

    /// The pool with the current slot given up.
    pub open spec fn retired(self) -> Pool {
        self.with_state(self.current, State::Idle)
    }

    /// The pool after the function of the current routine has returned: the
    /// slot becomes Idle and control passes on. Slot 0 has no function to
    /// return from, and for it nothing changes.
    pub open spec fn finished(self) -> Pool {
        if self.current != 0 {
            self.retired().parked()
        } else {
            self
        }
    }

    /// The pool after slot `slot` has been made ready to run the function at
    /// address `f`, its stack buffer ending at address `top`.
    pub open spec fn scheduled(self, slot: int, top: u64, f: u64, trampoline: Trampoline) -> Pool {
        let ready = self.slots[slot].bootstrapped(top, f, trampoline);
        Pool { slots: self.slots.update(slot, ready), ..self }
    }

    /// The pool at the moment control is about to pass on: well formed, but
    /// for the current slot, which still runs or, if it is not slot 0, has
    /// just been given up.
    pub open spec fn switchable(self) -> bool {
        &&& self.has(self.current)
        &&& forall|i: int|
            #![trigger self.slots[i]]
            self.has(i) && i != self.current ==> self.slots[i].state != State::Running
        &&& self.slots[self.current].state == State::Running || (self.current != 0
            && self.slots[self.current].state == State::Idle)
        &&& self.current != 0 ==> self.slots[0].state == State::Ready
        &&& forall|i: int| #![trigger self.slots[i]] self.has(i) ==> self.slots[i].wf()
    }

    /// The slot that lies `k` slots after the current one in ring order.
    spec fn ring_slot(self, k: int) -> int {
        if self.current + k < self.len() {
            self.current + k
        } else {
            self.current + k - self.len()
        }
    }

    /// Among the first `k` slots of the ring, from the current one on, either
    /// none is Ready or the pool has a next Ready slot.
    proof fn lemma_least_ready(self, k: int)
        requires
            self.has(self.current),
            0 <= k <= self.len(),
        ensures
            (exists|pos: int| self.is_next_ready(pos)) || (forall|i: int|
                #![trigger self.slots[i]]
                self.has(i) && ring_offset(self.len(), self.current, i) < k ==> self.slots[i].state
                    != State::Ready),
        decreases k,
    {
        if k > 0 {
            self.lemma_least_ready(k - 1);
            if !(exists|pos: int| self.is_next_ready(pos)) {
                let last = self.ring_slot(k - 1);
                assert(ring_offset(self.len(), self.current, last) == k - 1);
                if self.slots[last].state == State::Ready {
                    assert(self.is_next_ready(last));
                }
            }
        }
    }

    /// Where a slot is Ready, one of them is the next.
    pub proof fn lemma_next_ready_exists(self)
        requires
            self.has(self.current),
            self.has_ready(),
        ensures
            exists|pos: int| self.is_next_ready(pos),
            self.next_ready().is_some(),
            self.is_next_ready(self.next_ready().unwrap()),
    {
        self.lemma_least_ready(self.len());
    }

    /// A switch to a Ready slot leaves the pool well formed.
    pub proof fn lemma_switched_wf(self, to: int)
        requires
            self.switchable(),
            self.has(to),
            self.slots[to].state == State::Ready,
        ensures
            self.switched(to).wf(),
    {
        let after = self.switched(to);
        assert forall|i: int| #![trigger after.slots[i]] after.has(i) implies (after.slots[i].state
            == State::Running <==> i == after.current) && after.slots[i].wf() by {
            let _ = self.slots[i];
        }
        let _ = self.slots[0];
    }

    /// A yield keeps the pool well formed.
    pub proof fn lemma_parked_wf(self)
        requires
            self.wf(),
        ensures
            self.parked().wf(),
    {
        if self.has_ready() {
            self.lemma_next_ready_exists();
            self.lemma_switched_wf(self.next_ready().unwrap());
        }
    }

    /// While a routine other than slot 0 runs, giving its slot up leaves a
    /// Ready slot to pass control to: slot 0 at least.
    pub proof fn lemma_retired_has_ready(self)
        requires
            self.wf(),
            self.current != 0,
        ensures
            self.retired().switchable(),
            self.retired().has_ready(),
            self.retired().next_ready().is_some(),
            self.retired().is_next_ready(self.retired().next_ready().unwrap()),
    {
        let retired = self.retired();
        assert forall|i: int| #![trigger retired.slots[i]] retired.has(i) implies (i != retired.current
            ==> retired.slots[i].state != State::Running) && retired.slots[i].wf() by {
            let _ = self.slots[i];
        }
        let _ = self.slots[0];
        let _ = retired.slots[0];
        retired.lemma_next_ready_exists();
    }

    /// The return of a routine's function keeps the pool well formed.
    pub proof fn lemma_finished_wf(self)
        requires
            self.wf(),
        ensures
            self.finished().wf(),
    {
        if self.current != 0 {
            self.lemma_retired_has_ready();
            self.retired().lemma_switched_wf(self.retired().next_ready().unwrap());
        }
    }

    /// What the saved registers hold is of no account to the scheduler.
    pub proof fn lemma_with_context_wf(self, i: int, ctx: RoutineContext)
        requires
            self.wf(),
            self.has(i),
        ensures
            self.with_context(i, ctx).wf(),
    {
        let after = self.with_context(i, ctx);
        assert forall|j: int| #![trigger after.slots[j]] after.has(j) implies (after.slots[j].state
            == State::Running <==> j == after.current) && after.slots[j].wf() by {
            let _ = self.slots[j];
        }
        let _ = self.slots[0];
    }

    /// Scheduling a function onto an Idle slot keeps the pool well formed.
    pub proof fn lemma_scheduled_wf(self, slot: int, top: u64, f: u64, trampoline: Trampoline)
        requires
            self.wf(),
            self.has(slot),
            self.slots[slot].state == State::Idle,
        ensures
            self.scheduled(slot, top, f, trampoline).wf(),
    {
        let after = self.scheduled(slot, top, f, trampoline);
        assert forall|i: int| #![trigger after.slots[i]] after.has(i) implies (after.slots[i].state
            == State::Running <==> i == after.current) && after.slots[i].wf() by {
            let _ = self.slots[i];
        }
        let _ = self.slots[0];
    }

    /// Only one slot can be the first Idle one.
    pub proof fn lemma_first_idle_unique(self, a: int, b: int)
        requires
            self.is_first_idle(a),
            self.is_first_idle(b),
        ensures
            a == b,
    {
        let _ = self.slots[a];
        let _ = self.slots[b];
    }

    /// `first_idle` is the slot that `is_first_idle` describes.
    pub proof fn lemma_first_idle_is(self, slot: int)
        requires
            self.is_first_idle(slot),
        ensures
            self.first_idle() == Some(slot),
    {
        let _ = self.slots[slot];
        assert(self.has_idle());
        let chosen = choose|s: int| self.is_first_idle(s);
        self.lemma_first_idle_unique(chosen, slot);
    }

    /// Among the first `k` slots either none is Idle or one is the first.
    proof fn lemma_least_idle(self, k: int)
        requires
            0 <= k <= self.len(),
        ensures
            (exists|slot: int| self.is_first_idle(slot)) || (forall|i: int|
                #![trigger self.slots[i]]
                0 <= i < k ==> self.slots[i].state != State::Idle),
        decreases k,
    {
        if k > 0 {
            self.lemma_least_idle(k - 1);
            if !(exists|slot: int| self.is_first_idle(slot)) {
                if self.slots[k - 1].state == State::Idle {
                    assert(self.is_first_idle(k - 1));
                }
            }
        }
    }

    /// Where a slot is Idle, one of them is the first.
    pub proof fn lemma_first_idle_exists(self)
        requires
            self.has_idle(),
        ensures
            self.first_idle().is_some(),
            self.is_first_idle(self.first_idle().unwrap()),
    {
        self.lemma_least_idle(self.len());
    }

    /// Only one slot can be the next Ready one.
    pub proof fn lemma_next_ready_unique(self, a: int, b: int)
        requires
            self.has(self.current),
            self.is_next_ready(a),
            self.is_next_ready(b),
        ensures
            a == b,
    {
        let _ = self.slots[a];
        let _ = self.slots[b];
    }

    /// `next_ready` is the slot that `is_next_ready` describes.
    pub proof fn lemma_next_ready_is(self, pos: int)
        requires
            self.has(self.current),
            self.is_next_ready(pos),
        ensures
            self.next_ready() == Some(pos),
    {
        let _ = self.slots[pos];
        assert(self.has_ready());
        let chosen = choose|p: int| self.is_next_ready(p);
        self.lemma_next_ready_unique(chosen, pos);
    }
}

} // verus!
