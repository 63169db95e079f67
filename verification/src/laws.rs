//! What holds of the scheduler whatever is done with it.

use crate::frame::{
    lemma_word_reads_back, lemma_word_stays, with_word, word_at, Trampoline, FRAME_DEPTH,
    STACK_ALIGNMENT, WORD_SIZE,
};
use crate::pool::{ring_offset, Pool};
use crate::routine::Slot;
use crate::state::State;
use vstd::prelude::*;

verus! {

/// Between two operations exactly one slot is Running: the current one.
pub proof fn lemma_one_running(pool: Pool)
    requires
        pool.wf(),
    ensures
        pool.count(State::Running) == 1,
        pool.slots[pool.current].state == State::Running,
{
    lemma_running_upto(pool, pool.len());
}

/// Among the first `upto` slots the current one is Running, if it is among
/// them, and no other.
proof fn lemma_running_upto(pool: Pool, upto: int)
    requires
        pool.wf(),
        0 <= upto <= pool.len(),
    ensures
        pool.count_upto(State::Running, upto) == if pool.current < upto {
            1int
        } else {
            0int
        },
    decreases upto,
{
    if upto > 0 {
        lemma_running_upto(pool, upto - 1);
        let _ = pool.slots[upto - 1];
    }
}

/// A pool is well formed as it is built.
pub proof fn lemma_fresh_wf(capacity: int)
    requires
        1 <= capacity,
    ensures
        Pool::fresh(capacity).wf(),
        Pool::fresh(capacity).drained(),
        !Pool::fresh(capacity).has_ready(),
{
}

/// A pool is built with no routine in it.
pub proof fn lemma_fresh_filled(capacity: int)
    requires
        1 <= capacity,
    ensures
        Pool::fresh(capacity).filled(0),
{
}

/// Functions that are scheduled from slot 0 take the slots in order: the
/// next one takes the slot after the last.
pub proof fn lemma_go_fills(pool: Pool, routines: int, top: u64, f: u64, trampoline: Trampoline)
    requires
        pool.filled(routines),
        routines + 1 < pool.len(),
    ensures
        pool.first_idle() == Some(routines + 1),
        pool.scheduled(routines + 1, top, f, trampoline).filled(routines + 1),
{
    let slot = routines + 1;
    let _ = pool.slots[slot];
    assert(pool.is_first_idle(slot)) by {
        assert forall|i: int| #![trigger pool.slots[i]] 0 <= i < slot implies pool.slots[i].state
            != State::Idle by {
            let _ = pool.slots[pool.current];
        }
    }
    pool.lemma_first_idle_is(slot);
    pool.lemma_scheduled_wf(slot, top, f, trampoline);
    let after = pool.scheduled(slot, top, f, trampoline);
    assert forall|i: int| #![trigger after.slots[i]] 1 <= i < after.len() implies after.slots[i].state
        == if i <= slot {
        State::Ready
    } else {
        State::Idle
    } by {
        let _ = pool.slots[i];
    }
}

/// A pool takes one function less than it has slots: when a routine waits
/// in every slot but slot 0, no slot is Idle, and scheduling fails.
pub proof fn lemma_full(pool: Pool)
    requires
        pool.filled(pool.len() - 1),
    ensures
        pool.first_idle().is_none(),
{
    if pool.has_idle() {
        let i = choose|i: int|
            #![trigger pool.slots[i]]
            pool.has(i) && pool.slots[i].state == State::Idle;
        let _ = pool.slots[i];
        let _ = pool.slots[0];
    }
}

/// Round robin is fair. A yield either resumes the Ready slot `waiting` or
/// passes control to a slot nearer to it, from which fewer slots are left to
/// go round the ring: so a Ready slot is resumed after at most as many
/// switches as it lies slots after the current one.
pub proof fn lemma_yield_approaches(pool: Pool, waiting: int)
    requires
        pool.wf(),
        pool.has(waiting),
        pool.slots[waiting].state == State::Ready,
    ensures
        pool.parked().current == waiting || (pool.parked().slots[waiting].state == State::Ready
            && 0 < ring_offset(pool.len(), pool.parked().current, waiting) < ring_offset(
            pool.len(),
            pool.current,
            waiting,
        )),
{
    pool.lemma_next_ready_exists();
    let to = pool.next_ready().unwrap();
    let _ = pool.slots[to];
}

/// The same holds when the current routine does not yield but finishes.
pub proof fn lemma_finish_approaches(pool: Pool, waiting: int)
    requires
        pool.wf(),
        pool.current != 0,
        pool.has(waiting),
        pool.slots[waiting].state == State::Ready,
    ensures
        pool.finished().current == waiting || (pool.finished().slots[waiting].state == State::Ready
            && 0 < ring_offset(pool.len(), pool.finished().current, waiting) < ring_offset(
            pool.len(),
            pool.current,
            waiting,
        )),
{
    pool.lemma_retired_has_ready();
    let retired = pool.retired();
    let to = retired.next_ready().unwrap();
    let _ = retired.slots[to];
    let _ = retired.slots[waiting];
}

/// When slot 0 yields and no slot is Ready, every other slot is Idle: the
/// loop that drives the pool ends only when all that was scheduled has
/// finished.
pub proof fn lemma_drained(pool: Pool)
    requires
        pool.wf(),
        pool.current == 0,
        pool.next_ready().is_none(),
    ensures
        pool.drained(),
        pool.parked() == pool,
{
    assert forall|i: int| #![trigger pool.slots[i]] pool.has(i) && i != 0 implies pool.slots[i].state
        == State::Idle by {
        if pool.slots[i].state == State::Ready {
            assert(pool.has_ready());
        }
    }
}

/// A slot whose function has returned is Idle, and so the next function
/// that is scheduled finds a slot: this one or one before it.
pub proof fn lemma_finished_frees_slot(pool: Pool)
    requires
        pool.wf(),
        pool.current != 0,
    ensures
        pool.finished().slots[pool.current].state == State::Idle,
        pool.finished().first_idle() matches Some(slot) && 0 < slot <= pool.current,
{
    pool.lemma_retired_has_ready();
    pool.lemma_finished_wf();
    let after = pool.finished();
    let retired = pool.retired();
    let to = retired.next_ready().unwrap();
    let _ = retired.slots[to];
    assert(after.slots[pool.current].state == State::Idle);
    after.lemma_first_idle_exists();
    let slot = after.first_idle().unwrap();
    let _ = after.slots[0];
    let _ = after.slots[slot];
}

/// The frame of a bootstrapped slot reads back as it was laid out. The saved
/// stack pointer is aligned and lies `FRAME_DEPTH` below the highest aligned
/// address of the buffer; it is the address of the entry word, which is inside
/// the buffer with the two words above it; and the three words are the
/// function, `skip` and `guard`, from low to high.
pub proof fn lemma_frame_reads_back(slot: Slot, top: u64, f: u64, trampoline: Trampoline)
    requires
        slot.wf(),
        top >= slot.stack.len(),
    ensures
        ({
            let ready = slot.bootstrapped(top, f, trampoline);
            let entry = slot.entry_index(top);
            let base = top - slot.stack.len();
            &&& ready.state == State::Ready
            &&& ready.ctx.rsp % STACK_ALIGNMENT == 0
            &&& ready.ctx.rsp + FRAME_DEPTH <= top < ready.ctx.rsp + FRAME_DEPTH + STACK_ALIGNMENT
            &&& ready.ctx.rsp == base + entry
            &&& 0 <= entry
            &&& entry + 3 * WORD_SIZE <= slot.stack.len()
            &&& word_at(ready.stack, entry) == f
            &&& word_at(ready.stack, entry + WORD_SIZE) == trampoline.skip
            &&& word_at(ready.stack, entry + 2 * WORD_SIZE) == trampoline.guard
        }),
{
    let entry = slot.entry_index(top);
    let at_skip = entry + WORD_SIZE;
    let at_guard = entry + 2 * WORD_SIZE;
    let with_guard = with_word(slot.stack, at_guard, trampoline.guard);
    let with_skip = with_word(with_guard, at_skip, trampoline.skip);
    lemma_word_reads_back(slot.stack, at_guard, trampoline.guard);
    lemma_word_reads_back(with_guard, at_skip, trampoline.skip);
    lemma_word_reads_back(with_skip, entry, f);
    lemma_word_stays(with_guard, at_guard, at_skip, trampoline.skip);
    lemma_word_stays(with_skip, at_guard, entry, f);
    lemma_word_stays(with_skip, at_skip, entry, f);
}

/// What a slot has held before leaves no trace in what its first resume
/// reads: two slots bootstrapped alike have the same state, the same saved
/// stack pointer and the same three words at it.
pub proof fn lemma_bootstrap_forgets(a: Slot, b: Slot, top: u64, f: u64, trampoline: Trampoline)
    requires
        a.wf(),
        b.wf(),
        top >= a.stack.len(),
    ensures
        ({
            let ra = a.bootstrapped(top, f, trampoline);
            let rb = b.bootstrapped(top, f, trampoline);
            let entry = a.entry_index(top);
            &&& ra.state == rb.state
            &&& ra.ctx.rsp == rb.ctx.rsp
            &&& ra.stack.subrange(entry, entry + 3 * WORD_SIZE) == rb.stack.subrange(
                entry,
                entry + 3 * WORD_SIZE,
            )
        }),
{
    let ra = a.bootstrapped(top, f, trampoline);
    let rb = b.bootstrapped(top, f, trampoline);
    let entry = a.entry_index(top);
    let end = entry + 3 * WORD_SIZE;
    assert(ra.stack.subrange(entry, end) =~= rb.stack.subrange(entry, end));
}

} // verus!
