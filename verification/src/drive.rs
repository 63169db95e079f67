//! The pool in motion: a model of routines that yield and return, and what
//! holds of every run of the driving loop.

use crate::laws::{lemma_drained, lemma_finish_approaches, lemma_yield_approaches};
use crate::pool::{ring_offset, Pool};
use crate::state::State;
use vstd::prelude::*;

verus! {

/// What the routine in a slot does from now on, as far as the scheduler sees
/// it.
pub enum Plan {
    /// It yields this many times more, and then its function returns.
    Yields(nat),
    /// It never yields and its function never returns.
    Spins,
}

/// A pool together with what its routines are going to do. Slot 0 runs the
/// loop that drives the pool: it yields until no slot is Ready, and then
/// ends the process. Its plan is not looked at.
pub struct Machine {
    pub pool: Pool,
    pub plans: Seq<Plan>,
}

impl Machine {
    /// The pool is well formed and every slot has a plan.
    pub open spec fn wf(self) -> bool {
        &&& self.pool.wf()
        &&& self.plans.len() == self.pool.len()
    }

    /// Every routine that has not finished yields a finite number of times
    /// and then returns.
    pub open spec fn all_return(self) -> bool {
        forall|i: int|
            #![trigger self.pool.slots[i]]
            self.pool.has(i) && i != 0 && self.pool.slots[i].state != State::Idle
                ==> self.plans[i] is Yields
    }

    /// Some routine that has not finished never yields nor returns.
    pub open spec fn one_spins(self, slot: int) -> bool {
        &&& self.pool.has(slot)
        &&& slot != 0
        &&& self.pool.slots[slot].state != State::Idle
        &&& self.plans[slot] is Spins
    }

    /// The driving loop has come to its end: slot 0 runs and finds no slot
    /// Ready.
    pub open spec fn exits(self) -> bool {
        self.pool.current == 0 && self.pool.next_ready().is_none()
    }

    /// The machine after the current routine has run up to its next call of
    /// the scheduler: a turn of the driving loop for slot 0, a yield or the
    /// return of its function for another routine. A routine that spins never
    /// gets there, and the machine stays as it is.
    pub open spec fn step(self) -> Machine {
        let current = self.pool.current;
        if current == 0 {
            Machine { pool: self.pool.parked(), ..self }
        } else {
            match self.plans[current] {
                Plan::Yields(left) => if left > 0 {
                    Machine {
                        pool: self.pool.parked(),
                        plans: self.plans.update(current, Plan::Yields((left - 1) as nat)),
                    }
                } else {
                    Machine { pool: self.pool.finished(), ..self }
                },
                Plan::Spins => self,
            }
        }
    }

    /// The machine after `steps` steps.
    pub open spec fn after(self, steps: nat) -> Machine
        decreases steps,
    {
        if steps == 0 {
            self
        } else {
            self.step().after((steps - 1) as nat)
        }
    }

    /// The scheduler calls that the routine in slot `i` has still to make: its
    /// yields and its return.
    pub open spec fn weight(self, i: int) -> int {
        if self.pool.slots[i].state == State::Idle {
            0int
        } else {
            match self.plans[i] {
                Plan::Yields(left) => left as int + 1,
                Plan::Spins => 1int,
            }
        }
    }

    /// The calls that the routines in slots 1 to `upto - 1` have still to make.
    pub open spec fn load_upto(self, upto: int) -> int
        decreases upto,
    {
        if upto <= 1 {
            0
        } else {
            self.load_upto(upto - 1) + self.weight(upto - 1)
        }
    }

    /// A bound on the steps to the end of the driving loop: two for each call
    /// that a routine has still to make, since slot 0 may take a turn after
    /// each, and one more when slot 0 is about to take its turn.
    pub open spec fn cost(self) -> int {
        2 * self.load_upto(self.pool.len()) + if self.pool.current == 0 {
            1int
        } else {
            0int
        }
    }

    /// The routines in slots 1 to `routines` are all that there is to run; each
    /// of them yields `yields` times and then returns, and so is resumed in
    /// `yields + 1` rounds. The machine is in round `round`, counted from 0,
    /// and the slot `turn` runs: the slots before it have had their turn of
    /// this round, the slots after it wait for theirs.
    pub open spec fn in_round(self, routines: int, yields: int, round: int, turn: int) -> bool {
        &&& self.wf()
        &&& 1 <= routines < self.pool.len()
        &&& 0 <= round <= yields
        &&& 0 <= turn <= routines
        &&& self.pool.current == turn
        &&& forall|i: int|
            #![trigger self.pool.slots[i]]
            routines < i < self.pool.len() ==> self.pool.slots[i].state == State::Idle
        &&& forall|i: int|
            #![trigger self.pool.slots[i]]
            1 <= i <= routines ==> if i < turn {
                if round < yields {
                    &&& self.pool.slots[i].state == State::Ready
                    &&& self.plans[i] == Plan::Yields((yields - round - 1) as nat)
                } else {
                    self.pool.slots[i].state == State::Idle
                }
            } else {
                &&& self.pool.slots[i].state == if i == turn {
                    State::Running
                } else {
                    State::Ready
                }
                &&& self.plans[i] == Plan::Yields((yields - round) as nat)
            }
    }

    /// There is never less than nothing left to do.
    proof fn lemma_load_nonnegative(self, upto: int)
        ensures
            self.load_upto(upto) >= 0,
        decreases upto,
    {
        if upto > 1 {
            self.lemma_load_nonnegative(upto - 1);
        }
    }

    /// Two machines whose routines have the same calls to make but for the
    /// routine in slot `changed` differ in load by what that routine differs.
    proof fn lemma_load_differs(self, other: Machine, changed: int, upto: int)
        requires
            forall|i: int| 1 <= i < upto && i != changed ==> self.weight(i) == other.weight(i),
        ensures
            other.load_upto(upto) == self.load_upto(upto) + if 1 <= changed < upto {
                other.weight(changed) - self.weight(changed)
            } else {
                0
            },
        decreases upto,
    {
        if upto > 1 {
            self.lemma_load_differs(other, changed, upto - 1);
        }
    }

    /// A step keeps the machine well formed.
    pub proof fn lemma_step_wf(self)
        requires
            self.wf(),
        ensures
            self.step().wf(),
    {
        self.pool.lemma_parked_wf();
        self.pool.lemma_finished_wf();
        if self.pool.has_ready() {
            self.pool.lemma_next_ready_exists();
        }
        if self.pool.current != 0 {
            self.pool.lemma_retired_has_ready();
        }
    }

    /// Until the driving loop ends, every step brings its end nearer, where
    /// all routines return.
    proof fn lemma_step_costs(self)
        requires
            self.wf(),
            self.all_return(),
            !self.exits(),
        ensures
            self.step().wf(),
            self.step().all_return(),
            0 <= self.step().cost() < self.cost(),
    {
        self.lemma_step_wf();
        let next = self.step();
        let current = self.pool.current;
        let n = self.pool.len();
        next.lemma_load_nonnegative(n);
        if current == 0 {
            self.pool.lemma_next_ready_exists();
            assert forall|i: int| 1 <= i < n implies self.weight(i) == next.weight(i) by {
                let _ = self.pool.slots[i];
            }
            self.lemma_load_differs(next, 0, n);
            assert forall|i: int|
                #![trigger next.pool.slots[i]]
                next.pool.has(i) && i != 0 && next.pool.slots[i].state != State::Idle
                    implies next.plans[i] is Yields by {
                let _ = self.pool.slots[i];
            }
        } else {
            let _ = self.pool.slots[current];
            let _ = self.pool.slots[0];
            self.pool.lemma_retired_has_ready();
            assert(self.pool.has_ready());
            self.pool.lemma_next_ready_exists();
            let base = if self.plans[current]->Yields_0 > 0 {
                self.pool
            } else {
                self.pool.retired()
            };
            let to = base.next_ready().unwrap();
            assert(next.pool == base.switched(to));
            assert forall|i: int| 1 <= i < n && i != current implies self.weight(i) == next.weight(
                i,
            ) by {
                let _ = self.pool.slots[i];
                let _ = base.slots[i];
            }
            self.lemma_load_differs(next, current, n);
            assert(next.weight(current) == self.weight(current) - 1) by {
                let _ = base.slots[current];
            }
            assert forall|i: int|
                #![trigger next.pool.slots[i]]
                next.pool.has(i) && i != 0 && next.pool.slots[i].state != State::Idle
                    implies next.plans[i] is Yields by {
                let _ = self.pool.slots[i];
                let _ = base.slots[i];
            }
        }
    }

    /// Where every routine yields a finite number of times and then returns,
    /// the driving loop comes to its end, and when it does every slot but
    /// slot 0 is Idle: all routines have finished. The result is a number of
    /// steps after which the end is reached.
    pub proof fn lemma_drive_ends(self) -> (steps: nat)
        requires
            self.wf(),
            self.all_return(),
        ensures
            steps <= self.cost(),
            self.after(steps).wf(),
            self.after(steps).exits(),
            self.after(steps).pool.drained(),
        decreases self.cost(),
    {
        self.lemma_load_nonnegative(self.pool.len());
        if self.exits() {
            lemma_drained(self.pool);
            0
        } else {
            self.lemma_step_costs();
            let rest = self.step().lemma_drive_ends();
            (rest + 1) as nat
        }
    }

    /// No routine starves where every routine returns: a Ready routine is
    /// resumed after at most as many steps as its slot lies after the current
    /// one in ring order. The result is the number of steps it waits.
    pub proof fn lemma_resumed_within(self, waiting: int) -> (steps: nat)
        requires
            self.wf(),
            self.all_return(),
            self.pool.has(waiting),
            self.pool.slots[waiting].state == State::Ready,
        ensures
            1 <= steps <= ring_offset(self.pool.len(), self.pool.current, waiting),
            self.after(steps).pool.current == waiting,
            self.after(steps).pool.slots[waiting].state == State::Running,
        decreases ring_offset(self.pool.len(), self.pool.current, waiting),
    {
        let _ = self.pool.slots[waiting];
        assert(self.pool.has_ready());
        self.pool.lemma_next_ready_exists();
        self.lemma_step_costs();
        lemma_yield_approaches(self.pool, waiting);
        if self.pool.current != 0 {
            lemma_finish_approaches(self.pool, waiting);
        }
        let next = self.step();
        let _ = next.pool.slots[waiting];
        if next.pool.current == waiting {
            assert(self.after(1) == next.after(0));
            1
        } else {
            let rest = next.lemma_resumed_within(waiting);
            (rest + 1) as nat
        }
    }

    /// Steps can be counted from either end.
    pub proof fn lemma_after_step(self, steps: nat)
        ensures
            self.after(steps + 1) == self.after(steps).step(),
        decreases steps,
    {
        assert(self.after(steps + 1) == self.step().after(steps));
        if steps > 0 {
            self.step().lemma_after_step((steps - 1) as nat);
            assert(self.after(steps) == self.step().after((steps - 1) as nat));
        } else {
            assert(self.step().after(0) == self.step());
            assert(self.after(0) == self);
        }
    }

    /// A pool in which `routines` functions have just been scheduled stands at
    /// the start of round 0, when each of them yields `yields` times.
    pub proof fn lemma_filled_in_round(self, routines: int, yields: nat)
        requires
            self.pool.filled(routines),
            1 <= routines,
            self.plans.len() == self.pool.len(),
            forall|i: int| 1 <= i <= routines ==> #[trigger] self.plans[i] == Plan::Yields(yields),
        ensures
            self.in_round(routines, yields as int, 0, 0),
    {
        assert forall|i: int|
            #![trigger self.pool.slots[i]]
            1 <= i <= routines implies self.pool.slots[i].state == State::Ready && self.plans[i]
            == Plan::Yields((yields - 0) as nat) by {
            let _ = self.plans[i];
        }
    }

    /// Within a round the turn passes from each slot to the next, from the
    /// last routine to slot 0, and with that to the next round; the turn of the
    /// last routine in the last round is the end.
    proof fn lemma_turn_passes(self, routines: int, yields: int, round: int, turn: int)
        requires
            self.in_round(routines, yields, round, turn),
        ensures
            !self.exits(),
            self.step().wf(),
            turn < routines ==> self.step().in_round(routines, yields, round, turn + 1),
            turn == routines && round < yields ==> self.step().in_round(routines, yields, round + 1, 0),
            turn == routines && round == yields ==> self.step().exits() && self.step().pool.drained(),
    {
        self.lemma_step_wf();
        let n = self.pool.len();
        let next = self.step();
        let to = if turn < routines {
            turn + 1
        } else {
            0
        };
        let _ = self.pool.slots[0];
        let _ = self.pool.slots[turn];
        let _ = self.pool.slots[to];
        let base = if turn != 0 && round == yields {
            self.pool.retired()
        } else {
            self.pool
        };
        assert(base.has(to) && base.slots[to].state == State::Ready);
        assert forall|i: int|
            #![trigger base.slots[i]]
            base.has(i) && base.slots[i].state == State::Ready implies ring_offset(n, turn, to)
            <= ring_offset(n, turn, i) by {
            let _ = self.pool.slots[i];
        }
        assert(base.is_next_ready(to));
        base.lemma_next_ready_is(to);
        if turn == 0 {
            assert(self.pool.has_ready());
        }
        assert(next.pool == base.switched(to));
        if turn < routines {
            assert forall|i: int|
                #![trigger next.pool.slots[i]]
                routines < i < n implies next.pool.slots[i].state == State::Idle by {
                let _ = self.pool.slots[i];
                let _ = base.slots[i];
            }
            assert forall|i: int|
                #![trigger next.pool.slots[i]]
                1 <= i <= routines implies if i < turn + 1 {
                if round < yields {
                    &&& next.pool.slots[i].state == State::Ready
                    &&& next.plans[i] == Plan::Yields((yields - round - 1) as nat)
                } else {
                    next.pool.slots[i].state == State::Idle
                }
            } else {
                &&& next.pool.slots[i].state == if i == turn + 1 {
                    State::Running
                } else {
                    State::Ready
                }
                &&& next.plans[i] == Plan::Yields((yields - round) as nat)
            } by {
                let _ = self.pool.slots[i];
                let _ = base.slots[i];
            }
        } else if round < yields {
            assert forall|i: int|
                #![trigger next.pool.slots[i]]
                routines < i < n implies next.pool.slots[i].state == State::Idle by {
                let _ = self.pool.slots[i];
                let _ = base.slots[i];
            }
            assert forall|i: int|
                #![trigger next.pool.slots[i]]
                1 <= i <= routines implies next.pool.slots[i].state == State::Ready
                && next.plans[i] == Plan::Yields((yields - round - 1) as nat) by {
                let _ = self.pool.slots[i];
                let _ = base.slots[i];
            }
        } else {
            assert forall|i: int|
                #![trigger next.pool.slots[i]]
                next.pool.has(i) && i != 0 implies next.pool.slots[i].state == State::Idle by {
                let _ = self.pool.slots[i];
                let _ = base.slots[i];
            }
            assert(!next.pool.has_ready()) by {
                if next.pool.has_ready() {
                    let i = choose|i: int|
                        #![trigger next.pool.slots[i]]
                        next.pool.has(i) && next.pool.slots[i].state == State::Ready;
                    let _ = next.pool.slots[i];
                    let _ = next.pool.slots[0];
                }
            }
        }
    }

    /// Equal routines take turns in slot order. Where `routines` routines are
    /// scheduled and nothing else, each to yield `yields` times, the driving
    /// loop has not ended after `round` full rounds and `turn` steps more: it
    /// is the turn of slot `turn` in round `round`. A round is one step for slot
    /// 0 and one for each routine.
    pub proof fn lemma_round_robin(self, routines: int, yields: int, round: int, turn: int)
        requires
            self.in_round(routines, yields, 0, 0),
            0 <= round <= yields,
            0 <= turn <= routines,
        ensures
            round * (routines + 1) + turn >= 0,
            self.after((round * (routines + 1) + turn) as nat).in_round(routines, yields, round, turn),
            self.after((round * (routines + 1) + turn) as nat).pool.current == turn,
            !self.after((round * (routines + 1) + turn) as nat).exits(),
        decreases round, turn,
    {
        assert(round * (routines + 1) >= 0) by (nonlinear_arith)
            requires
                round >= 0,
                routines >= 0,
        ;
        let steps = round * (routines + 1) + turn;
        if turn == 0 && round == 0 {
            assert(steps == 0) by (nonlinear_arith)
                requires
                    steps == round * (routines + 1) + turn,
                    turn == 0,
                    round == 0,
            ;
            assert(self.after(0) == self);
        } else if turn > 0 {
            self.lemma_round_robin(routines, yields, round, turn - 1);
            let before = self.after((steps - 1) as nat);
            before.lemma_turn_passes(routines, yields, round, turn - 1);
            self.lemma_after_step((steps - 1) as nat);
        } else if round > 0 {
            self.lemma_round_robin(routines, yields, round - 1, routines);
            assert((round - 1) * (routines + 1) + routines == steps - 1) by (nonlinear_arith)
                requires
                    steps == round * (routines + 1) + turn,
                    turn == 0,
            ;
            let before = self.after((steps - 1) as nat);
            before.lemma_turn_passes(routines, yields, round - 1, routines);
            self.lemma_after_step((steps - 1) as nat);
        }
        self.after(steps as nat).lemma_turn_passes(routines, yields, round, turn);
    }

    /// The driving loop ends when the last of the equal routines has
    /// returned: after `yields + 1` full rounds, and by `lemma_round_robin` not
    /// before. It leaves every slot but slot 0 Idle.
    pub proof fn lemma_round_robin_ends(self, routines: int, yields: int)
        requires
            self.in_round(routines, yields, 0, 0),
        ensures
            (yields + 1) * (routines + 1) >= 0,
            self.after(((yields + 1) * (routines + 1)) as nat).exits(),
            self.after(((yields + 1) * (routines + 1)) as nat).pool.drained(),
    {
        self.lemma_round_robin(routines, yields, yields, routines);
        let steps = yields * (routines + 1) + routines;
        assert((yields + 1) * (routines + 1) == steps + 1) by (nonlinear_arith)
            requires
                steps == yields * (routines + 1) + routines,
        ;
        let before = self.after(steps as nat);
        before.lemma_turn_passes(routines, yields, yields, routines);
        self.lemma_after_step(steps as nat);
    }

    /// A step leaves a spinning routine where it is: unfinished.
    pub proof fn lemma_step_keeps_spinning(self, slot: int)
        requires
            self.wf(),
            self.one_spins(slot),
        ensures
            self.step().wf(),
            self.step().one_spins(slot),
    {
        self.lemma_step_wf();
        let current = self.pool.current;
        let _ = self.pool.slots[slot];
        let _ = self.pool.slots[current];
        if self.pool.has_ready() {
            self.pool.lemma_next_ready_exists();
            let _ = self.pool.slots[self.pool.next_ready().unwrap()];
        }
        if current != 0 {
            self.pool.lemma_retired_has_ready();
            let retired = self.pool.retired();
            let _ = retired.slots[slot];
            let _ = retired.slots[retired.next_ready().unwrap()];
        }
    }

    /// Where a scheduled routine never yields nor returns, the driving loop
    /// never comes to its end.
    pub proof fn lemma_drive_never_ends(self, slot: int, steps: nat)
        requires
            self.wf(),
            self.one_spins(slot),
        ensures
            !self.after(steps).exits(),
        decreases steps,
    {
        if steps == 0 {
            let _ = self.pool.slots[slot];
            if self.pool.current == 0 {
                assert(self.pool.has_ready());
            }
        } else {
            self.lemma_step_keeps_spinning(slot);
            self.step().lemma_drive_never_ends(slot, (steps - 1) as nat);
        }
    }
}

} // verus!
