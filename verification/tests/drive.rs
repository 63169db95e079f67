use routines::{Drive, Runtime, State, Switch, Trampoline, EXIT_SUCCESS};

fn stubs() -> Trampoline {
    Trampoline { guard: 0x1110, skip: 0x2220 }
}

/// A routine body as the scheduler sees it: it reports its counter and
/// yields, `yields` times, and then returns.
struct Worker {
    id: usize,
    yields: usize,
    counter: usize,
    finished: bool,
}

/// What a run of the driving loop did: the counters in the order in which
/// they were reported, the slots in the order in which they were resumed,
/// and the exit status.
struct Run {
    reported: Vec<(usize, usize)>,
    resumed: Vec<usize>,
    status: i32,
    finished_at_exit: Vec<bool>,
}

/// Plays the pool through: slot 0 drives, each other slot runs its worker
/// up to the next yield or to its return.
fn drive(runtime: &mut Runtime, workers: &mut Vec<Option<Worker>>) -> Run {
    let mut reported = Vec::new();
    let mut resumed = Vec::new();
    for _ in 0..100_000 {
        let current = runtime.current();
        if current == 0 {
            match runtime.run() {
                Drive::Switch(switch) => {
                    assert_eq!(switch.from, 0);
                    resumed.push(switch.to);
                }
                Drive::Exit { status } => {
                    let finished_at_exit = workers
                        .iter()
                        .map(|worker| worker.as_ref().map_or(true, |worker| worker.finished))
                        .collect();
                    return Run { reported, resumed, status, finished_at_exit };
                }
            }
        } else {
            let worker = workers[current].as_mut().unwrap();
            assert!(!worker.finished);
            let switch: Switch = if worker.counter < worker.yields {
                reported.push((worker.id, worker.counter));
                worker.counter += 1;
                runtime.park().unwrap()
            } else {
                worker.finished = true;
                runtime.routine_return().unwrap()
            };
            assert_eq!(switch.from, current);
            resumed.push(switch.to);
        }
    }
    panic!("the driving loop did not end");
}

fn spawn(runtime: &mut Runtime, workers: &mut Vec<Option<Worker>>, id: usize, yields: usize) {
    let slot = runtime.go(0x1000 + id as u64, stubs()).unwrap();
    workers[slot] = Some(Worker { id, yields, counter: 0, finished: false });
}

fn no_workers(capacity: usize) -> Vec<Option<Worker>> {
    (0..capacity).map(|_| None).collect()
}

#[test]
fn two_routines_interleave_and_the_loop_exits_after_both() {
    let mut runtime = Runtime::with_capacity(4);
    let mut workers = no_workers(4);
    spawn(&mut runtime, &mut workers, 1, 10);
    spawn(&mut runtime, &mut workers, 2, 15);

    let run = drive(&mut runtime, &mut workers);

    let mut expected = Vec::new();
    for counter in 0..10 {
        expected.push((1, counter));
        expected.push((2, counter));
    }
    for counter in 10..15 {
        expected.push((2, counter));
    }
    assert_eq!(run.reported, expected);

    let of_first: Vec<usize> =
        run.reported.iter().filter(|(id, _)| *id == 1).map(|(_, counter)| *counter).collect();
    let of_second: Vec<usize> =
        run.reported.iter().filter(|(id, _)| *id == 2).map(|(_, counter)| *counter).collect();
    assert_eq!(of_first, (0..10).collect::<Vec<_>>());
    assert_eq!(of_second, (0..15).collect::<Vec<_>>());

    assert_eq!(run.status, 0);
    assert_eq!(run.status, EXIT_SUCCESS);
    assert_eq!(run.finished_at_exit, vec![true, true, true, true]);
    assert_eq!(runtime.current(), 0);
    assert_eq!(runtime.state(0), State::Running);
    for slot in 1..4 {
        assert_eq!(runtime.state(slot), State::Idle);
    }
}

#[test]
fn equal_routines_are_resumed_in_ring_order() {
    let routines = 3;
    let yields = 5;
    let mut runtime = Runtime::with_capacity(routines + 1);
    let mut workers = no_workers(routines + 1);
    for id in 1..=routines {
        spawn(&mut runtime, &mut workers, id, yields);
    }

    let run = drive(&mut runtime, &mut workers);

    // Each round resumes slots 1, 2, 3 and then slot 0; the last round, in
    // which every routine returns, ends in slot 0 as well.
    let mut expected_resumed = Vec::new();
    for _ in 0..=yields {
        expected_resumed.extend([1, 2, 3, 0]);
    }
    assert_eq!(run.resumed, expected_resumed);

    let mut expected_reported = Vec::new();
    for counter in 0..yields {
        for id in 1..=routines {
            expected_reported.push((id, counter));
        }
    }
    assert_eq!(run.reported, expected_reported);
    assert_eq!(run.status, 0);
    assert_eq!(run.finished_at_exit, vec![true; routines + 1]);
}

#[test]
fn a_full_pool_of_routines_runs_to_the_end() {
    let capacity = 8;
    let mut runtime = Runtime::with_capacity(capacity);
    let mut workers = no_workers(capacity);
    for id in 1..capacity {
        spawn(&mut runtime, &mut workers, id, id);
    }

    let run = drive(&mut runtime, &mut workers);

    for id in 1..capacity {
        let counters: Vec<usize> =
            run.reported.iter().filter(|(of, _)| *of == id).map(|(_, counter)| *counter).collect();
        assert_eq!(counters, (0..id).collect::<Vec<_>>());
    }
    assert_eq!(run.status, 0);
    assert_eq!(run.finished_at_exit, vec![true; capacity]);
    for slot in 1..capacity {
        assert_eq!(runtime.state(slot), State::Idle);
    }
}

#[test]
fn a_routine_that_returns_at_once_runs_once() {
    let mut runtime = Runtime::new();
    let mut workers = no_workers(4);
    spawn(&mut runtime, &mut workers, 1, 0);

    let run = drive(&mut runtime, &mut workers);

    assert!(run.reported.is_empty());
    assert_eq!(run.resumed, vec![1, 0]);
    assert_eq!(run.status, 0);
}

#[test]
fn run_on_an_empty_pool_exits_at_once() {
    let mut runtime = Runtime::new();
    assert_eq!(runtime.run(), Drive::Exit { status: 0 });
    assert_eq!(runtime.current(), 0);
    assert_eq!(runtime.state(0), State::Running);
}

#[test]
fn run_does_not_exit_while_a_routine_is_ready() {
    let mut runtime = Runtime::new();
    runtime.go(0xa0, stubs()).unwrap();
    assert_eq!(runtime.run(), Drive::Switch(Switch { from: 0, to: 1 }));
    assert_eq!(runtime.park(), Some(Switch { from: 1, to: 0 }));
    assert_eq!(runtime.run(), Drive::Switch(Switch { from: 0, to: 1 }));
    assert_eq!(runtime.routine_return(), Some(Switch { from: 1, to: 0 }));
    assert_eq!(runtime.run(), Drive::Exit { status: 0 });
}

#[test]
fn a_routine_that_never_calls_the_scheduler_keeps_the_processor() {
    let mut runtime = Runtime::new();
    runtime.go(0xa0, stubs()).unwrap();
    assert_eq!(runtime.run(), Drive::Switch(Switch { from: 0, to: 1 }));
    // Nothing but a call by the routine in slot 1 brings slot 0 back: it
    // waits, Ready, for as long as that call does not come.
    assert_eq!(runtime.current(), 1);
    assert_eq!(runtime.state(1), State::Running);
    assert_eq!(runtime.state(0), State::Ready);
}

#[test]
fn a_slot_is_reused_in_the_middle_of_a_run() {
    let mut runtime = Runtime::with_capacity(3);
    let mut workers = no_workers(3);
    spawn(&mut runtime, &mut workers, 1, 1);
    spawn(&mut runtime, &mut workers, 2, 3);

    // First round: both report 0. Second round: the first returns.
    assert_eq!(runtime.run(), Drive::Switch(Switch { from: 0, to: 1 }));
    assert_eq!(runtime.park(), Some(Switch { from: 1, to: 2 }));
    assert_eq!(runtime.park(), Some(Switch { from: 2, to: 0 }));
    assert_eq!(runtime.run(), Drive::Switch(Switch { from: 0, to: 1 }));
    assert_eq!(runtime.routine_return(), Some(Switch { from: 1, to: 2 }));
    assert_eq!(runtime.park(), Some(Switch { from: 2, to: 0 }));
    assert_eq!(runtime.state(1), State::Idle);

    // Slot 1 is free again and takes a third routine.
    workers[1] = None;
    workers[2] = None;
    assert_eq!(runtime.go(0x3000, stubs()), Ok(1));
    workers[1] = Some(Worker { id: 3, yields: 2, counter: 0, finished: false });
    workers[2] = Some(Worker { id: 2, yields: 1, counter: 0, finished: false });

    let run = drive(&mut runtime, &mut workers);
    assert_eq!(run.reported, vec![(3, 0), (2, 0), (3, 1)]);
    assert_eq!(run.status, 0);
    assert_eq!(run.finished_at_exit, vec![true, true, true]);
}
