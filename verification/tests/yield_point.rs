use routines::{Runtime, State, Switch, Trampoline};

fn stubs() -> Trampoline {
    Trampoline { guard: 0x1110, skip: 0x2220 }
}

fn states(runtime: &Runtime) -> Vec<State> {
    (0..runtime.len()).map(|slot| runtime.state(slot)).collect()
}

fn running(runtime: &Runtime) -> usize {
    states(runtime).iter().filter(|state| **state == State::Running).count()
}

#[test]
fn park_with_nothing_ready_keeps_the_caller_running() {
    let mut runtime = Runtime::new();
    assert_eq!(runtime.park(), None);
    assert_eq!(runtime.current(), 0);
    assert_eq!(states(&runtime), vec![State::Running, State::Idle, State::Idle, State::Idle]);
    assert_eq!(runtime.park(), None);
    assert_eq!(runtime.state(0), State::Running);
}

#[test]
fn park_on_a_pool_of_one_keeps_the_caller_running() {
    let mut runtime = Runtime::with_capacity(1);
    assert_eq!(runtime.park(), None);
    assert_eq!(runtime.current(), 0);
    assert_eq!(runtime.state(0), State::Running);
}

#[test]
fn park_switches_to_the_only_ready_slot_and_back() {
    let mut runtime = Runtime::new();
    runtime.go(0xa0, stubs()).unwrap();

    assert_eq!(runtime.park(), Some(Switch { from: 0, to: 1 }));
    assert_eq!(runtime.current(), 1);
    assert_eq!(states(&runtime), vec![State::Ready, State::Running, State::Idle, State::Idle]);

    assert_eq!(runtime.park(), Some(Switch { from: 1, to: 0 }));
    assert_eq!(runtime.current(), 0);
    assert_eq!(states(&runtime), vec![State::Running, State::Ready, State::Idle, State::Idle]);
}

#[test]
fn park_goes_round_the_pool_in_slot_order() {
    let mut runtime = Runtime::new();
    for f in [0xa0u64, 0xb0, 0xc0] {
        runtime.go(f, stubs()).unwrap();
    }
    let mut visited = Vec::new();
    for _ in 0..9 {
        let switch = runtime.park().unwrap();
        assert_eq!(switch.to, runtime.current());
        visited.push((switch.from, switch.to));
    }
    assert_eq!(
        visited,
        vec![(0, 1), (1, 2), (2, 3), (3, 0), (0, 1), (1, 2), (2, 3), (3, 0), (0, 1)]
    );
}

#[test]
fn park_skips_idle_slots_and_wraps_around() {
    let mut runtime = Runtime::with_capacity(5);
    for f in [0xa0u64, 0xb0, 0xc0, 0xd0] {
        runtime.go(f, stubs()).unwrap();
    }
    // Run slot 1 and slot 3 to their end: slots 2 and 4 stay.
    assert_eq!(runtime.park(), Some(Switch { from: 0, to: 1 }));
    assert_eq!(runtime.routine_return(), Some(Switch { from: 1, to: 2 }));
    assert_eq!(runtime.park(), Some(Switch { from: 2, to: 3 }));
    assert_eq!(runtime.routine_return(), Some(Switch { from: 3, to: 4 }));
    assert_eq!(
        states(&runtime),
        vec![State::Ready, State::Idle, State::Ready, State::Idle, State::Running]
    );

    assert_eq!(runtime.park(), Some(Switch { from: 4, to: 0 }));
    assert_eq!(runtime.park(), Some(Switch { from: 0, to: 2 }));
    assert_eq!(runtime.park(), Some(Switch { from: 2, to: 4 }));
    assert_eq!(runtime.park(), Some(Switch { from: 4, to: 0 }));
    assert_eq!(
        states(&runtime),
        vec![State::Running, State::Idle, State::Ready, State::Idle, State::Ready]
    );
}

#[test]
fn park_does_not_touch_registers_or_stacks() {
    let mut runtime = Runtime::new();
    runtime.go(0xa0, stubs()).unwrap();
    let contexts: Vec<_> = (0..4).map(|slot| *runtime.context(slot)).collect();
    let stacks: Vec<_> = (0..4).map(|slot| runtime.stack(slot).clone()).collect();
    runtime.park().unwrap();
    runtime.park().unwrap();
    for slot in 0..4 {
        assert_eq!(*runtime.context(slot), contexts[slot]);
        assert_eq!(*runtime.stack(slot), stacks[slot]);
    }
}

#[test]
fn routine_return_frees_the_slot_and_passes_control_on() {
    let mut runtime = Runtime::new();
    runtime.go(0xa0, stubs()).unwrap();
    runtime.go(0xb0, stubs()).unwrap();
    runtime.park().unwrap();
    assert_eq!(runtime.current(), 1);

    assert_eq!(runtime.routine_return(), Some(Switch { from: 1, to: 2 }));
    assert_eq!(runtime.current(), 2);
    assert_eq!(states(&runtime), vec![State::Ready, State::Idle, State::Running, State::Idle]);

    assert_eq!(runtime.routine_return(), Some(Switch { from: 2, to: 0 }));
    assert_eq!(runtime.current(), 0);
    assert_eq!(states(&runtime), vec![State::Running, State::Idle, State::Idle, State::Idle]);
}

#[test]
fn routine_return_of_the_last_routine_resumes_main() {
    let mut runtime = Runtime::new();
    runtime.go(0xa0, stubs()).unwrap();
    runtime.go(0xb0, stubs()).unwrap();
    runtime.go(0xc0, stubs()).unwrap();
    runtime.park().unwrap();
    runtime.park().unwrap();
    runtime.park().unwrap();
    assert_eq!(runtime.current(), 3);
    assert_eq!(runtime.routine_return(), Some(Switch { from: 3, to: 0 }));
    assert_eq!(states(&runtime), vec![State::Running, State::Ready, State::Ready, State::Idle]);
}

#[test]
fn routine_return_on_main_does_nothing() {
    let mut runtime = Runtime::new();
    runtime.go(0xa0, stubs()).unwrap();
    assert_eq!(runtime.routine_return(), None);
    assert_eq!(runtime.current(), 0);
    assert_eq!(states(&runtime), vec![State::Running, State::Ready, State::Idle, State::Idle]);
}

#[test]
fn exactly_one_slot_runs_after_every_operation() {
    let mut runtime = Runtime::with_capacity(6);
    assert_eq!(running(&runtime), 1);
    let mut seed: u32 = 0x2545_f491;
    for round in 0..2000u64 {
        seed ^= seed << 13;
        seed ^= seed >> 17;
        seed ^= seed << 5;
        match seed % 4 {
            0 => {
                let _ = runtime.go(round, stubs());
            }
            1 => {
                let _ = runtime.park();
            }
            2 => {
                let _ = runtime.routine_return();
            }
            _ => {
                let _ = runtime.run();
            }
        }
        assert_eq!(running(&runtime), 1);
        assert_eq!(runtime.state(runtime.current()), State::Running);
        assert_ne!(runtime.state(0), State::Idle);
        if runtime.current() != 0 {
            assert_eq!(runtime.state(0), State::Ready);
        }
    }
}
