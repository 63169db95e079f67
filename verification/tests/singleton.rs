use routines::{go, guard, park, Runtime, RuntimeError, Singleton, State, Switch, Trampoline};

fn stubs() -> Trampoline {
    Trampoline { guard: 0x1110, skip: 0x2220 }
}

#[test]
fn a_new_singleton_is_empty() {
    let singleton = Singleton::new();
    assert!(!singleton.is_initialized());
    assert!(singleton.runtime().is_none());
}

#[test]
fn go_before_init_is_uninitialized_runtime() {
    let mut singleton = Singleton::new();
    assert_eq!(go(&mut singleton, 0xa0, stubs()), Err(RuntimeError::UninitializedRuntime));
    assert!(!singleton.is_initialized());
}

#[test]
fn park_before_init_is_uninitialized_runtime() {
    let mut singleton = Singleton::new();
    assert_eq!(park(&mut singleton), Err(RuntimeError::UninitializedRuntime));
    assert!(!singleton.is_initialized());
}

#[test]
fn guard_before_init_is_uninitialized_runtime() {
    let mut singleton = Singleton::new();
    assert_eq!(guard(&mut singleton), Err(RuntimeError::UninitializedRuntime));
    assert!(!singleton.is_initialized());
}

#[test]
fn runtime_mut_before_init_is_none() {
    let mut singleton = Singleton::new();
    assert!(singleton.runtime_mut().is_none());
}

#[test]
fn init_publishes_the_runtime() {
    let mut singleton = Singleton::new();
    let mut runtime = Runtime::with_capacity(3);
    runtime.go(0xa0, stubs()).unwrap();
    assert_eq!(runtime.init(&mut singleton), Ok(()));
    assert!(singleton.is_initialized());
    let published = singleton.runtime().unwrap();
    assert_eq!(published.len(), 3);
    assert_eq!(published.state(1), State::Ready);
    assert_eq!(published.state(2), State::Idle);
}

#[test]
fn init_twice_is_double_initialization_and_keeps_the_first() {
    let mut singleton = Singleton::new();
    assert_eq!(Runtime::with_capacity(3).init(&mut singleton), Ok(()));
    assert_eq!(
        Runtime::with_capacity(5).init(&mut singleton),
        Err(RuntimeError::DoubleInitialization)
    );
    assert_eq!(singleton.runtime().unwrap().len(), 3);
    assert_eq!(Runtime::new().init(&mut singleton), Err(RuntimeError::DoubleInitialization));
    assert_eq!(singleton.runtime().unwrap().len(), 3);
}

#[test]
fn go_and_park_reach_the_published_runtime() {
    let mut singleton = Singleton::new();
    Runtime::new().init(&mut singleton).unwrap();

    assert_eq!(park(&mut singleton), Ok(None));
    assert_eq!(go(&mut singleton, 0xa0, stubs()), Ok(1));
    assert_eq!(go(&mut singleton, 0xb0, stubs()), Ok(2));
    assert_eq!(park(&mut singleton), Ok(Some(Switch { from: 0, to: 1 })));
    assert_eq!(park(&mut singleton), Ok(Some(Switch { from: 1, to: 2 })));

    let runtime = singleton.runtime().unwrap();
    assert_eq!(runtime.current(), 2);
    assert_eq!(runtime.state(0), State::Ready);
    assert_eq!(runtime.state(1), State::Ready);
    assert_eq!(runtime.state(2), State::Running);
}

#[test]
fn go_through_the_singleton_reports_an_exhausted_pool() {
    let mut singleton = Singleton::new();
    Runtime::with_capacity(2).init(&mut singleton).unwrap();
    assert_eq!(go(&mut singleton, 0xa0, stubs()), Ok(1));
    assert_eq!(go(&mut singleton, 0xb0, stubs()), Err(RuntimeError::PoolExhausted));
    assert_eq!(singleton.runtime().unwrap().state(1), State::Ready);
}

#[test]
fn guard_reports_the_current_routine_finished() {
    let mut singleton = Singleton::new();
    Runtime::new().init(&mut singleton).unwrap();
    go(&mut singleton, 0xa0, stubs()).unwrap();

    assert_eq!(guard(&mut singleton), Ok(None));
    assert_eq!(park(&mut singleton), Ok(Some(Switch { from: 0, to: 1 })));
    assert_eq!(guard(&mut singleton), Ok(Some(Switch { from: 1, to: 0 })));

    let runtime = singleton.runtime().unwrap();
    assert_eq!(runtime.current(), 0);
    assert_eq!(runtime.state(1), State::Idle);
}

#[test]
fn runtime_mut_operates_on_the_published_runtime() {
    let mut singleton = Singleton::new();
    Runtime::new().init(&mut singleton).unwrap();
    let runtime = singleton.runtime_mut().unwrap();
    runtime.go(0xa0, stubs()).unwrap();
    runtime.context_mut(1).r12 = 12;
    assert_eq!(singleton.runtime().unwrap().state(1), State::Ready);
    assert_eq!(singleton.runtime().unwrap().context(1).r12, 12);
}

#[test]
fn every_error_has_its_diagnostic() {
    assert_eq!(RuntimeError::PoolExhausted.diagnostic(), "no available routine.");
    assert_eq!(RuntimeError::UninitializedRuntime.diagnostic(), "Runtime not initialized");
    assert_eq!(
        RuntimeError::DoubleInitialization.diagnostic(),
        "Runtime has already been initialized"
    );
}
