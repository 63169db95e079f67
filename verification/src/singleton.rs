//! The one runtime of a process, and the scheduling calls that reach it
//! without a handle.

use crate::error::RuntimeError;
use crate::frame::{Trampoline, DEFAULT_STACK_SIZE};
use crate::pool::Pool;
use crate::runtime::{Runtime, Switch};
use vstd::prelude::*;

verus! {

/// The place of the one runtime of a process: empty until a runtime is
/// published, and then never empty nor overwritten.
///
/// A program keeps one `Singleton` for its whole life and hands it to the
/// free functions `go`, `park` and `guard`, which routine bodies call without
/// holding the runtime themselves.
pub struct Singleton {
    runtime: Option<Runtime>,
}

impl View for Singleton {
    type V = Option<Pool>;

    closed spec fn view(&self) -> Option<Pool> {
        match self.runtime {
            Some(runtime) => Some(runtime@),
            None => None,
        }
    }
}

impl Singleton {
    /// The published runtime, if there is one, is well formed.
    pub open spec fn wf(&self) -> bool {
        self@ matches Some(pool) ==> pool.wf()
    }

    /// The singleton before any runtime is published.
    pub fn new() -> (singleton: Self)
        ensures
            singleton@.is_none(),
            singleton.wf(),
    {
        Singleton { runtime: None }
    }

    /// Whether a runtime has been published.
    pub fn is_initialized(&self) -> (published: bool)
        ensures
            published == self@.is_some(),
    {
        self.runtime.is_some()
    }

    /// The published runtime.
    pub fn runtime(&self) -> (runtime: Option<&Runtime>)
        ensures
            match runtime {
                Some(rt) => self@ == Some(rt@),
                None => self@.is_none(),
            },
    {
        match &self.runtime {
            Some(rt) => Some(rt),
            None => None,
        }
    }

    /// The published runtime, to operate on.
    pub fn runtime_mut(&mut self) -> (runtime: Option<&mut Runtime>)
        ensures
            match runtime {
                Some(rt) => old(self)@ == Some(rt@) && final(self)@ == Some(final(rt)@),
                None => old(self)@.is_none() && final(self)@.is_none(),
            },
    {
        match &mut self.runtime {
            Some(rt) => Some(rt),
            None => None,
        }
    }
}

impl Runtime {
    /// Publishes this runtime as the one runtime of the process.
    ///
    /// This can be done once. A second runtime is refused, and the one that
    /// was published stays.
    pub fn init(self, singleton: &mut Singleton) -> (published: Result<(), RuntimeError>)
        requires
            self.wf(),
            old(singleton).wf(),
        ensures
            final(singleton).wf(),
            match published {
                Ok(_) => old(singleton)@.is_none() && final(singleton)@ == Some(self@),
                Err(e) => e == RuntimeError::DoubleInitialization && old(singleton)@.is_some()
                    && final(singleton)@ == old(singleton)@,
            },
    {
        if singleton.runtime.is_some() {
            Err(RuntimeError::DoubleInitialization)
        } else {
            singleton.runtime = Some(self);
            Ok(())
        }
    }
}

/// Schedules the function at address `f` on the published runtime: see
/// `Runtime::go`. Before a runtime is published this is an error, and so it
/// is when the pool is exhausted; in both cases nothing changes.
pub fn go(singleton: &mut Singleton, f: u64, trampoline: Trampoline) -> (scheduled: Result<
    usize,
    RuntimeError,
>)
    requires
        old(singleton).wf(),
    ensures
        final(singleton).wf(),
        match scheduled {
            Ok(slot) => old(singleton)@ matches Some(pool) && slot != 0
                && pool.first_idle() == Some(slot as int)
                && exists|top: u64|
                top >= DEFAULT_STACK_SIZE && final(singleton)@ == Some(
                    #[trigger] pool.scheduled(slot as int, top, f, trampoline),
                ),
            Err(e) => final(singleton)@ == old(singleton)@ && match old(singleton)@ {
                Some(pool) => e == RuntimeError::PoolExhausted && pool.first_idle().is_none(),
                None => e == RuntimeError::UninitializedRuntime,
            },
        },
{
    match &mut singleton.runtime {
        Some(runtime) => runtime.go(f, trampoline),
        None => Err(RuntimeError::UninitializedRuntime),
    }
}

/// The yield point of the published runtime: see `Runtime::park`. Before a
/// runtime is published this is an error.
pub fn park(singleton: &mut Singleton) -> (switch: Result<Option<Switch>, RuntimeError>)
    requires
        old(singleton).wf(),
    ensures
        final(singleton).wf(),
        match switch {
            Ok(switch) => old(singleton)@ matches Some(pool)
                && final(singleton)@ == Some(pool.parked())
                && match switch {
                Some(s) => s.from == pool.current && s.to != s.from && pool.has(s.to as int)
                    && pool.next_ready() == Some(s.to as int),
                None => pool.next_ready().is_none(),
            },
            Err(e) => e == RuntimeError::UninitializedRuntime && old(singleton)@.is_none()
                && final(singleton)@.is_none(),
        },
{
    match &mut singleton.runtime {
        Some(runtime) => Ok(runtime.park()),
        None => Err(RuntimeError::UninitializedRuntime),
    }
}

/// Where a routine lands when its function returns: reports the current
/// routine of the published runtime finished, see `Runtime::routine_return`.
/// Before a runtime is published this is an error.
pub fn guard(singleton: &mut Singleton) -> (switch: Result<Option<Switch>, RuntimeError>)
    requires
        old(singleton).wf(),
    ensures
        final(singleton).wf(),
        match switch {
            Ok(switch) => old(singleton)@ matches Some(pool)
                && final(singleton)@ == Some(pool.finished())
                && match switch {
                Some(s) => pool.current != 0 && s.from == pool.current && s.to != s.from
                    && pool.has(s.to as int)
                    && pool.retired().next_ready() == Some(s.to as int),
                None => pool.current == 0,
            },
            Err(e) => e == RuntimeError::UninitializedRuntime && old(singleton)@.is_none()
                && final(singleton)@.is_none(),
        },
{
    match &mut singleton.runtime {
        Some(runtime) => Ok(runtime.routine_return()),
        None => Err(RuntimeError::UninitializedRuntime),
    }
}

} // verus!
