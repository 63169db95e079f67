//! A minimal cooperative multitasking core.
//!
//! A fixed pool of routines shares one thread. Each routine owns a stack
//! buffer and a saved register record; exactly one of them runs at a time and
//! gives the processor up only at a yield point or when its function returns.
//!
//! This crate holds every decision of the scheduler: which slot a new routine
//! takes, what its first stack frame looks like, who runs next, and when the
//! loop is over. The register swap itself is left to the caller: each
//! operation that changes who runs hands back a [`Switch`] that names the two
//! register records to swap.

pub mod context;
pub mod drive;
pub mod error;
pub mod frame;
pub mod laws;
pub mod pool;
pub mod routine;
pub mod runtime;
pub mod singleton;
pub mod state;

pub use context::RoutineContext;
pub use error::RuntimeError;
pub use frame::{Trampoline, DEFAULT_STACK_SIZE};
pub use pool::Pool;
pub use routine::{Routine, Slot};
pub use runtime::{Drive, Runtime, Switch, EXIT_SUCCESS, MAX_ROUTINES};
pub use singleton::{go, guard, park, Singleton};
pub use state::State;
