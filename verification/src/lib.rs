//! A single-threaded cooperative task scheduler with reentrant nested loops.
//!
//! Suspendable computations (sleeps and joins) are advanced step by step by a
//! scheduler that owns a timer reactor. A computation may, while it is itself
//! being advanced, ask the scheduler to synchronously drain another computation
//! to completion (a nested loop). Tasks form a forest; a task currently on the
//! call stack is "frozen", and wakes aimed at frozen tasks are redirected to an
//! unfrozen ancestor or deferred until delivery becomes safe.
//!
//! Time is virtual: the reactor keeps a clock in milliseconds and advances it
//! to each fired deadline. Parking the thread for the remaining wall-clock
//! interval is the embedder's concern, not part of the scheduling logic.

pub mod computation;
pub mod reactor;
pub mod runtime;
pub mod task;

pub use computation::{chain, make_join2, make_rt_join2, nested_loop, sleep, Computation};
pub use reactor::{EventId, Reactor, Wait};
pub use runtime::{run, RtError, Runtime, TaskPoll};
pub use task::Task;
