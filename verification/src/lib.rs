//! A fixed-size worker pool, as a verified state machine.
//!
//! The pool owns a first-in first-out queue of entries and a fixed set of
//! workers. Every operation is one atomic step on that state: a caller that
//! shares the pool between threads holds it under a lock and performs one
//! step at a time, and runs a claimed task after the lock is released.
pub mod message;
pub mod worker;
pub mod model;
pub mod pool;
pub mod laws;

pub use message::Message;
pub use model::{Claim, PoolView};
pub use pool::ThreadPool;
pub use worker::{Step, Worker};
