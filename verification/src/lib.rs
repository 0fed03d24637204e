//! A single-threaded, completion-ring-driven TCP reactor core.
//!
//! The crate models the heart of an event-driven server: a submission ring
//! and a completion ring shared with an operation executor, a fixed-capacity
//! connection table with a free list, a tagged-token protocol that correlates
//! submissions with completions, and the dispatch logic that turns each
//! completion into the next submitted operation. Everything here is pure
//! bookkeeping over plain values; the process bootstrap and the actual
//! socket work live outside the core and talk to it through these types.

pub mod classify;
pub mod halt;
pub mod reactor;
pub mod ring;
pub mod table;
pub mod token;
