//! The decisions behind running fork-join work on isolated background
//! contexts that talk only by messages: which context takes a task, what a
//! context's events mean for the pool, how a fresh context sets itself up,
//! and the once-only start-up of the pool and its scheduler bridge. The
//! contexts themselves, and the messages, belong to the caller.

pub mod bridge;
pub mod entry;
pub mod laws;
pub mod pool;
pub mod registry;
