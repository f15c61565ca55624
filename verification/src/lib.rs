//! Core of a bounded pool of expensive-to-create resources.
//!
//! The pool hands out idle resources, tracks in-flight creation so it never
//! over-provisions, and wakes exactly one suspended acquirer per returned
//! resource, even when the notified acquirer is cancelled first. All
//! bookkeeping here is the state that the owning lock protects; callers hold
//! the lock (or own the pool exclusively) while invoking these operations and
//! invoke any returned wake handle after releasing it.

pub mod laws;
pub mod pool_inner;
pub mod waiters;
