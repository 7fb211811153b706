//! An actor framework over a lightweight-process substrate: typed selective
//! receive, correlation tags, runtime-checked protocol sessions, a stateful
//! actor dispatcher and supervision with restart policies.
//!
//! The decisions of each component are verified functions on plain values.
//! The substrate (spawning, raw delivery, timers) hands those functions the
//! events it observes and carries out the actions they return.
use vstd::prelude::*;

pub mod actor;
pub mod mailbox;
pub mod process;
pub mod protocol;
pub mod supervisor;
pub mod tag;

verus! {

/// Implemented for all resources held by the host.
pub trait Resource: Sized {
    /// Returns the process-local resource id.
    fn id(&self) -> u64;

    /// Turns a process-local resource id back into a resource handle.
    /// Balancing host-side resources is up to the caller: an id that the
    /// host never handed out gives an invalid handle.
    fn from_id(id: u64) -> Self;
}

} // verus!
