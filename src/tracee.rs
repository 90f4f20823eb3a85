//! The events a traced process reports and the requests made to it.
//!
//! These are the plain values exchanged between the engine and the code that
//! drives the operating system's process tracing.
use vstd::prelude::*;

verus! {

/// A thread or process of the tracee, as the operating system numbers it.
pub type ThreadId = i32;

/// The platform's single-byte trap instruction.
pub const TRAP_BYTE: u8 = 0xcc;

/// A signal that stopped or ended a thread, as far as the engine tells
/// signals apart.
#[derive(Clone, Copy, Debug, PartialEq, Eq, Structural)]
pub enum Signal {
    Trap,
    Stop,
    Segv,
    /// Any other signal, by number.
    Other(i32),
}

/// A tracing event reported with a trap stop.
#[derive(Clone, Copy, Debug, PartialEq, Eq, Structural)]
pub enum TraceEvent {
    /// A new thread was created.
    Clone,
    /// The thread forked.
    Fork,
    /// The thread forked with a shared address space.
    VFork,
    /// The thread replaced its image.
    Exec,
    /// The thread is about to exit.
    Exit,
    /// Any other event, by number.
    Other(i32),
}

/// What waiting on the tracee returned.
#[derive(Clone, Copy, Debug, PartialEq, Eq, Structural)]
pub enum WaitEvent {
    /// Nothing has changed yet.
    StillAlive,
    /// A thread stopped on a signal.
    Stopped(ThreadId, Signal),
    /// A thread stopped on a tracing event.
    TraceStop(ThreadId, Signal, TraceEvent),
    /// A thread was ended by a signal; the flag tells whether a core was dumped.
    Signaled(ThreadId, Signal, bool),
    /// A thread exited with the given code.
    Exited(ThreadId, i32),
    /// Any other status.
    Other(ThreadId),
    /// Waiting itself failed.
    Failed,
}

/// A request made of the tracee.
#[derive(Clone, Copy, Debug, PartialEq, Eq, Structural)]
pub enum Action {
    /// Resume a stopped thread, delivering a signal if one is given.
    Continue(ThreadId, Option<Signal>),
    /// Write one byte of the tracee's memory.
    WriteByte(u64, u8),
    /// Set a stopped thread's instruction pointer.
    SetPc(ThreadId, u64),
    /// Execute one instruction of a stopped thread and stop it again.
    SingleStep(ThreadId),
    /// Stop tracing a thread.
    Detach(ThreadId),
    /// Trace the threads and processes the given one creates.
    TraceChildren(ThreadId),
}

/// The outcome of reading the byte at an address to be instrumented.
#[derive(Clone, Copy, Debug, PartialEq, Eq, Structural)]
pub enum ByteRead {
    /// The byte held there.
    Value(u8),
    /// The tracee's memory refused the read: the address is not mapped as
    /// expected, as with a position-independent executable.
    Denied,
    /// Any other failure.
    Failed,
}

/// The outcome of writing a trap byte into the tracee.
#[derive(Clone, Copy, Debug, PartialEq, Eq, Structural)]
pub enum WriteOutcome {
    /// The trap is in place.
    Done,
    /// The tracee's memory refused the write.
    Denied,
    /// Any other failure.
    Failed,
}

} // verus!
