//! Line coverage of native test binaries through breakpoint instrumentation.
//!
//! The library holds the engine's logic: the map of instrumentation points
//! and their hit counts, the breakpoint protocol, the event-driven state
//! machine that classifies tracee stops, and the construction of the tracee's
//! arguments and environment. The process control itself (fork, ptrace,
//! waitpid) is carried out by the caller, which hands events in and performs
//! the actions that come back.
pub mod breakpoint;
pub mod config;
pub mod launch;
pub mod statemachine;
pub mod tracee;
pub mod traces;
