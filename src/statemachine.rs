//! The state machine that drives a traced test binary and counts its hits.
//!
//! Each phase takes what the operating system reported and returns a
//! [`Step`]: the next state and the requests to make of the tracee. The
//! caller performs the requests in order and moves to the step's failure
//! state, if it has one, when a request fails.
use vstd::prelude::*;
use crate::breakpoint::{hit_requests, step_requests, stepped, taken, Breakpoint};
use crate::config::Config;
use crate::tracee::{Action, ByteRead, Signal, ThreadId, TraceEvent, WaitEvent, WriteOutcome, TRAP_BYTE};
use crate::traces::{bumped_at, is_first_at, views, Trace, TraceMap};

verus! {

/// Where a test run stands.
#[derive(Clone, Copy, Debug, PartialEq, Eq, Structural)]
pub enum TestState {
    /// Waiting for the tracee's first stop.
    Start,
    /// Installing the breakpoints.
    Initialise,
    /// Waiting for the next event.
    Wait,
    /// Classifying the event received.
    Stopped,
    /// The tracee's root thread exited with this code.
    End(i32),
    /// The run failed and cannot go on.
    Unrecoverable,
    /// Instrumentation failed; there is no coverage to report.
    Abort,
}

impl TestState {
    pub open spec fn terminal(self) -> bool {
        match self {
            TestState::End(_) | TestState::Unrecoverable | TestState::Abort => true,
            _ => false,
        }
    }

    /// Whether the run is over.
    pub fn is_finished(&self) -> (r: bool)
        ensures
            r == self.terminal(),
    {
        match self {
            TestState::End(_) | TestState::Unrecoverable | TestState::Abort => true,
            _ => false,
        }
    }

    /// The state that waits for the next event.
    pub fn wait_state() -> (r: TestState)
        ensures
            r == TestState::Wait,
    {
        TestState::Wait
    }

    /// Whether the run ended with the tests passing: the root thread exited
    /// with code 0.
    pub fn test_passed(&self) -> (r: bool)
        ensures
            r == (*self == TestState::End(0)),
    {
        match self {
            TestState::End(code) => *code == 0,
            _ => false,
        }
    }
}

/// The outcome of one phase: where to go, and what to ask of the tracee.
#[derive(Debug)]
pub struct Step {
    /// The state once every action succeeded.
    pub next: TestState,
    /// Requests to perform, in order.
    pub actions: Vec<Action>,
    /// The state to take when an action fails; with none, failures are
    /// ignored.
    pub on_failure: Option<TestState>,
    /// What went wrong, recorded when an action fails.
    pub failure_message: Option<String>,
    /// Requests to attempt, their own failures ignored, once an action has
    /// failed.
    pub fallback: Vec<Action>,
}

/// The thread or process that a wait status is about.
pub open spec fn event_thread(e: WaitEvent) -> Option<ThreadId> {
    match e {
        WaitEvent::Stopped(c, _) => Some(c),
        WaitEvent::TraceStop(c, _, _) => Some(c),
        WaitEvent::Signaled(c, _, _) => Some(c),
        WaitEvent::Exited(c, _) => Some(c),
        WaitEvent::Other(c) => Some(c),
        _ => None,
    }
}

/// Every breakpoint in `bps` sits on some trace's address, at most one per
/// address, each well formed.
pub open spec fn breakpoints_ok(bps: Seq<Breakpoint>, traces: TraceMap) -> bool {
    &&& forall|i: int| 0 <= i < bps.len() ==> #[trigger] bps[i].wf()
    &&& forall|i: int, j: int|
        0 <= i < bps.len() && 0 <= j < bps.len() && i != j ==> #[trigger] bps[i].addr()
            != #[trigger] bps[j].addr()
    &&& forall|i: int| 0 <= i < bps.len() ==> on_trace(traces, #[trigger] bps[i].addr())
}

/// Some trace of `traces` sits at address `a`.
pub open spec fn on_trace(traces: TraceMap, a: u64) -> bool {
    exists|j: int| 0 <= j < traces@.len() && traces@[j].address == Some(a)
}

/// `new` keeps the keys of `old` and never lowers a hit count.
pub open spec fn hits_grow(old: TraceMap, new: TraceMap) -> bool {
    &&& new@.len() == old@.len()
    &&& forall|j: int|
        0 <= j < old@.len() ==> (#[trigger] new@[j]).key() == old@[j].key() && new@[j].hits()
            >= old@[j].hits()
}

/// The advice given when the tracee's memory refuses the engine: its code
/// is not where the debug information says, as with a position-independent
/// executable.
pub open spec fn pie_advice() -> Seq<char> {
    "ERROR: cannot find code addresses, check that pie is disabled for your linker. If linking with gcc try adding -C link-args=-no-pie to your rust flags"@
}

/// The error recorded when an instrumentation point could not be read.
pub open spec fn instrument_failure() -> Seq<char> {
    "Failed to instrument test executable"@
}

/// Some trace with an address met a failed read.
pub open spec fn failed_read(traces: Seq<Trace>, reads: Seq<ByteRead>) -> bool {
    exists|j: int|
        0 <= j < traces.len() && #[trigger] traces[j].address.is_some() && reads[j] == ByteRead::Failed
}

/// Some trap write was refused.
pub open spec fn write_denied(writes: Seq<WriteOutcome>) -> bool {
    exists|m: int| 0 <= m < writes.len() && #[trigger] writes[m] == WriteOutcome::Denied
}

/// Some trap write failed for another reason.
pub open spec fn write_failed(writes: Seq<WriteOutcome>) -> bool {
    exists|m: int| 0 <= m < writes.len() && #[trigger] writes[m] == WriteOutcome::Failed
}

/// Some trace with an address met a refused read.
pub open spec fn denied(traces: Seq<Trace>, reads: Seq<ByteRead>) -> bool {
    exists|j: int|
        0 <= j < traces.len() && #[trigger] traces[j].address.is_some() && reads[j] == ByteRead::Denied
}

/// The writes that put the trap in at each breakpoint, in order.
pub open spec fn trap_writes(bps: Seq<Breakpoint>) -> Seq<Action> {
    bps.map_values(|b: Breakpoint| Action::WriteByte(b.addr(), TRAP_BYTE))
}

proof fn lemma_replace_keeps_ok(bps: Seq<Breakpoint>, i: int, b: Breakpoint, traces: TraceMap)
    requires
        breakpoints_ok(bps, traces),
        0 <= i < bps.len(),
        b.wf(),
        b.addr() == bps[i].addr(),
    ensures
        breakpoints_ok(bps.update(i, b), traces),
{
    let u = bps.update(i, b);
    assert forall|k: int| 0 <= k < u.len() implies #[trigger] u[k].addr() == bps[k].addr() by {}
    assert forall|k: int| 0 <= k < u.len() implies on_trace(traces, #[trigger] u[k].addr()) by {
        assert(u[k].addr() == bps[k].addr());
    }
    assert forall|k: int, m: int| 0 <= k < u.len() && 0 <= m < u.len() && k != m implies #[trigger] u[k].addr()
        != #[trigger] u[m].addr() by {
        assert(u[k].addr() == bps[k].addr());
        assert(u[m].addr() == bps[m].addr());
    }
}

proof fn lemma_traces_grow_keeps_ok(bps: Seq<Breakpoint>, t1: TraceMap, t2: TraceMap)
    requires
        breakpoints_ok(bps, t1),
        t2@.len() == t1@.len(),
        forall|j: int| 0 <= j < t1@.len() ==> (#[trigger] t2@[j]).address == t1@[j].address,
    ensures
        breakpoints_ok(bps, t2),
{
    assert forall|k: int| 0 <= k < bps.len() implies on_trace(t2, #[trigger] bps[k].addr()) by {
        assert(on_trace(t1, bps[k].addr()));
        let j = choose|j: int| 0 <= j < t1@.len() && t1@[j].address == Some(bps[k].addr());
        assert(t2@[j].address == t1@[j].address);
        assert(0 <= j < t2@.len() && t2@[j].address == Some(bps[k].addr()));
    }
    assert(forall|i: int| 0 <= i < bps.len() ==> #[trigger] bps[i].wf());
    assert(forall|i: int, j: int|
        0 <= i < bps.len() && 0 <= j < bps.len() && i != j ==> #[trigger] bps[i].addr()
            != #[trigger] bps[j].addr());
}

/// The thread count after a tracing event: a created thread adds one, an
/// exiting one takes one away, never below zero.
pub open spec fn event_threads(n: int, sig: Signal, event: TraceEvent, new_thread: Option<ThreadId>) -> int {
    if sig != Signal::Trap {
        n
    } else {
        match event {
            TraceEvent::Clone => if new_thread.is_some() && n < i64::MAX {
                n + 1
            } else {
                n
            },
            TraceEvent::Exit => if n > 0 {
                n - 1
            } else {
                n
            },
            _ => n,
        }
    }
}

/// The thread that stopped, when `ev` is a trap stop.
pub open spec fn trap_stop(ev: WaitEvent) -> Option<ThreadId> {
    match ev {
        WaitEvent::Stopped(c, Signal::Trap) => Some(c),
        _ => None,
    }
}

/// The state after a tracing event.
pub open spec fn event_next(sig: Signal, event: TraceEvent, new_thread: Option<ThreadId>) -> TestState {
    if sig != Signal::Trap {
        TestState::Unrecoverable
    } else {
        match event {
            TraceEvent::Clone => if new_thread.is_some() {
                TestState::Wait
            } else {
                TestState::Unrecoverable
            },
            TraceEvent::Other(_) => TestState::Unrecoverable,
            _ => TestState::Wait,
        }
    }
}

/// The state after `stop` classified `ev`, with `parent` the root thread.
pub open spec fn stop_next(ev: WaitEvent, parent: ThreadId, new_thread: Option<ThreadId>) -> TestState {
    match ev {
        WaitEvent::TraceStop(_, sig, event) => event_next(sig, event, new_thread),
        WaitEvent::Stopped(_, Signal::Segv) => TestState::Unrecoverable,
        WaitEvent::Stopped(_, _) => TestState::Wait,
        WaitEvent::Signaled(_, sig, core) => if sig == Signal::Trap && core {
            TestState::Wait
        } else {
            TestState::Unrecoverable
        },
        WaitEvent::Exited(c, code) => if c == parent {
            TestState::End(code)
        } else {
            TestState::Wait
        },
        _ => TestState::Unrecoverable,
    }
}

/// The tests pass exactly when the tracee's root thread exits with code 0:
/// the root thread's exit ends the run with its code, no other event ends
/// it, and only an end with code 0 counts as passing.
pub proof fn exit_code_fidelity(ev: WaitEvent, parent: ThreadId, new_thread: Option<ThreadId>, code: i32)
    ensures
        stop_next(WaitEvent::Exited(parent, code), parent, new_thread) == TestState::End(code),
        stop_next(ev, parent, new_thread) is End ==> ev == WaitEvent::Exited(
            parent,
            stop_next(ev, parent, new_thread)->End_0,
        ),
        (TestState::End(code) == TestState::End(0)) <==> code == 0,
{
}

/// The thread count never drops below zero: every tracing event keeps a
/// count that was not negative at zero or above.
pub proof fn thread_count_floor(
    n: int,
    sig: Signal,
    event: TraceEvent,
    new_thread: Option<ThreadId>,
)
    requires
        n >= 0,
    ensures
        event_threads(n, sig, event, new_thread) >= 0,
{
}

/// Some breakpoint has thread `t` stepping past it.
pub open spec fn pending_on(bps: Seq<Breakpoint>, t: ThreadId) -> bool {
    exists|k: int| 0 <= k < bps.len() && #[trigger] bps[k].pending_threads().contains(t)
}

/// `r` only resumes `t`, recording a failure to collect coverage if that fails.
pub open spec fn resumes(r: Step, t: ThreadId) -> bool {
    &&& r.next == TestState::Wait
    &&& r.actions@ == seq![Action::Continue(t, None)]
    &&& r.on_failure == Some(TestState::Unrecoverable)
    &&& r.failure_message is Some && r.failure_message.unwrap()@ == "Error when collecting coverage"@
    &&& r.fallback@.len() == 0
}

/// `r` performs breakpoint requests `acts` for `t`; should one fail, `t` is
/// still resumed and the run goes on.
pub open spec fn breakpoint_requests(r: Step, t: ThreadId, acts: Seq<Action>) -> bool {
    &&& r.next == TestState::Wait
    &&& r.actions@ == acts
    &&& r.on_failure == Some(TestState::Wait)
    &&& r.fallback@ == seq![Action::Continue(t, None)]
}

/// The hit policy was consulted: the once-only warning is given when
/// counting is off and it was still due.
pub open spec fn policy_applied(old: Data, new: Data) -> bool {
    &&& new.warning_due() == (old.warning_due() && old.refire())
    &&& old.warning_due() && !old.refire() ==> new.notes_view().len() == old.notes_view().len() + 2
    &&& !(old.warning_due() && !old.refire()) ==> new.notes_view() == old.notes_view()
}

/// What a trap stop of `t` at instruction pointer `ip` does to the
/// breakpoints and asks of the tracee.
pub open spec fn trap_step(old: Data, new: Data, t: ThreadId, ip: Option<u64>, r: Step) -> bool {
    let bps = old.breakpoints_view();
    let nbps = new.breakpoints_view();
    &&& ip is None ==> resumes(r, t) && nbps == bps && new.warning_due() == old.warning_due()
        && new.notes_view() == old.notes_view()
    &&& ip is Some && pending_on(bps, t) ==> exists|k: int|
        0 <= k < bps.len() && bps[k].pending_threads().contains(t) && nbps == bps.update(k, nbps[k])
            && stepped(bps[k], nbps[k], t, old.refire()) && breakpoint_requests(
            r,
            t,
            step_requests(nbps[k], t),
        ) && policy_applied(old, new)
    &&& old.hit_address(t, ip) is Some ==> exists|k: int|
        0 <= k < bps.len() && bps[k].addr() == old.hit_address(t, ip).unwrap() && nbps == bps.update(
            k,
            nbps[k],
        ) && taken(bps[k], nbps[k], t) && breakpoint_requests(r, t, hit_requests(bps[k], t))
            && policy_applied(old, new)
    &&& ip is Some && !pending_on(bps, t) && old.hit_address(t, ip) is None ==> resumes(r, t) && nbps
        == bps && new.warning_due() == old.warning_due() && new.notes_view() == old.notes_view()
}

/// The error recorded when the tracee segfaults.
pub open spec fn segfault_message() -> Seq<char> {
    "Error a segfault occured when executing test"@
}

/// `r` resumes `c` or detaches it; a failure is recorded and ends the run.
pub open spec fn checked_request(r: Step, act: Action, msg: Seq<char>) -> bool {
    &&& r.actions@ == seq![act]
    &&& r.on_failure == Some(TestState::Unrecoverable)
    &&& r.failure_message is Some && r.failure_message.unwrap()@ == msg
    &&& r.fallback@.len() == 0
}

/// `e` holds the message `m`.
pub open spec fn err_is(e: Option<String>, m: Seq<char>) -> bool {
    e is Some && e.unwrap()@ == m
}

/// The error recorded when a request after a tracing event fails.
pub open spec fn ptrace_failure() -> Seq<char> {
    "Error occurred when handling ptrace event"@
}

/// The error recorded for a tracing event that ends the run, if any: a
/// stop on another signal than a trap, or a new thread whose id could not
/// be read.
pub open spec fn event_error(sig: Signal, event: TraceEvent) -> Option<Seq<char>> {
    if sig != Signal::Trap {
        Some("Unexpected ptrace event"@)
    } else if event == TraceEvent::Clone {
        Some("Error occurred upon test executable thread creation"@)
    } else {
        None
    }
}

/// What `stop` does for a status `ev` that is not a trap stop, besides the
/// next state and the thread count.
pub open spec fn other_stop(old: Data, new: Data, ev: WaitEvent, r: Step) -> bool {
    let bps = old.breakpoints_view();
    let nbps = new.breakpoints_view();
    &&& new.notes_view() == old.notes_view()
    &&& new.warning_due() == old.warning_due()
    &&& nbps.len() == bps.len()
    &&& match ev {
        WaitEvent::Exited(c, _) => {
            &&& forall|k: int|
                0 <= k < bps.len() ==> {
                    &&& !(#[trigger] nbps[k]).pending_threads().contains(c)
                    &&& nbps[k].addr() == bps[k].addr()
                    &&& nbps[k].orig() == bps[k].orig()
                    &&& nbps[k].is_armed() == bps[k].is_armed()
                }
            &&& r.actions@ == if c == old.root() {
                Seq::<Action>::empty()
            } else {
                seq![Action::Continue(old.root(), None)]
            }
            &&& r.on_failure.is_none()
            &&& new.error() == old.error()
        },
        _ => nbps == bps,
    }
    &&& match ev {
        WaitEvent::Stopped(c, Signal::Stop) => checked_request(
            r,
            Action::Continue(c, None),
            "Error processing SIGSTOP"@,
        )
            && new.error() == old.error(),
        WaitEvent::Stopped(_, Signal::Segv) => r.actions@.len() == 0 && new.error() is Some
            && new.error().unwrap()@ == segfault_message(),
        WaitEvent::Stopped(_, Signal::Trap) => true,
        WaitEvent::Stopped(c, s) => {
            &&& r.actions@ == seq![
                Action::Continue(c, if old.forwarding() {
                    Some(s)
                } else {
                    None
                }),
            ]
            &&& r.on_failure.is_none()
            &&& new.error() == old.error()
        },
        WaitEvent::TraceStop(c, sig, event) => if r.next == TestState::Wait {
            &&& checked_request(
                r,
                if event == TraceEvent::Exec {
                    Action::Detach(c)
                } else {
                    Action::Continue(c, None)
                },
                ptrace_failure(),
            )
            &&& new.error() == old.error()
        } else {
            &&& r.actions@.len() == 0
            &&& match event_error(sig, event) {
                Some(m) => err_is(new.error(), m),
                None => new.error() == old.error(),
            }
        },
        WaitEvent::Signaled(c, s, core) => if s == Signal::Trap && core {
            checked_request(r, Action::Continue(c, None), "Error attempting to handle a signaled thread"@)
                && new.error() == old.error()
        } else {
            r.actions@.len() == 0 && err_is(new.error(), "Unexpected stop"@)
        },
        WaitEvent::Exited(_, _) => true,
        _ => r.actions@.len() == 0 && new.error() == old.error(),
    }
}

/// The state of one test run: the tracee's threads, the breakpoints and the
/// traces they count into.
#[derive(Debug)]
pub struct Data {
    /// Most recent status, to be classified by `stop`.
    wait: WaitEvent,
    /// The thread being handled.
    current: ThreadId,
    /// The tracee's root thread.
    parent: ThreadId,
    /// One breakpoint per instrumented address, kept in a `Vec` whose
    /// addresses are unique: a breakpoint is changed in place and all of them
    /// are visited when a thread exits.
    breakpoints: Vec<Breakpoint>,
    /// Instrumentation points with their coverage.
    traces: TraceMap,
    /// Count every hit when the tracee allows it.
    count: bool,
    /// Hand unhandled signals back to the tracee.
    forward_signals: bool,
    /// Report minor problems too.
    verbose: bool,
    /// What went wrong, for the user.
    error_message: Option<String>,
    /// Threads created minus threads exited.
    thread_count: i64,
    /// The warning that hit counting is off has not been given yet.
    force_disable_hit_count: bool,
    /// Messages for the user, oldest first.
    notes: Vec<String>,
}

impl Data {
    pub closed spec fn traces_view(&self) -> TraceMap {
        self.traces
    }

    pub closed spec fn breakpoints_view(&self) -> Seq<Breakpoint> {
        self.breakpoints@
    }

    pub closed spec fn cur(&self) -> ThreadId {
        self.current
    }

    pub closed spec fn root(&self) -> ThreadId {
        self.parent
    }

    pub closed spec fn error(&self) -> Option<String> {
        self.error_message
    }

    /// The thread being handled.
    pub fn current(&self) -> (r: ThreadId)
        ensures
            r == self.cur(),
    {
        self.current
    }

    /// The tracee's root thread.
    pub fn parent(&self) -> (r: ThreadId)
        ensures
            r == self.root(),
    {
        self.parent
    }

    /// What went wrong during the run, if anything did.
    pub fn error_message(&self) -> (r: &Option<String>)
        ensures
            *r == self.error(),
    {
        &self.error_message
    }

    /// The status that `stop` will classify: the caller reads the
    /// instruction pointer or the new thread's id that it needs.
    pub fn pending_event(&self) -> (r: WaitEvent)
        ensures
            r == self.last_event(),
    {
        self.wait
    }

    pub closed spec fn notes_view(&self) -> Seq<Seq<char>> {
        views(self.notes@)
    }

    /// Messages for the user, oldest first.
    pub fn notes(&self) -> (r: &Vec<String>)
        ensures
            views(r@) == self.notes_view(),
    {
        &self.notes
    }

    /// An action of `step` failed: records the step's failure message, if
    /// it has one and a failure state, and returns the state to go to.
    pub fn record_failure(&mut self, step: &Step) -> (r: TestState)
        ensures
            r == match step.on_failure {
                Some(s) => s,
                None => step.next,
            },
            final(self).error() == if step.on_failure.is_some() && step.failure_message.is_some() {
                step.failure_message
            } else {
                old(self).error()
            },
            final(self).wf() == old(self).wf(),
            final(self).traces_view() == old(self).traces_view(),
            final(self).breakpoints_view() == old(self).breakpoints_view(),
            final(self).threads() == old(self).threads(),
            final(self).counting() == old(self).counting(),
            final(self).forwarding() == old(self).forwarding(),
            final(self).warning_due() == old(self).warning_due(),
            final(self).cur() == old(self).cur(),
            final(self).root() == old(self).root(),
            final(self).notes_view() == old(self).notes_view(),
    {
        match step.on_failure {
            Some(s) => {
                match &step.failure_message {
                    Some(m) => {
                        self.error_message = Some(m.clone());
                    },
                    None => {},
                }
                s
            },
            None => step.next,
        }
    }

    pub closed spec fn threads(&self) -> int {
        self.thread_count as int
    }

    pub closed spec fn counting(&self) -> bool {
        self.count
    }

    pub closed spec fn last_event(&self) -> WaitEvent {
        self.wait
    }

    pub closed spec fn warning_due(&self) -> bool {
        self.force_disable_hit_count
    }

    /// Whether a hit is counted every time rather than once.
    pub open spec fn refire(&self) -> bool {
        self.counting() && self.threads() < 2
    }

    /// The traces are well formed, every breakpoint sits on a trace, and the
    /// thread count is never negative.
    pub open spec fn wf(&self) -> bool {
        &&& self.traces_view().wf()
        &&& breakpoints_ok(self.breakpoints_view(), self.traces_view())
        &&& self.threads() >= 0
    }

    /// A run over `traces`, before the tracee is known.
    pub fn new(traces: TraceMap, config: &Config) -> (r: Data)
        requires
            traces.wf(),
        ensures
            r.wf(),
            r.traces_view() == traces,
            r.breakpoints_view().len() == 0,
            r.threads() == 0,
            r.counting() == config.count,
            r.warning_due() == config.count,
            r.cur() == 0,
            r.root() == 0,
            r.error().is_none(),
            r.last_event() == WaitEvent::StillAlive,
            r.forwarding() == config.forward_signals,
            r.notes_view().len() == 0,
    {
        Data {
            wait: WaitEvent::StillAlive,
            current: 0,
            parent: 0,
            breakpoints: Vec::new(),
            traces,
            count: config.count,
            forward_signals: config.forward_signals,
            verbose: config.verbose,
            error_message: None,
            thread_count: 0,
            force_disable_hit_count: config.count,
            notes: Vec::new(),
        }
    }

    /// Records the tracee's root thread.
    pub fn set_parent(&mut self, parent: ThreadId)
        ensures
            final(self).root() == parent,
            final(self).cur() == parent,
            final(self).wf() == old(self).wf(),
            final(self).traces_view() == old(self).traces_view(),
            final(self).breakpoints_view() == old(self).breakpoints_view(),
            final(self).threads() == old(self).threads(),
            final(self).forwarding() == old(self).forwarding(),
            final(self).counting() == old(self).counting(),
            final(self).warning_due() == old(self).warning_due(),
    {
        self.parent = parent;
        self.current = parent;
    }

    /// The traces gathered so far.
    pub fn traces(&self) -> (r: &TraceMap)
        ensures
            *r == self.traces_view(),
    {
        &self.traces
    }

    /// Ends the run and hands back its traces.
    pub fn into_traces(self) -> (r: TraceMap)
        ensures
            r == self.traces_view(),
    {
        self.traces
    }

    /// Number of breakpoints installed.
    pub fn breakpoint_count(&self) -> (r: usize)
        ensures
            r == self.breakpoints_view().len(),
    {
        self.breakpoints.len()
    }

    /// Waiting for the first stop of the tracee. A trap stop moves on to
    /// instrumentation and asks to follow the tracee's children; any other
    /// stop resumes the thread that stopped and keeps waiting.
    pub fn start(&mut self, ev: WaitEvent) -> (r: Step)
        requires
            old(self).wf(),
        ensures
            final(self).wf(),
            final(self).traces_view() == old(self).traces_view(),
            final(self).breakpoints_view() == old(self).breakpoints_view(),
            final(self).threads() == old(self).threads(),
            final(self).forwarding() == old(self).forwarding(),
            final(self).counting() == old(self).counting(),
            final(self).warning_due() == old(self).warning_due(),
            final(self).root() == old(self).root(),
            match ev {
                WaitEvent::StillAlive => {
                    &&& r.next == TestState::Start
                    &&& r.actions@.len() == 0
                    &&& final(self).cur() == old(self).cur()
                    &&& final(self).last_event() == old(self).last_event()
                    &&& final(self).error() == old(self).error()
                    &&& final(self).notes_view() == old(self).notes_view()
                },
                WaitEvent::Stopped(c, Signal::Trap) => {
                    &&& r.next == TestState::Initialise
                    &&& final(self).cur() == c
                    &&& final(self).last_event() == ev
                    &&& r.actions@ == seq![Action::TraceChildren(c)]
                    &&& r.on_failure.is_none()
                },
                WaitEvent::Failed => r.next == TestState::Unrecoverable && r.actions@.len() == 0,
                _ => {
                    &&& r.next == TestState::Start
                    &&& r.actions@ == seq![Action::Continue(event_thread(ev).unwrap(), None)]
                    &&& r.on_failure == Some(TestState::Unrecoverable)
                },
            },
    {
        let mut actions: Vec<Action> = Vec::new();
        match ev {
            WaitEvent::StillAlive => Step { next: TestState::Start, actions, on_failure: None, failure_message: None, fallback: Vec::new() },
            WaitEvent::Stopped(c, Signal::Trap) => {
                self.current = c;
                self.wait = ev;
                actions.push(Action::TraceChildren(c));
                proof {
                    assert(actions@ =~= seq![Action::TraceChildren(c)]);
                }
                Step { next: TestState::Initialise, actions, on_failure: None, failure_message: None, fallback: Vec::new() }
            },
            WaitEvent::Failed => {
                self.notes.push("Error when starting test".to_owned());
                Step { next: TestState::Unrecoverable, actions, on_failure: None, failure_message: None, fallback: Vec::new() }
            },
            WaitEvent::Stopped(c, _) | WaitEvent::TraceStop(c, _, _) | WaitEvent::Signaled(c, _, _)
            | WaitEvent::Exited(c, _) | WaitEvent::Other(c) => {
                self.notes.push("Unexpected signal when starting test, attempting to continue".to_owned());
                actions.push(Action::Continue(c, None));
                proof {
                    assert(actions@ =~= seq![Action::Continue(c, None)]);
                }
                Step { next: TestState::Start, actions, on_failure: Some(TestState::Unrecoverable), failure_message: None, fallback: Vec::new() }
            },
        }
    }

    /// Waiting for the next event: a status other than "still alive" is kept
    /// for `stop`.
    pub fn wait(&mut self, ev: WaitEvent) -> (r: Step)
        requires
            old(self).wf(),
        ensures
            final(self).wf(),
            final(self).traces_view() == old(self).traces_view(),
            final(self).breakpoints_view() == old(self).breakpoints_view(),
            final(self).threads() == old(self).threads(),
            final(self).forwarding() == old(self).forwarding(),
            final(self).counting() == old(self).counting(),
            final(self).warning_due() == old(self).warning_due(),
            final(self).root() == old(self).root(),
            final(self).cur() == old(self).cur(),
            r.actions@.len() == 0,
            r.next == match ev {
                WaitEvent::StillAlive => TestState::Wait,
                WaitEvent::Failed => TestState::Unrecoverable,
                _ => TestState::Stopped,
            },
            ev != WaitEvent::StillAlive && ev != WaitEvent::Failed ==> final(self).last_event() == ev,
            ev == WaitEvent::StillAlive ==> final(self).last_event() == old(self).last_event()
                && final(self).error() == old(self).error(),
            ev == WaitEvent::Failed ==> final(self).error() is Some && final(self).error().unwrap()@
                == "An error occurred while waiting for response from test"@,
    {
        let actions: Vec<Action> = Vec::new();
        match ev {
            WaitEvent::StillAlive => Step { next: TestState::Wait, actions, on_failure: None, failure_message: None, fallback: Vec::new() },
            WaitEvent::Failed => {
                self.error_message = Some(
                    "An error occurred while waiting for response from test".to_owned(),
                );
                Step { next: TestState::Unrecoverable, actions, on_failure: None, failure_message: None, fallback: Vec::new() }
            },
            _ => {
                self.wait = ev;
                Step { next: TestState::Stopped, actions, on_failure: None, failure_message: None, fallback: Vec::new() }
            },
        }
    }

    /// Index of the breakpoint at `address`, if there is one.
    fn find_breakpoint(&self, address: u64) -> (r: Option<usize>)
        ensures
            match r {
                Some(i) => i < self.breakpoints_view().len() && self.breakpoints_view()[i as int].addr()
                    == address,
                None => forall|i: int|
                    0 <= i < self.breakpoints_view().len() ==> #[trigger] self.breakpoints_view()[i].addr()
                        != address,
            },
    {
        let mut i: usize = 0;
        while i < self.breakpoints.len()
            invariant
                0 <= i <= self.breakpoints@.len(),
                forall|j: int| 0 <= j < i ==> #[trigger] self.breakpoints@[j].addr() != address,
            decreases self.breakpoints@.len() - i,
        {
            if self.breakpoints[i].address() == address {
                return Some(i);
            }
            i = i + 1;
        }
        None
    }

    /// Installs a breakpoint at every address of the traces. `reads` holds,
    /// for each trace in order, the outcome of reading the byte at its
    /// address (ignored for a trace without one). A refused read stops
    /// instrumentation and aborts the run: the executable is most likely
    /// position independent. Addresses met twice get one breakpoint.
    /// Otherwise the requests write the traps; the caller performs each and
    /// hands the outcomes to `instrumented`.
    pub fn init(&mut self, reads: &Vec<ByteRead>) -> (r: Step)
        requires
            old(self).wf(),
            old(self).breakpoints_view().len() == 0,
            reads@.len() == old(self).traces_view()@.len(),
        ensures
            final(self).wf(),
            final(self).traces_view() == old(self).traces_view(),
            final(self).threads() == old(self).threads(),
            final(self).forwarding() == old(self).forwarding(),
            final(self).counting() == old(self).counting(),
            final(self).warning_due() == old(self).warning_due(),
            final(self).root() == old(self).root(),
            final(self).cur() == old(self).cur(),
            denied(old(self).traces_view()@, reads@) ==> {
                &&& r.next == TestState::Abort
                &&& r.actions@.len() == 0
                &&& final(self).notes_view().len() > 0
                &&& final(self).notes_view().last() == pie_advice()
            },
            !denied(old(self).traces_view()@, reads@) ==> {
                &&& r.next == TestState::Initialise
                &&& r.on_failure.is_none()
                &&& r.failure_message.is_none()
                &&& r.fallback@.len() == 0
                &&& failed_read(old(self).traces_view()@, reads@) ==> final(self).error() is Some
                    && final(self).error().unwrap()@ == instrument_failure()
                &&& !failed_read(old(self).traces_view()@, reads@) ==> final(self).error() == old(
                    self,
                ).error()
                &&& r.actions@ == trap_writes(final(self).breakpoints_view())
                &&& forall|j: int|
                    0 <= j < reads@.len() && (#[trigger] old(self).traces_view()@[j]).address.is_some()
                        && reads@[j] is Value ==> exists|k: int|
                        0 <= k < final(self).breakpoints_view().len() && Some(
                            #[trigger] final(self).breakpoints_view()[k].addr(),
                        ) == old(self).traces_view()@[j].address
            },
            forall|k: int|
                0 <= k < final(self).breakpoints_view().len() ==> {
                    &&& (#[trigger] final(self).breakpoints_view()[k]).is_armed()
                    &&& final(self).breakpoints_view()[k].pending_threads().len() == 0
                    &&& exists|j: int|
                        0 <= j < reads@.len() && old(self).traces_view()@[j].address == Some(
                            final(self).breakpoints_view()[k].addr(),
                        ) && #[trigger] reads@[j] == ByteRead::Value(
                            final(self).breakpoints_view()[k].orig(),
                        )
                },
    {
        let ghost ts = self.traces@;
        let mut actions: Vec<Action> = Vec::new();
        let mut instrumented = true;
        let mut i: usize = 0;
        let n = self.traces.total_coverable();
        while i < n && instrumented
            invariant
                n == ts.len(),
                reads@.len() == ts.len(),
                self.traces@ == ts,
                self.traces == old(self).traces,
                self.thread_count == old(self).thread_count,
                self.count == old(self).count,
                self.forward_signals == old(self).forward_signals,
                self.force_disable_hit_count == old(self).force_disable_hit_count,
                self.parent == old(self).parent,
                self.current == old(self).current,
                self.wf(),
                0 <= i <= n,
                actions@ == trap_writes(self.breakpoints@),
                !instrumented ==> denied(ts, reads@),
                !instrumented ==> self.notes_view().len() > 0 && self.notes_view().last() == pie_advice(),
                (exists|j: int| 0 <= j < i && #[trigger] ts[j].address.is_some() && reads@[j] == ByteRead::Failed)
                    ==> self.error_message is Some && self.error_message.unwrap()@ == instrument_failure(),
                !(exists|j: int| 0 <= j < i && #[trigger] ts[j].address.is_some() && reads@[j] == ByteRead::Failed)
                    ==> self.error_message == old(self).error_message,
                instrumented ==> forall|j: int|
                    0 <= j < i ==> !(#[trigger] ts[j].address.is_some() && reads@[j] == ByteRead::Denied),
                forall|j: int|
                    0 <= j < i && (#[trigger] ts[j]).address.is_some() && reads@[j] is Value ==> exists|k: int|
                        0 <= k < self.breakpoints@.len() && Some(#[trigger] self.breakpoints@[k].addr()) == ts[j].address,
                forall|k: int|
                    0 <= k < self.breakpoints@.len() ==> {
                        &&& (#[trigger] self.breakpoints@[k]).is_armed()
                        &&& self.breakpoints@[k].pending_threads().len() == 0
                        &&& exists|j: int|
                            0 <= j < i && ts[j].address == Some(self.breakpoints@[k].addr())
                                && #[trigger] reads@[j] == ByteRead::Value(self.breakpoints@[k].orig())
                    },
            decreases n - i,
        {
            let addr = self.traces.get(i).address;
            match addr {
                Some(a) => {
                    match reads[i] {
                        ByteRead::Value(b) => {
                            match self.find_breakpoint(a) {
                                Some(k) => {
                                    proof {
                                        assert(Some(self.breakpoints@[k as int].addr()) == ts[i as int].address);
                                    }
                                    if self.verbose {
                                        self.notes.push(
                                            "Instrumentation address clash, ignoring it".to_owned(),
                                        );
                                    }
                                },
                                None => {
                                    let (bp, w) = Breakpoint::install(a, b);
                                    let ghost prev = self.breakpoints@;
                                    self.breakpoints.push(bp);
                                    actions.push(w);
                                    proof {
                                        assert(actions@ =~= trap_writes(self.breakpoints@));
                                        assert(self.breakpoints@[prev.len() as int].addr() == a);
                                        assert(ts[i as int].address == Some(a));
                                        assert(reads@[i as int] == ByteRead::Value(b));
                                        assert(on_trace(self.traces, a));
                                        assert forall|k: int|
                                            0 <= k < self.breakpoints@.len() implies on_trace(self.traces,
                                                    #[trigger] self.breakpoints@[k].addr(),
                                                ) by {
                                            if k < prev.len() {
                                                assert(self.breakpoints@[k] == prev[k]);
                                            }
                                        }
                                        assert forall|j: int|
                                            0 <= j < i + 1 && (#[trigger] ts[j]).address.is_some() && reads@[j] is Value implies exists|k: int|
                                                0 <= k < self.breakpoints@.len() && Some(#[trigger] self.breakpoints@[k].addr()) == ts[j].address by {
                                            if j < i {
                                                let k = choose|k: int| 0 <= k < prev.len() && Some(#[trigger] prev[k].addr()) == ts[j].address;
                                                assert(self.breakpoints@[k] == prev[k]);
                                            } else {
                                                assert(Some(self.breakpoints@[prev.len() as int].addr()) == ts[j].address);
                                            }
                                        }
                                    }
                                },
                            }
                        },
                        ByteRead::Denied => {
                            let ghost old_notes = self.notes@;
                            self.notes.push(
                                "ERROR: cannot find code addresses, check that pie is disabled for your linker. If linking with gcc try adding -C link-args=-no-pie to your rust flags".to_owned(),
                            );
                            proof {
                                assert(views(self.notes@) =~= views(old_notes).push(pie_advice()));
                            }
                            instrumented = false;
                            proof {
                                assert(ts[i as int].address.is_some());
                            }
                        },
                        ByteRead::Failed => {
                            self.error_message = Some("Failed to instrument test executable".to_owned());
                        },
                    }
                },
                None => {},
            }
            i = i + 1;
        }
        if !instrumented {
            return Step { next: TestState::Abort, actions: Vec::new(), on_failure: None, failure_message: None, fallback: Vec::new() };
        }
        proof {
            assert(i == n);
        }
        proof {
            assert(failed_read(ts, reads@) == (exists|j: int|
                0 <= j < i && #[trigger] ts[j].address.is_some() && reads@[j] == ByteRead::Failed));
        }
        Step { next: TestState::Initialise, actions, on_failure: None, failure_message: None, fallback: Vec::new() }
    }

    /// Ends instrumentation with `writes`, the outcome of each trap write
    /// that `init` asked for, in order. A refused write aborts the run with
    /// the advice to link without position independence. A breakpoint whose
    /// write failed otherwise is left out, and the failure recorded. Then the
    /// root thread is resumed; should that fail, the run cannot go on.
    pub fn instrumented(&mut self, writes: &Vec<WriteOutcome>) -> (r: Step)
        requires
            old(self).wf(),
            writes@.len() == old(self).breakpoints_view().len(),
            forall|k: int|
                0 <= k < old(self).breakpoints_view().len() ==> (#[trigger] old(
                    self,
                ).breakpoints_view()[k]).pending_threads().len() == 0,
        ensures
            final(self).wf(),
            final(self).traces_view() == old(self).traces_view(),
            final(self).threads() == old(self).threads(),
            final(self).forwarding() == old(self).forwarding(),
            final(self).counting() == old(self).counting(),
            final(self).warning_due() == old(self).warning_due(),
            final(self).root() == old(self).root(),
            final(self).cur() == old(self).cur(),
            write_denied(writes@) ==> {
                &&& r.next == TestState::Abort
                &&& r.actions@.len() == 0
                &&& final(self).notes_view() == old(self).notes_view().push(pie_advice())
                &&& final(self).error() == old(self).error()
            },
            !write_denied(writes@) ==> {
                &&& r.next == TestState::Wait
                &&& r.actions@ == seq![Action::Continue(old(self).root(), None)]
                &&& r.on_failure == Some(TestState::Unrecoverable)
                &&& r.failure_message.is_none()
                &&& r.fallback@.len() == 0
                &&& final(self).notes_view() == old(self).notes_view()
                &&& write_failed(writes@) ==> final(self).error() is Some
                    && final(self).error().unwrap()@ == instrument_failure()
                &&& !write_failed(writes@) ==> final(self).error() == old(self).error()
            },
            final(self).breakpoints_view().len() == old(self).breakpoints_view().len(),
            forall|k: int|
                0 <= k < old(self).breakpoints_view().len() ==> {
                    &&& (#[trigger] final(self).breakpoints_view()[k]).addr() == old(
                        self,
                    ).breakpoints_view()[k].addr()
                    &&& final(self).breakpoints_view()[k].orig() == old(self).breakpoints_view()[k].orig()
                    &&& final(self).breakpoints_view()[k].pending_threads().len() == 0
                    &&& final(self).breakpoints_view()[k].is_armed() == (old(
                        self,
                    ).breakpoints_view()[k].is_armed() && writes@[k] == WriteOutcome::Done)
                },
    {
        let mut i: usize = 0;
        let mut failed = false;
        while i < writes.len()
            invariant
                0 <= i <= writes@.len(),
                writes@.len() == self.breakpoints@.len(),
                self.wf(),
                self.traces == old(self).traces,
                self.thread_count == old(self).thread_count,
                self.count == old(self).count,
                self.forward_signals == old(self).forward_signals,
                self.force_disable_hit_count == old(self).force_disable_hit_count,
                self.parent == old(self).parent,
                self.current == old(self).current,
                self.notes == old(self).notes,
                self.error_message == old(self).error_message,
                self.breakpoints@.len() == old(self).breakpoints@.len(),
                failed == (exists|j: int| 0 <= j < i && #[trigger] writes@[j] == WriteOutcome::Failed),
                forall|k: int|
                    0 <= k < self.breakpoints@.len() ==> {
                        &&& (#[trigger] self.breakpoints@[k]).addr() == old(self).breakpoints@[k].addr()
                        &&& self.breakpoints@[k].orig() == old(self).breakpoints@[k].orig()
                        &&& self.breakpoints@[k].pending_threads().len() == 0
                        &&& self.breakpoints@[k].is_armed() == if k < i {
                            old(self).breakpoints@[k].is_armed() && writes@[k] == WriteOutcome::Done
                        } else {
                            old(self).breakpoints@[k].is_armed()
                        }
                    },
            decreases writes@.len() - i,
        {
            match writes[i] {
                WriteOutcome::Done => {},
                WriteOutcome::Denied => {},
                WriteOutcome::Failed => {
                    failed = true;
                },
            }
            if writes[i] != WriteOutcome::Done {
                let ghost prev = self.breakpoints@;
                let mut bp = self.breakpoints.remove(i);
                bp.disarm();
                self.breakpoints.insert(i, bp);
                proof {
                    assert(self.breakpoints@ =~= prev.update(i as int, bp));
                    lemma_replace_keeps_ok(prev, i as int, bp, self.traces);
                }
            }
            i = i + 1;
        }
        let mut denied = false;
        let mut j: usize = 0;
        while j < writes.len()
            invariant
                0 <= j <= writes@.len(),
                denied == (exists|m: int| 0 <= m < j && #[trigger] writes@[m] == WriteOutcome::Denied),
            decreases writes@.len() - j,
        {
            if writes[j] == WriteOutcome::Denied {
                denied = true;
            }
            j = j + 1;
        }
        if denied {
            let ghost n0 = self.notes@;
            self.notes.push(
                "ERROR: cannot find code addresses, check that pie is disabled for your linker. If linking with gcc try adding -C link-args=-no-pie to your rust flags".to_owned(),
            );
            proof {
                assert(views(self.notes@) =~= views(n0).push(pie_advice()));
            }
            return Step { next: TestState::Abort, actions: Vec::new(), on_failure: None, failure_message: None, fallback: Vec::new() };
        }
        if failed {
            self.error_message = Some("Failed to instrument test executable".to_owned());
        }
        let mut actions: Vec<Action> = Vec::new();
        actions.push(Action::Continue(self.parent, None));
        proof {
            assert(actions@ =~= seq![Action::Continue(old(self).parent, None)]);
        }
        Step { next: TestState::Wait, actions, on_failure: Some(TestState::Unrecoverable), failure_message: None, fallback: Vec::new() }
    }

    pub closed spec fn forwarding(&self) -> bool {
        self.forward_signals
    }

    /// The address of a fresh hit when `thread` stops on a trap with its
    /// instruction pointer at `ip`: the thread is not stepping past a
    /// breakpoint, and an armed one sits just before `ip`.
    pub open spec fn hit_address(&self, thread: ThreadId, ip: Option<u64>) -> Option<u64> {
        match ip {
            Some(p) => if p >= 1 && (forall|k: int|
                0 <= k < self.breakpoints_view().len()
                    ==> !(#[trigger] self.breakpoints_view()[k]).pending_threads().contains(thread))
                && (exists|k: int|
                0 <= k < self.breakpoints_view().len() && (#[trigger] self.breakpoints_view()[k]).addr()
                    == (p - 1) as u64 && self.breakpoints_view()[k].is_armed()) {
                Some((p - 1) as u64)
            } else {
                None
            },
            None => None,
        }
    }

    /// The address whose first trace gains a hit when `thread` stops on a
    /// trap at `ip`: a fresh hit, counted when every hit counts or when the
    /// line has not been hit yet.
    pub open spec fn counted_hit(&self, thread: ThreadId, ip: Option<u64>) -> Option<u64> {
        match self.hit_address(thread, ip) {
            Some(a) => if self.refire() || (forall|i: int|
                is_first_at(self.traces_view()@, a, i) ==> self.traces_view()@[i].hits() == 0) {
                Some(a)
            } else {
                None
            },
            None => None,
        }
    }

    /// Decides whether hits are counted every time. When they no longer are
    /// and the user asked for counts, a warning is given, once.
    fn hit_policy(&mut self) -> (r: bool)
        ensures
            r == old(self).refire(),
            policy_applied(*old(self), *final(self)),
            final(self).traces == old(self).traces,
            final(self).breakpoints@ == old(self).breakpoints@,
            final(self).thread_count == old(self).thread_count,
            final(self).count == old(self).count,
            final(self).current == old(self).current,
            final(self).parent == old(self).parent,
            final(self).forward_signals == old(self).forward_signals,
            final(self).wait == old(self).wait,
            final(self).error_message == old(self).error_message,
    {
        let enable = self.count && self.thread_count < 2;
        if !enable && self.force_disable_hit_count {
            let ghost n0 = self.notes@;
            self.notes.push("Code is multithreaded, disabling hit count".to_owned());
            self.notes.push(
                "Results may be improved by not using the '--count' option".to_owned(),
            );
            proof {
                assert(views(self.notes@).len() == views(n0).len() + 2);
            }
            self.force_disable_hit_count = false;
        }
        enable
    }

    /// Index of a breakpoint that `thread` is stepping past, if any.
    fn pending_breakpoint(&self, thread: ThreadId) -> (r: Option<usize>)
        ensures
            match r {
                Some(i) => i < self.breakpoints@.len() && self.breakpoints@[i as int].pending_threads().contains(thread),
                None => forall|k: int|
                    0 <= k < self.breakpoints@.len() ==> !(#[trigger] self.breakpoints@[k]).pending_threads().contains(thread),
            },
    {
        let mut i: usize = 0;
        while i < self.breakpoints.len()
            invariant
                0 <= i <= self.breakpoints@.len(),
                forall|k: int| 0 <= k < i ==> !(#[trigger] self.breakpoints@[k]).pending_threads().contains(thread),
            decreases self.breakpoints@.len() - i,
        {
            if self.breakpoints[i].is_pending(thread) {
                return Some(i);
            }
            i = i + 1;
        }
        None
    }

    /// A step that resumes `t`; a failed resume is recorded as a failure to
    /// collect coverage.
    fn resume_step(t: ThreadId) -> (r: Step)
        ensures
            resumes(r, t),
    {
        let mut actions: Vec<Action> = Vec::new();
        actions.push(Action::Continue(t, None));
        proof {
            assert(actions@ =~= seq![Action::Continue(t, None)]);
        }
        Step {
            next: TestState::Wait,
            actions,
            on_failure: Some(TestState::Unrecoverable),
            failure_message: Some("Error when collecting coverage".to_owned()),
            fallback: Vec::new(),
        }
    }

    /// A step that performs `actions` on breakpoint business of `t`; when one
    /// fails the hit may be lost, but `t` is still resumed.
    fn breakpoint_step(t: ThreadId, actions: Vec<Action>) -> (r: Step)
        ensures
            r.next == TestState::Wait,
            r.actions@ == actions@,
            r.on_failure == Some(TestState::Wait),
            r.failure_message.is_none(),
            r.fallback@ == seq![Action::Continue(t, None)],
    {
        let mut fallback: Vec<Action> = Vec::new();
        fallback.push(Action::Continue(t, None));
        proof {
            assert(fallback@ =~= seq![Action::Continue(t, None)]);
        }
        Step { next: TestState::Wait, actions, on_failure: Some(TestState::Wait), failure_message: None, fallback }
    }

    /// A trap stop of the current thread at instruction pointer `ip`. A
    /// thread that finished its step past a breakpoint has the breakpoint
    /// re-armed or left out, by the hit policy. A fresh hit on an armed
    /// breakpoint steps the thread past it and counts a hit on the first
    /// trace at its address, when every hit counts or the line has none yet.
    /// Anything else just resumes the thread.
    fn collect_coverage_data(&mut self, ip: Option<u64>) -> (r: Step)
        requires
            old(self).wf(),
        ensures
            final(self).wf(),
            final(self).thread_count == old(self).thread_count,
            final(self).count == old(self).count,
            final(self).current == old(self).current,
            final(self).parent == old(self).parent,
            final(self).forward_signals == old(self).forward_signals,
            final(self).wait == old(self).wait,
            final(self).error_message == old(self).error_message,
            trap_step(*old(self), *final(self), old(self).current, ip, r),
            old(self).counted_hit(old(self).current, ip) is Some ==> exists|i: int|
                is_first_at(old(self).traces@, old(self).counted_hit(old(self).current, ip).unwrap(), i)
                    && bumped_at(old(self).traces@, final(self).traces@, i),
            old(self).counted_hit(old(self).current, ip) is None ==> final(self).traces@ == old(self).traces@,
    {
        let cur = self.current;
        let rip = match ip {
            Some(p) => p,
            None => {
                return Self::resume_step(cur);
            },
        };
        match self.pending_breakpoint(cur) {
            Some(i) => {
                proof {
                    assert(old(self).breakpoints_view()[i as int].pending_threads().contains(cur));
                    assert(old(self).hit_address(cur, ip).is_none());
                }
                let refire = self.hit_policy();
                let ghost prev = self.breakpoints@;
                let mut bp = self.breakpoints.remove(i);
                let acts = bp.step_done(cur, refire);
                self.breakpoints.insert(i, bp);
                proof {
                    assert(self.breakpoints@ =~= prev.update(i as int, bp));
                    lemma_replace_keeps_ok(prev, i as int, bp, self.traces);
                    assert(self.traces == old(self).traces);
                    assert(self.breakpoints@[i as int] == bp);
                }
                Self::breakpoint_step(cur, acts)
            },
            None => {
                let found = if rip >= 1 {
                    self.find_breakpoint(rip - 1)
                } else {
                    None
                };
                let i = match found {
                    Some(i) => i,
                    None => {
                        proof {
                            assert(old(self).hit_address(cur, ip).is_none());
                        }
                        return Self::resume_step(cur);
                    },
                };
                if !self.breakpoints[i].armed() {
                    proof {
                        assert forall|k: int| 0 <= k < self.breakpoints@.len() && #[trigger] self.breakpoints@[k].addr() == (rip - 1) as u64 implies !self.breakpoints@[k].is_armed() by {
                            assert(k == i);
                        }
                        assert(old(self).hit_address(cur, ip).is_none());
                    }
                    return Self::resume_step(cur);
                }
                let a = rip - 1;
                let refire = self.hit_policy();
                let ghost prev = self.breakpoints@;
                let ghost old_traces = self.traces;
                let mut bp = self.breakpoints.remove(i);
                let (counted, acts) = bp.on_hit(cur);
                self.breakpoints.insert(i, bp);
                proof {
                    assert(self.breakpoints@ =~= prev.update(i as int, bp));
                    lemma_replace_keeps_ok(prev, i as int, bp, self.traces);
                    assert(prev[i as int].addr() == a);
                    assert(prev == old(self).breakpoints_view());
                    assert(a == (rip - 1) as u64);
                    assert(counted);
                    assert(old(self).hit_address(cur, ip) == Some(a));
                    assert(self.breakpoints@[i as int] == bp);
                }
                let fresh = match self.traces.first_hits(a) {
                    Some(h) => h == 0,
                    None => false,
                };
                if refire || fresh {
                    let hit = self.traces.increment_hits(a);
                    proof {
                        assert(on_trace(old_traces, prev[i as int].addr()));
                        let j = choose|j: int|
                            0 <= j < old_traces@.len() && old_traces@[j].address == Some(prev[i as int].addr());
                        assert(old_traces@[j].address == Some(a));
                        assert(hit.is_some());
                        let hi = hit.unwrap() as int;
                        assert(is_first_at(old_traces@, a, hi) && bumped_at(old_traces@, self.traces@, hi));
                        assert(old_traces == old(self).traces);
                        if !refire {
                            let f = choose|f: int| is_first_at(old_traces@, a, f) && old_traces@[f].hits() == 0;
                            assert forall|f2: int| is_first_at(old(self).traces_view()@, a, f2) implies old(self).traces_view()@[f2].hits() == 0 by {
                                assert(f2 == f);
                            }
                        }
                        assert(old(self).counted_hit(cur, ip) == Some(a));
                        lemma_traces_grow_keeps_ok(self.breakpoints@, old_traces, self.traces);
                    }
                } else {
                    proof {
                        assert(on_trace(old_traces, prev[i as int].addr()));
                        let f = choose|f: int| is_first_at(old_traces@, a, f) && old_traces@[f].hits() != 0;
                        assert(is_first_at(old(self).traces_view()@, a, f));
                        assert(old(self).counted_hit(cur, ip).is_none());
                    }
                }
                Self::breakpoint_step(cur, acts)
            },
        }
    }

    /// A stop on a tracing event of thread `child`. A new thread raises the
    /// thread count when its id could be read (`new_thread`); an exiting
    /// thread lowers it. Forks are resumed without being followed, and a
    /// child that replaced its image is no longer traced.
    fn handle_ptrace_event(&mut self, child: ThreadId, sig: Signal, event: TraceEvent, new_thread: Option<
        ThreadId,
    >) -> (r: Step)
        requires
            old(self).wf(),
        ensures
            final(self).wf(),
            final(self).traces == old(self).traces,
            final(self).breakpoints@ == old(self).breakpoints@,
            final(self).current == old(self).current,
            final(self).parent == old(self).parent,
            final(self).count == old(self).count,
            final(self).forward_signals == old(self).forward_signals,
            final(self).threads() == event_threads(old(self).threads(), sig, event, new_thread),
            r.next == event_next(sig, event, new_thread),
            final(self).notes == old(self).notes,
            final(self).force_disable_hit_count == old(self).force_disable_hit_count,
            r.next == TestState::Wait ==> checked_request(
                r,
                if event == TraceEvent::Exec {
                    Action::Detach(child)
                } else {
                    Action::Continue(child, None)
                },
                ptrace_failure(),
            ) && final(self).error_message == old(self).error_message,
            r.next != TestState::Wait ==> r.actions@.len() == 0 && match event_error(sig, event) {
                Some(m) => err_is(final(self).error_message, m),
                None => final(self).error_message == old(self).error_message,
            },
    {
        let mut actions: Vec<Action> = Vec::new();
        if sig != Signal::Trap {
            self.error_message = Some("Unexpected ptrace event".to_owned());
            return Step { next: TestState::Unrecoverable, actions, on_failure: None, failure_message: None, fallback: Vec::new() };
        }
        match event {
            TraceEvent::Clone => {
                if new_thread.is_some() {
                    if self.thread_count < i64::MAX {
                        self.thread_count = self.thread_count + 1;
                    }
                    actions.push(Action::Continue(child, None));
                } else {
                    self.error_message = Some(
                        "Error occurred upon test executable thread creation".to_owned(),
                    );
                    return Step { next: TestState::Unrecoverable, actions, on_failure: None, failure_message: None, fallback: Vec::new() };
                }
            },
            TraceEvent::Fork | TraceEvent::VFork => {
                actions.push(Action::Continue(child, None));
            },
            TraceEvent::Exec => {
                actions.push(Action::Detach(child));
            },
            TraceEvent::Exit => {
                if self.thread_count > 0 {
                    self.thread_count = self.thread_count - 1;
                }
                actions.push(Action::Continue(child, None));
            },
            TraceEvent::Other(_) => {
                return Step { next: TestState::Unrecoverable, actions, on_failure: None, failure_message: None, fallback: Vec::new() };
            },
        }
        proof {
            assert(actions@ =~= seq![
                if event == TraceEvent::Exec {
                    Action::Detach(child)
                } else {
                    Action::Continue(child, None)
                },
            ]);
        }
        Step {
            next: TestState::Wait,
            actions,
            on_failure: Some(TestState::Unrecoverable),
            failure_message: Some("Error occurred when handling ptrace event".to_owned()),
            fallback: Vec::new(),
        }
    }

    /// Thread `child` exited: no breakpoint waits on it any more. The run
    /// ends with the root thread's exit code; after another thread's exit
    /// the root thread is resumed, in case it was stopped.
    fn handle_exit(&mut self, child: ThreadId, code: i32) -> (r: Step)
        requires
            old(self).wf(),
        ensures
            final(self).wf(),
            final(self).traces == old(self).traces,
            final(self).thread_count == old(self).thread_count,
            final(self).current == old(self).current,
            final(self).parent == old(self).parent,
            final(self).count == old(self).count,
            final(self).forward_signals == old(self).forward_signals,
            final(self).breakpoints@.len() == old(self).breakpoints@.len(),
            final(self).notes == old(self).notes,
            final(self).force_disable_hit_count == old(self).force_disable_hit_count,
            final(self).error_message == old(self).error_message,
            forall|k: int|
                0 <= k < final(self).breakpoints@.len() ==> {
                    &&& !(#[trigger] final(self).breakpoints@[k]).pending_threads().contains(child)
                    &&& final(self).breakpoints@[k].addr() == old(self).breakpoints@[k].addr()
                    &&& final(self).breakpoints@[k].orig() == old(self).breakpoints@[k].orig()
                    &&& final(self).breakpoints@[k].is_armed() == old(self).breakpoints@[k].is_armed()
                },
            r.actions@ == if child == old(self).parent {
                Seq::<Action>::empty()
            } else {
                seq![Action::Continue(old(self).parent, None)]
            },
            r.on_failure.is_none(),
            r.next == if child == old(self).parent {
                TestState::End(code)
            } else {
                TestState::Wait
            },
    {
        let mut i: usize = 0;
        while i < self.breakpoints.len()
            invariant
                self.wf(),
                self.traces == old(self).traces,
                self.thread_count == old(self).thread_count,
                self.current == old(self).current,
                self.parent == old(self).parent,
                self.count == old(self).count,
                self.forward_signals == old(self).forward_signals,
                self.breakpoints@.len() == old(self).breakpoints@.len(),
                self.notes == old(self).notes,
                self.force_disable_hit_count == old(self).force_disable_hit_count,
                self.error_message == old(self).error_message,
                0 <= i <= self.breakpoints@.len(),
                forall|k: int|
                    0 <= k < i ==> !(#[trigger] self.breakpoints@[k]).pending_threads().contains(child),
                forall|k: int|
                    0 <= k < self.breakpoints@.len() ==> {
                        &&& (#[trigger] self.breakpoints@[k]).addr() == old(self).breakpoints@[k].addr()
                        &&& self.breakpoints@[k].orig() == old(self).breakpoints@[k].orig()
                        &&& self.breakpoints@[k].is_armed() == old(self).breakpoints@[k].is_armed()
                    },
            decreases self.breakpoints@.len() - i,
        {
            let ghost prev = self.breakpoints@;
            let mut bp = self.breakpoints.remove(i);
            bp.thread_killed(child);
            self.breakpoints.insert(i, bp);
            proof {
                assert(self.breakpoints@ =~= prev.update(i as int, bp));
                lemma_replace_keeps_ok(prev, i as int, bp, self.traces);
            }
            i = i + 1;
        }
        let mut actions: Vec<Action> = Vec::new();
        if child == self.parent {
            proof {
                assert(actions@ =~= Seq::<Action>::empty());
            }
            Step { next: TestState::End(code), actions, on_failure: None, failure_message: None, fallback: Vec::new() }
        } else {
            actions.push(Action::Continue(self.parent, None));
            proof {
                assert(actions@ =~= seq![Action::Continue(old(self).parent, None)]);
            }
            Step { next: TestState::Wait, actions, on_failure: None, failure_message: None, fallback: Vec::new() }
        }
    }

    /// Classifies the status kept by `wait` and acts on it. `ip` is the
    /// stopped thread's instruction pointer, read for a trap stop; it is
    /// `None` when it could not be read. `new_thread` is the id reported with
    /// a clone event, `None` when it could not be read.
    pub fn stop(&mut self, ip: Option<u64>, new_thread: Option<ThreadId>) -> (r: Step)
        requires
            old(self).wf(),
        ensures
            final(self).wf(),
            hits_grow(old(self).traces_view(), final(self).traces_view()),
            final(self).root() == old(self).root(),
            final(self).counting() == old(self).counting(),
            r.next == stop_next(
                old(self).last_event(),
                old(self).root(),
                new_thread,
            ),
            match old(self).last_event() {
                WaitEvent::TraceStop(_, sig, event) => final(self).threads() == event_threads(
                    old(self).threads(),
                    sig,
                    event,
                    new_thread,
                ),
                _ => final(self).threads() == old(self).threads(),
            },
            trap_stop(old(self).last_event()) is None ==> final(self).traces_view()@ == old(
                self,
            ).traces_view()@,
            trap_stop(old(self).last_event()) is Some ==> ({
                let c = trap_stop(old(self).last_event()).unwrap();
                &&& final(self).cur() == c
                &&& old(self).counted_hit(c, ip) is Some ==> exists|i: int|
                    is_first_at(old(self).traces_view()@, old(self).counted_hit(c, ip).unwrap(), i)
                        && bumped_at(old(self).traces_view()@, final(self).traces_view()@, i)
                &&& old(self).counted_hit(c, ip) is None ==> final(self).traces_view()@ == old(
                    self,
                ).traces_view()@
            }),
            trap_stop(old(self).last_event()) is Some ==> trap_step(
                *old(self),
                *final(self),
                trap_stop(old(self).last_event()).unwrap(),
                ip,
                r,
            ),
            trap_stop(old(self).last_event()) is Some ==> final(self).error() == old(self).error(),
            trap_stop(old(self).last_event()) is None ==> other_stop(
                *old(self),
                *final(self),
                old(self).last_event(),
                r,
            ),
    {
        let ev = self.wait;
        let mut actions: Vec<Action> = Vec::new();
        match ev {
            WaitEvent::TraceStop(c, s, e) => {
                let r = self.handle_ptrace_event(c, s, e, new_thread);
                proof {
                    assert(self.traces_view()@ == old(self).traces_view()@);
                }
                r
            },
            WaitEvent::Stopped(c, Signal::Trap) => {
                self.current = c;
                let ghost mid = *self;
                proof {
                    assert(mid.breakpoints_view() == old(self).breakpoints_view());
                    assert(mid.hit_address(c, ip) == old(self).hit_address(c, ip));
                    assert(mid.traces_view() == old(self).traces_view());
                    assert(mid.refire() == old(self).refire());
                    assert(mid.counted_hit(c, ip) == old(self).counted_hit(c, ip));
                }
                let r = self.collect_coverage_data(ip);
                proof {
                    assert(trap_stop(old(self).last_event()) == Some(c));
                    if old(self).counted_hit(c, ip) is Some {
                        assert(exists|i: int|
                            is_first_at(old(self).traces_view()@, old(self).counted_hit(c, ip).unwrap(), i)
                                && bumped_at(old(self).traces_view()@, self.traces_view()@, i));
                    } else {
                        assert(self.traces_view()@ == old(self).traces_view()@);
                    }
                    if self.traces@ != old(self).traces@ {
                        let i = choose|i: int|
                            is_first_at(old(self).traces@, old(self).counted_hit(c, ip).unwrap(), i)
                                && bumped_at(old(self).traces@, self.traces@, i);
                        assert forall|j: int| 0 <= j < old(self).traces@.len() implies (#[trigger] self.traces@[j]).key()
                            == old(self).traces@[j].key() && self.traces@[j].hits() >= old(self).traces@[j].hits() by {
                            if j != i {
                                assert(self.traces@[j] == old(self).traces@[j]);
                            }
                        }
                    }
                }
                r
            },
            WaitEvent::Stopped(c, Signal::Stop) => {
                actions.push(Action::Continue(c, None));
                proof {
                    assert(actions@ =~= seq![Action::Continue(c, None)]);
                }
                Step {
                    next: TestState::Wait,
                    actions,
                    on_failure: Some(TestState::Unrecoverable),
                    failure_message: Some("Error processing SIGSTOP".to_owned()),
                    fallback: Vec::new(),
                }
            },
            WaitEvent::Stopped(_, Signal::Segv) => {
                self.error_message = Some("Error a segfault occured when executing test".to_owned());
                Step { next: TestState::Unrecoverable, actions, on_failure: None, failure_message: None, fallback: Vec::new() }
            },
            WaitEvent::Stopped(c, s) => {
                let sig = if self.forward_signals {
                    Some(s)
                } else {
                    None
                };
                actions.push(Action::Continue(c, sig));
                proof {
                    assert(actions@ =~= seq![Action::Continue(c, sig)]);
                }
                Step { next: TestState::Wait, actions, on_failure: None, failure_message: None, fallback: Vec::new() }
            },
            WaitEvent::Signaled(c, s, core) => {
                if s == Signal::Trap && core {
                    actions.push(Action::Continue(c, None));
                    proof {
                        assert(actions@ =~= seq![Action::Continue(c, None)]);
                    }
                    Step {
                        next: TestState::Wait,
                        actions,
                        on_failure: Some(TestState::Unrecoverable),
                        failure_message: Some("Error attempting to handle a signaled thread".to_owned()),
                        fallback: Vec::new(),
                    }
                } else {
                    self.error_message = Some("Unexpected stop".to_owned());
                    Step { next: TestState::Unrecoverable, actions, on_failure: None, failure_message: None, fallback: Vec::new() }
                }
            },
            WaitEvent::Exited(c, code) => {
                let r = self.handle_exit(c, code);
                proof {
                    assert(self.traces_view()@ == old(self).traces_view()@);
                }
                r
            },
            _ => Step { next: TestState::Unrecoverable, actions, on_failure: None, failure_message: None, fallback: Vec::new() },
        }
    }

    /// Messages to give the user once the run is over.
    pub fn cleanup(&self) -> (r: Vec<String>)
        ensures
            self.error() is None ==> r@.len() == 0,
            self.error() is Some ==> r@.len() == 2 && r@[1]@ == self.error().unwrap()@,
    {
        let mut out: Vec<String> = Vec::new();
        match &self.error_message {
            Some(e) => {
                out.push("An error occurred during run. Coverage results may be inaccurate.".to_owned());
                out.push(e.clone());
            },
            None => {},
        }
        out
    }
}

} // verus!
