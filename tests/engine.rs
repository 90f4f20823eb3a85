use tarpaulin::config::Config;
use tarpaulin::launch::{rustflags, tracee_args, tracee_env};
use tarpaulin::statemachine::{Data, TestState};
use tarpaulin::tracee::{Action, ByteRead, Signal, TraceEvent, WaitEvent, WriteOutcome, TRAP_BYTE};
use tarpaulin::traces::{Trace, TraceMap};

const ROOT: i32 = 100;

fn traces(lines: &[(u64, u64)]) -> TraceMap {
    let mut m = TraceMap::new();
    for &(line, addr) in lines {
        m.add_trace(Trace::new("f.rs".to_string(), line, Some(addr), None));
    }
    m
}

/// Starts a run over `lines` and installs its breakpoints.
fn started(lines: &[(u64, u64)], count: bool) -> Data {
    let mut config = Config::new();
    config.count = count;
    let m = traces(lines);
    let n = m.total_coverable();
    let mut d = Data::new(m, &config);
    d.set_parent(ROOT);
    assert_eq!(d.start(WaitEvent::StillAlive).next, TestState::Start);
    let s = d.start(WaitEvent::Stopped(ROOT, Signal::Trap));
    assert_eq!(s.next, TestState::Initialise);
    assert_eq!(s.actions, vec![Action::TraceChildren(ROOT)]);
    let reads = vec![ByteRead::Value(0x90); n];
    let s = d.init(&reads);
    assert_eq!(s.next, TestState::Initialise);
    let writes = vec![WriteOutcome::Done; s.actions.len()];
    let s = d.instrumented(&writes);
    assert_eq!(s.next, TestState::Wait);
    assert_eq!(s.actions, vec![Action::Continue(ROOT, None)]);
    assert_eq!(s.on_failure, Some(TestState::Unrecoverable));
    d
}

fn event(d: &mut Data, ev: WaitEvent, ip: Option<u64>, new_thread: Option<i32>) -> (TestState, Vec<Action>) {
    let s = d.wait(ev);
    assert_eq!(s.next, TestState::Stopped);
    let s = d.stop(ip, new_thread);
    (s.next, s.actions)
}

/// The thread `t` runs the line at `addr`: it traps, then finishes its step.
fn run_line(d: &mut Data, t: i32, addr: u64) {
    let (next, _) = event(d, WaitEvent::Stopped(t, Signal::Trap), Some(addr + 1), None);
    assert_eq!(next, TestState::Wait);
    let (next, _) = event(d, WaitEvent::Stopped(t, Signal::Trap), Some(addr + 3), None);
    assert_eq!(next, TestState::Wait);
}

fn finish(d: &mut Data, code: i32) -> TestState {
    let (next, _) = event(d, WaitEvent::Exited(ROOT, code), None, None);
    next
}

#[test]
fn single_threaded_all_covered() {
    let mut d = started(&[(10, 0x1000), (11, 0x1010)], false);
    run_line(&mut d, ROOT, 0x1000);
    run_line(&mut d, ROOT, 0x1010);
    let end = finish(&mut d, 0);
    assert_eq!(end, TestState::End(0));
    assert!(end.test_passed());
    assert!(end.is_finished());
    let m = d.into_traces();
    assert_eq!(m.get(0).hit_count(), 1);
    assert_eq!(m.get(1).hit_count(), 1);
}

#[test]
fn partial_coverage_leaves_line_at_zero() {
    let mut d = started(&[(19, 0x1000), (20, 0x1010)], false);
    run_line(&mut d, ROOT, 0x1000);
    let end = finish(&mut d, 0);
    assert!(end.test_passed());
    assert_eq!(d.traces().get(1).line, 20);
    assert_eq!(d.traces().get(1).hit_count(), 0);
}

#[test]
fn failing_test_keeps_coverage() {
    let mut d = started(&[(10, 0x1000)], false);
    run_line(&mut d, ROOT, 0x1000);
    let end = finish(&mut d, 101);
    assert_eq!(end, TestState::End(101));
    assert!(!end.test_passed());
    assert_eq!(d.traces().get(0).hit_count(), 1);
}

#[test]
fn ignored_tests_are_requested_and_counted() {
    let config = Config::new();
    let argv = tracee_args(&"/bin/t".to_string(), true, &config);
    assert!(argv.contains(&"--ignored".to_string()));
    let mut d = started(&[(30, 0x2000)], false);
    run_line(&mut d, ROOT, 0x2000);
    assert!(finish(&mut d, 0).test_passed());
    assert!(d.traces().get(0).hit_count() >= 1);
}

#[test]
fn position_independent_binary_aborts() {
    let config = Config::new();
    let mut d = Data::new(traces(&[(10, 0x1000), (11, 0x1010)]), &config);
    d.set_parent(ROOT);
    let _ = d.start(WaitEvent::Stopped(ROOT, Signal::Trap));
    let s = d.init(&vec![ByteRead::Denied, ByteRead::Value(0x90)]);
    assert_eq!(s.next, TestState::Abort);
    assert!(s.actions.is_empty());
    assert!(s.next.is_finished());
    assert!(!d.notes().is_empty());
}

#[test]
fn spawned_threads_downgrade_counting() {
    let mut d = started(&[(10, 0x1000)], true);
    run_line(&mut d, ROOT, 0x1000);
    run_line(&mut d, ROOT, 0x1000);
    assert_eq!(d.traces().get(0).hit_count(), 2);
    for t in [101, 102] {
        let (next, acts) = event(&mut d, WaitEvent::TraceStop(ROOT, Signal::Trap, TraceEvent::Clone), None, Some(t));
        assert_eq!(next, TestState::Wait);
        assert_eq!(acts, vec![Action::Continue(ROOT, None)]);
    }
    let notes_before = d.notes().len();
    run_line(&mut d, 101, 0x1000);
    run_line(&mut d, 102, 0x1000);
    assert_eq!(d.traces().get(0).hit_count(), 2);
    assert_eq!(d.notes().len(), notes_before + 2);
    let fresh = started(&[(10, 0x1000)], true);
    let mut d2 = fresh;
    for t in [101, 102] {
        let _ = event(&mut d2, WaitEvent::TraceStop(ROOT, Signal::Trap, TraceEvent::Clone), None, Some(t));
    }
    run_line(&mut d2, 101, 0x1000);
    run_line(&mut d2, 101, 0x1000);
    assert_eq!(d2.traces().get(0).hit_count(), 1);
}

#[test]
fn counting_refires_on_every_hit() {
    let mut d = started(&[(10, 0x1000)], true);
    for _ in 0..3 {
        run_line(&mut d, ROOT, 0x1000);
    }
    assert_eq!(d.traces().get(0).hit_count(), 3);
}

#[test]
fn hit_then_step_actions() {
    let mut d = started(&[(10, 0x1000)], true);
    let (_, acts) = event(&mut d, WaitEvent::Stopped(ROOT, Signal::Trap), Some(0x1001), None);
    assert_eq!(acts, vec![Action::WriteByte(0x1000, 0x90), Action::SetPc(ROOT, 0x1000), Action::SingleStep(ROOT)]);
    let (_, acts) = event(&mut d, WaitEvent::Stopped(ROOT, Signal::Trap), Some(0x1003), None);
    assert_eq!(acts, vec![Action::WriteByte(0x1000, TRAP_BYTE), Action::Continue(ROOT, None)]);
}

#[test]
fn trap_at_unknown_address_just_continues() {
    let mut d = started(&[(10, 0x1000)], false);
    let (next, acts) = event(&mut d, WaitEvent::Stopped(ROOT, Signal::Trap), Some(0x5000), None);
    assert_eq!(next, TestState::Wait);
    assert_eq!(acts, vec![Action::Continue(ROOT, None)]);
    assert_eq!(d.traces().get(0).hit_count(), 0);
}

#[test]
fn segfault_is_unrecoverable() {
    let mut d = started(&[(10, 0x1000)], false);
    let (next, _) = event(&mut d, WaitEvent::Stopped(ROOT, Signal::Segv), None, None);
    assert_eq!(next, TestState::Unrecoverable);
    assert!(d.error_message().is_some());
    assert_eq!(d.cleanup().len(), 2);
}

#[test]
fn signals_are_forwarded_only_when_asked() {
    let mut d = started(&[(10, 0x1000)], false);
    let (_, acts) = event(&mut d, WaitEvent::Stopped(ROOT, Signal::Other(10)), None, None);
    assert_eq!(acts, vec![Action::Continue(ROOT, None)]);
    let mut config = Config::new();
    config.forward_signals = true;
    let mut d = Data::new(traces(&[]), &config);
    d.set_parent(ROOT);
    let _ = d.start(WaitEvent::Stopped(ROOT, Signal::Trap));
    let _ = d.init(&vec![]);
    let _ = d.instrumented(&vec![]);
    let (_, acts) = event(&mut d, WaitEvent::Stopped(ROOT, Signal::Other(10)), None, None);
    assert_eq!(acts, vec![Action::Continue(ROOT, Some(Signal::Other(10)))]);
}

#[test]
fn sigstop_continues() {
    let mut d = started(&[(10, 0x1000)], false);
    let (next, acts) = event(&mut d, WaitEvent::Stopped(7, Signal::Stop), None, None);
    assert_eq!(next, TestState::Wait);
    assert_eq!(acts, vec![Action::Continue(7, None)]);
}

#[test]
fn exec_event_detaches_child() {
    let mut d = started(&[(10, 0x1000)], false);
    let (next, acts) = event(&mut d, WaitEvent::TraceStop(7, Signal::Trap, TraceEvent::Exec), None, None);
    assert_eq!(next, TestState::Wait);
    assert_eq!(acts, vec![Action::Detach(7)]);
}

#[test]
fn clone_without_thread_id_is_unrecoverable() {
    let mut d = started(&[(10, 0x1000)], false);
    let (next, _) = event(&mut d, WaitEvent::TraceStop(ROOT, Signal::Trap, TraceEvent::Clone), None, None);
    assert_eq!(next, TestState::Unrecoverable);
}

#[test]
fn exit_events_never_drive_thread_count_negative() {
    let mut d = started(&[(10, 0x1000)], true);
    for _ in 0..3 {
        let (next, _) = event(&mut d, WaitEvent::TraceStop(ROOT, Signal::Trap, TraceEvent::Exit), None, None);
        assert_eq!(next, TestState::Wait);
    }
    run_line(&mut d, ROOT, 0x1000);
    run_line(&mut d, ROOT, 0x1000);
    assert_eq!(d.traces().get(0).hit_count(), 2);
}

#[test]
fn other_thread_exit_resumes_root() {
    let mut d = started(&[(10, 0x1000)], false);
    let (next, acts) = event(&mut d, WaitEvent::Exited(7, 0), None, None);
    assert_eq!(next, TestState::Wait);
    assert_eq!(acts, vec![Action::Continue(ROOT, None)]);
}

#[test]
fn signaled_group_stop_continues() {
    let mut d = started(&[(10, 0x1000)], false);
    let (next, _) = event(&mut d, WaitEvent::Signaled(7, Signal::Trap, true), None, None);
    assert_eq!(next, TestState::Wait);
    let (next, _) = event(&mut d, WaitEvent::Signaled(7, Signal::Other(9), false), None, None);
    assert_eq!(next, TestState::Unrecoverable);
}

#[test]
fn wait_failure_is_unrecoverable() {
    let mut d = started(&[(10, 0x1000)], false);
    assert_eq!(d.wait(WaitEvent::StillAlive).next, TestState::Wait);
    assert_eq!(d.wait(WaitEvent::Failed).next, TestState::Unrecoverable);
}

#[test]
fn address_clash_gets_one_breakpoint() {
    let config = Config::new();
    let mut d = Data::new(traces(&[(10, 0x1000), (11, 0x1000)]), &config);
    d.set_parent(ROOT);
    let _ = d.start(WaitEvent::Stopped(ROOT, Signal::Trap));
    let s = d.init(&vec![ByteRead::Value(1), ByteRead::Value(1)]);
    assert_eq!(s.actions, vec![Action::WriteByte(0x1000, TRAP_BYTE)]);
    assert_eq!(d.breakpoint_count(), 1);
}

#[test]
fn tracee_args_in_order() {
    let mut config = Config::new();
    config.varargs = vec!["a".to_string(), "b".to_string()];
    assert_eq!(
        tracee_args(&"/bin/t".to_string(), false, &config),
        vec!["/bin/t".to_string(), "--quiet".to_string(), "a".to_string(), "b".to_string()]
    );
    config.verbose = true;
    assert_eq!(
        tracee_args(&"/bin/t".to_string(), true, &config),
        vec!["/bin/t".to_string(), "--ignored".to_string(), "a".to_string(), "b".to_string()]
    );
}

#[test]
fn tracee_env_forces_one_test_thread() {
    let vars = vec![("HOME".to_string(), "/root".to_string())];
    assert_eq!(tracee_env(&vars, false), vec!["RUST_TEST_THREADS=1".to_string(), "HOME=/root".to_string()]);
    assert_eq!(
        tracee_env(&vars, true),
        vec!["RUST_TEST_THREADS=1".to_string(), "HOME=/root".to_string(), "RUST_BACKTRACE=1".to_string()]
    );
}

#[test]
fn rustflags_prepends_fixed_addresses() {
    assert_eq!(
        rustflags(&None),
        " -C relocation-model=dynamic-no-pic -C link-dead-code -C opt-level=0 ".to_string()
    );
    assert_eq!(
        rustflags(&Some("-g".to_string())),
        " -C relocation-model=dynamic-no-pic -C link-dead-code -C opt-level=0 -g".to_string()
    );
}

#[test]
fn refused_trap_write_aborts_with_advice() {
    let config = Config::new();
    let mut d = Data::new(traces(&[(10, 0x1000)]), &config);
    d.set_parent(ROOT);
    let _ = d.start(WaitEvent::Stopped(ROOT, Signal::Trap));
    let s = d.init(&vec![ByteRead::Value(0x90)]);
    assert_eq!(s.next, TestState::Initialise);
    assert_eq!(s.actions, vec![Action::WriteByte(0x1000, TRAP_BYTE)]);
    let s = d.instrumented(&vec![WriteOutcome::Denied]);
    assert_eq!(s.next, TestState::Abort);
    assert!(s.actions.is_empty());
    assert!(d.notes().last().unwrap().contains("pie"));
}

#[test]
fn failed_trap_write_is_recorded_and_run_goes_on() {
    let config = Config::new();
    let mut d = Data::new(traces(&[(10, 0x1000), (11, 0x1010)]), &config);
    d.set_parent(ROOT);
    let _ = d.start(WaitEvent::Stopped(ROOT, Signal::Trap));
    let _ = d.init(&vec![ByteRead::Value(0x90), ByteRead::Value(0x90)]);
    let s = d.instrumented(&vec![WriteOutcome::Failed, WriteOutcome::Done]);
    assert_eq!(s.next, TestState::Wait);
    assert_eq!(s.actions, vec![Action::Continue(ROOT, None)]);
    assert_eq!(d.error_message(), &Some("Failed to instrument test executable".to_string()));
    assert_eq!(d.wait(WaitEvent::Stopped(ROOT, Signal::Trap)).next, TestState::Stopped);
    let s = d.stop(Some(0x1001), None);
    assert_eq!(s.actions, vec![Action::Continue(ROOT, None)]);
    assert_eq!(d.traces().get(0).hit_count(), 0);
}

#[test]
fn failed_root_resume_after_instrumentation_is_unrecoverable() {
    let config = Config::new();
    let mut d = Data::new(traces(&[(10, 0x1000)]), &config);
    d.set_parent(ROOT);
    let _ = d.start(WaitEvent::Stopped(ROOT, Signal::Trap));
    let _ = d.init(&vec![ByteRead::Value(0x90)]);
    let s = d.instrumented(&vec![WriteOutcome::Done]);
    assert_eq!(d.record_failure(&s), TestState::Unrecoverable);
}

#[test]
fn failed_read_records_instrumentation_error() {
    let config = Config::new();
    let mut d = Data::new(traces(&[(10, 0x1000), (11, 0x1010)]), &config);
    d.set_parent(ROOT);
    let _ = d.start(WaitEvent::Stopped(ROOT, Signal::Trap));
    let s = d.init(&vec![ByteRead::Failed, ByteRead::Value(0x90)]);
    assert_eq!(s.next, TestState::Initialise);
    assert_eq!(d.breakpoint_count(), 1);
    let s = d.instrumented(&vec![WriteOutcome::Done]);
    assert_eq!(s.next, TestState::Wait);
    assert_eq!(d.error_message(), &Some("Failed to instrument test executable".to_string()));
}

#[test]
fn failed_hit_requests_still_resume_thread() {
    let mut d = started(&[(10, 0x1000)], false);
    assert_eq!(d.wait(WaitEvent::Stopped(ROOT, Signal::Trap)).next, TestState::Stopped);
    let s = d.stop(Some(0x1001), None);
    assert_eq!(s.on_failure, Some(TestState::Wait));
    assert_eq!(s.fallback, vec![Action::Continue(ROOT, None)]);
    assert_eq!(d.record_failure(&s), TestState::Wait);
    assert!(d.error_message().is_none());
}

#[test]
fn failed_resume_after_sigstop_is_recorded() {
    let mut d = started(&[(10, 0x1000)], false);
    assert_eq!(d.wait(WaitEvent::Stopped(7, Signal::Stop)).next, TestState::Stopped);
    let s = d.stop(None, None);
    assert_eq!(d.record_failure(&s), TestState::Unrecoverable);
    assert_eq!(d.error_message(), &Some("Error processing SIGSTOP".to_string()));
}

#[test]
fn ignored_failure_keeps_next_state() {
    let mut d = started(&[(10, 0x1000)], false);
    assert_eq!(d.wait(WaitEvent::Stopped(7, Signal::Other(10))).next, TestState::Stopped);
    let s = d.stop(None, None);
    assert_eq!(d.record_failure(&s), TestState::Wait);
    assert!(d.error_message().is_none());
}

#[test]
fn segfault_records_message_and_makes_no_request() {
    let mut d = started(&[(10, 0x1000)], false);
    assert_eq!(d.wait(WaitEvent::Stopped(ROOT, Signal::Segv)).next, TestState::Stopped);
    let s = d.stop(None, None);
    assert!(s.actions.is_empty());
    assert_eq!(
        d.error_message(),
        &Some("Error a segfault occured when executing test".to_string())
    );
}
