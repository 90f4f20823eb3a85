use tarpaulin::breakpoint::Breakpoint;
use tarpaulin::tracee::{Action, TRAP_BYTE};

#[test]
fn install_writes_the_trap() {
    let (bp, w) = Breakpoint::install(0x1000, 0x55);
    assert_eq!(w, Action::WriteByte(0x1000, TRAP_BYTE));
    assert_eq!(bp.address(), 0x1000);
    assert!(!bp.is_pending(7));
}

#[test]
fn hit_restores_rewinds_and_steps() {
    let (mut bp, _) = Breakpoint::install(0x1000, 0x55);
    let (counted, acts) = bp.on_hit(7);
    assert!(counted);
    assert_eq!(
        acts,
        vec![Action::WriteByte(0x1000, 0x55), Action::SetPc(7, 0x1000), Action::SingleStep(7)]
    );
    assert!(bp.is_pending(7));
}

#[test]
fn step_done_rearms_when_refiring() {
    let (mut bp, _) = Breakpoint::install(0x1000, 0x55);
    let _ = bp.on_hit(7);
    let acts = bp.step_done(7, true);
    assert_eq!(acts, vec![Action::WriteByte(0x1000, TRAP_BYTE), Action::Continue(7, None)]);
    assert!(!bp.is_pending(7));
    let (counted, _) = bp.on_hit(7);
    assert!(counted);
}

#[test]
fn step_done_leaves_original_when_one_shot() {
    let (mut bp, _) = Breakpoint::install(0x1000, 0x55);
    let _ = bp.on_hit(7);
    let acts = bp.step_done(7, false);
    assert_eq!(acts, vec![Action::Continue(7, None)]);
    let (counted, acts) = bp.on_hit(8);
    assert!(!counted);
    assert_eq!(acts, vec![Action::Continue(8, None)]);
}

#[test]
fn killed_thread_is_no_longer_pending() {
    let (mut bp, _) = Breakpoint::install(0x1000, 0x55);
    let _ = bp.on_hit(7);
    bp.thread_killed(7);
    assert!(!bp.is_pending(7));
}

