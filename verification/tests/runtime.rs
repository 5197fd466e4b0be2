use monocore::utils::rotation::{channel_needs_rotation, RotationState, WriteAction, WriteEvent, WriteStep};
use monocore::utils::supervisor::{io_mode, ChildIoMode, SupervisorEvent, SupervisorState};

#[test]
fn small_writes_do_not_rotate() {
    let mut s = RotationState::new(10, 100);
    assert_eq!(s.start_write(20), WriteAction::Write);
    assert_eq!(s.step, WriteStep::Writing);
    assert_eq!(s.on_event(WriteEvent::Written, 20), WriteAction::Done);
    assert_eq!(s.current_size, 30);
    assert_eq!(s.step, WriteStep::Idle);
}

#[test]
fn large_writes_rotate_first() {
    let mut s = RotationState::new(90, 100);
    assert_eq!(s.start_write(20), WriteAction::Rotate);
    assert_eq!(s.current_size, 110);
    assert_eq!(s.on_event(WriteEvent::Rotated, 20), WriteAction::Write);
    assert_eq!(s.current_size, 20);
    assert_eq!(s.on_event(WriteEvent::Written, 20), WriteAction::Done);
    assert_eq!(s.current_size, 20);
}

#[test]
fn failures_take_the_bytes_back() {
    let mut s = RotationState::new(90, 100);
    s.start_write(20);
    assert_eq!(s.on_event(WriteEvent::RotationFailed, 20), WriteAction::Fail);
    assert_eq!(s.current_size, 90);
    s.start_write(5);
    assert_eq!(s.on_event(WriteEvent::WriteFailed, 5), WriteAction::Fail);
    assert_eq!(s.current_size, 90);
    assert_eq!(s.on_event(WriteEvent::Written, 5), WriteAction::Fail);
    assert_eq!(s.current_size, 90);
}

#[test]
fn exact_fit_does_not_rotate() {
    assert!(!channel_needs_rotation(50, 50, 100));
    assert!(channel_needs_rotation(50, 51, 100));
}

#[test]
fn supervisor_decisions() {
    assert_eq!(io_mode(true), ChildIoMode::Tty);
    assert_eq!(io_mode(false), ChildIoMode::Piped);
    let mut s = SupervisorState::new();
    s.started(42);
    let p = s.on_event(SupervisorEvent::Terminated);
    assert!(p.stop_monitor && p.wait_again);
    assert_eq!(p.send_sigterm, Some(42));
    assert_eq!(s.child_pid, None);
    let p = s.on_event(SupervisorEvent::Interrupted);
    assert_eq!(p.send_sigterm, None);
    s.started(7);
    let p = s.on_event(SupervisorEvent::ChildExited);
    assert!(p.stop_monitor && !p.wait_again);
    assert_eq!(p.send_sigterm, None);
    assert_eq!(s.child_pid, None);
}
