use job_engine::shutdown::{
    signal_is_graceful, ShutdownAction, ShutdownCommand, ShutdownCoordinator, ShutdownPhase,
    StepOutcome, StopReason,
};

#[test]
fn signal_numbers_name_stop_reasons() {
    assert_eq!(StopReason::from_signal(2), Some(StopReason::Interrupt));
    assert_eq!(StopReason::from_signal(15), Some(StopReason::Terminate));
    assert_eq!(StopReason::from_signal(3), Some(StopReason::Quit));
    assert_eq!(StopReason::from_signal(1), None);
    assert_eq!(StopReason::from_signal(0), None);
    assert_eq!(StopReason::from_signal(-2), None);
}

#[test]
fn only_terminate_is_graceful() {
    assert!(!StopReason::Interrupt.is_graceful());
    assert!(StopReason::Terminate.is_graceful());
    assert!(!StopReason::Quit.is_graceful());
    assert!(!signal_is_graceful(2));
    assert!(signal_is_graceful(15));
    assert!(!signal_is_graceful(3));
    assert!(!signal_is_graceful(9));
}

#[test]
fn graceful_shutdown_runs_the_phases_in_order() {
    let mut c = ShutdownCoordinator::new(5000, 300);
    assert_eq!(c.phase(), ShutdownPhase::Running);
    assert_eq!(c.remaining_millis(), 0);
    let a = c.handle_signal(15);
    assert_eq!(
        a,
        Some(ShutdownAction { command: ShutdownCommand::StopAcceptance, graceful: true, wait_millis: 5000 })
    );
    assert_eq!(c.phase(), ShutdownPhase::StoppingAcceptance);
    assert!(c.is_graceful());
    assert_eq!(c.remaining_millis(), 15300);
    let a = c.advance(StepOutcome::Completed);
    assert_eq!(
        a,
        Some(ShutdownAction { command: ShutdownCommand::StopDeltaGenerator, graceful: true, wait_millis: 5000 })
    );
    assert_eq!(c.phase(), ShutdownPhase::DrainingDeltaGenerator);
    assert_eq!(c.remaining_millis(), 10300);
    let a = c.advance(StepOutcome::Failed);
    assert_eq!(
        a,
        Some(ShutdownAction { command: ShutdownCommand::StopJobExecutor, graceful: true, wait_millis: 5000 })
    );
    assert_eq!(c.phase(), ShutdownPhase::DrainingJobExecutor);
    assert_eq!(c.remaining_millis(), 5300);
    let a = c.advance(StepOutcome::TimedOut);
    assert_eq!(
        a,
        Some(ShutdownAction { command: ShutdownCommand::Terminate, graceful: true, wait_millis: 300 })
    );
    assert!(c.is_terminating());
    assert_eq!(c.remaining_millis(), 300);
    assert_eq!(c.advance(StepOutcome::Completed), None);
    assert!(c.is_terminating());
}

#[test]
fn forceful_shutdown_waits_for_the_quiescence_interval_only() {
    let mut c = ShutdownCoordinator::new(5000, 300);
    let a = c.handle_signal(2);
    assert_eq!(
        a,
        Some(ShutdownAction { command: ShutdownCommand::StopAcceptance, graceful: false, wait_millis: 0 })
    );
    assert_eq!(c.remaining_millis(), 300);
    let a = c.advance(StepOutcome::Completed).unwrap();
    assert_eq!(a.wait_millis, 0);
    let a = c.advance(StepOutcome::Completed).unwrap();
    assert_eq!(a.wait_millis, 0);
    let a = c.advance(StepOutcome::Completed).unwrap();
    assert_eq!(a.command, ShutdownCommand::Terminate);
    assert_eq!(a.wait_millis, 300);
    assert!(c.is_terminating());
}

#[test]
fn a_second_signal_changes_nothing() {
    let mut c = ShutdownCoordinator::new(1000, 300);
    assert!(c.stop(StopReason::Quit).is_some());
    let before = c;
    assert_eq!(c.handle_signal(15), None);
    assert_eq!(c, before);
    assert!(!c.is_graceful());
}

#[test]
fn advance_before_the_signal_changes_nothing() {
    let mut c = ShutdownCoordinator::new(1000, 300);
    assert_eq!(c.advance(StepOutcome::Completed), None);
    assert_eq!(c.phase(), ShutdownPhase::Running);
}

#[test]
fn unknown_signal_starts_a_forceful_shutdown() {
    let mut c = ShutdownCoordinator::new(1000, 300);
    let a = c.handle_signal(1).unwrap();
    assert!(!a.graceful);
    assert_eq!(c.phase(), ShutdownPhase::StoppingAcceptance);
}
