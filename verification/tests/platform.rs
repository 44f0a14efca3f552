use crosscut::platform::{keeps_running, next_run_action, CodeCheck, RunAction, StepOutcome};

#[test]
fn run_loop_sleeps_between_steps_and_waits_when_finished() {
    assert_eq!(next_run_action(StepOutcome::Running), RunAction::Sleep { ms: 0 });
    assert_eq!(
        next_run_action(StepOutcome::Sleeping { delay_ms: Some(250) }),
        RunAction::Sleep { ms: 250 }
    );
    assert_eq!(
        next_run_action(StepOutcome::Sleeping { delay_ms: None }),
        RunAction::Sleep { ms: 0 }
    );
    assert_eq!(next_run_action(StepOutcome::Finished), RunAction::WaitForCode);
    assert_eq!(next_run_action(StepOutcome::Failed), RunAction::Stop);
}

#[test]
fn run_loop_stops_once_the_code_channel_closes() {
    assert!(keeps_running(CodeCheck::NewCode));
    assert!(keeps_running(CodeCheck::Nothing));
    assert!(!keeps_running(CodeCheck::Closed));
}
