//! The run loop of a script in the browser: what it does after each step of
//! the interpreter, and after each look for new code.

use vstd::prelude::*;

verus! {

/// # What a step of the interpreter came to
#[derive(Clone, Copy, Debug, PartialEq, Eq, Structural)]
pub enum StepOutcome {
    /// The script runs on
    Running,
    /// The script sleeps, for the delay it asked for, if any
    Sleeping { delay_ms: Option<u64> },
    /// The script finished
    Finished,
    /// The script failed
    Failed,
}

/// # What the run loop does after a step
#[derive(Clone, Copy, Debug, PartialEq, Eq, Structural)]
pub enum RunAction {
    /// Sleep for the given time, which gives the page a turn, then look for
    /// new code
    Sleep { ms: u64 },
    /// Report that the script finished, and wait for new code to restart it
    WaitForCode,
    /// Report the error, and stop
    Stop,
}

/// # What a look for new code found
#[derive(Clone, Copy, Debug, PartialEq, Eq, Structural)]
pub enum CodeCheck {
    /// New code came, to run from the next step on
    NewCode,
    /// No new code came
    Nothing,
    /// The channel that brings code is closed
    Closed,
}

/// # What the run loop does after a step of the interpreter
///
/// It always sleeps, if for no time at all, while the script runs; a
/// sleeping script sleeps for its delay.
pub fn next_run_action(outcome: StepOutcome) -> (action: RunAction)
    ensures
        action == (match outcome {
            StepOutcome::Running => RunAction::Sleep { ms: 0 },
            StepOutcome::Sleeping { delay_ms } => RunAction::Sleep {
                ms: match delay_ms {
                    Some(ms) => ms,
                    None => 0,
                },
            },
            StepOutcome::Finished => RunAction::WaitForCode,
            StepOutcome::Failed => RunAction::Stop,
        }),
{
    match outcome {
        StepOutcome::Running => RunAction::Sleep { ms: 0 },
        StepOutcome::Sleeping { delay_ms } => RunAction::Sleep {
            ms: match delay_ms {
                Some(ms) => ms,
                None => 0,
            },
        },
        StepOutcome::Finished => RunAction::WaitForCode,
        StepOutcome::Failed => RunAction::Stop,
    }
}

/// # Whether the run loop goes on after a look for new code
///
/// It stops once the channel that brings code is closed.
pub fn keeps_running(check: CodeCheck) -> (result: bool)
    ensures
        result == !(check is Closed),
{
    match check {
        CodeCheck::Closed => false,
        _ => true,
    }
}

} // verus!
