//! The decision core of the bounded process runner. The blocking work
//! — spawning, waiting with a timeout, killing and reaping — needs the
//! process APIs and stays with the caller; this module fixes what the
//! runner reports for each outcome of that wait, and that a timeout is
//! no separate error path: a killed process is judged by the same exit
//! code test as any other.

use vstd::prelude::*;

use crate::text;

verus! {

/// How the bounded wait on an external command ended; either way the
/// code is whatever the reaped process reported, possibly none.
pub enum WaitOutcome {
    /// The process exited within the timeout.
    Exited(Option<i32>),
    /// The timeout elapsed; the process was killed and then reaped.
    TimedOutKilled(Option<i32>),
}

/// The exit code observed in either outcome.
pub open spec fn outcome_code(o: WaitOutcome) -> Option<i32> {
    match o {
        WaitOutcome::Exited(c) => c,
        WaitOutcome::TimedOutKilled(c) => c,
    }
}

/// The success test every caller applies to a finished run.
pub open spec fn run_success(code: Option<i32>) -> bool {
    code == Some(0i32)
}

/// Resolve the outcome of a bounded wait into what the runner reports:
/// the exit code finally observed, and the captured streams combined
/// with a newline between them. A run that timed out degrades to
/// whatever the killed process reported; it takes no separate path.
pub fn wait_cmd_with_timeout(outcome: WaitOutcome, stdout: String, stderr: String) -> (r: (
    Option<i32>,
    String,
))
    ensures
        r.0 == outcome_code(outcome),
        r.1@ == stdout@ + "\n"@ + stderr@,
{
    let code = match outcome {
        WaitOutcome::Exited(c) => c,
        WaitOutcome::TimedOutKilled(c) => c,
    };
    let mut combined = text::str_to_chars(stdout.as_str());
    text::extend_str(&mut combined, "\n");
    let sc = text::str_to_chars(stderr.as_str());
    text::extend_chars(&mut combined, &sc);
    (code, text::string_from_chars(&combined))
}

/// Whether an exit code reports success: the runner treats any other
/// code, including a missing one (the process was killed), as failure.
pub fn cmd_succeeded(code: &Option<i32>) -> (r: bool)
    ensures
        r == run_success(*code),
{
    match code {
        Some(c) => *c == 0i32,
        None => false,
    }
}

/// A run that had to be killed never counts as success unless the
/// reaped process still reported exit code zero: a process killed on
/// timeout reports no code, and an absent or non-zero code fails the
/// same test as any ordinary failed exit.
pub proof fn lemma_killed_run_fails(o: WaitOutcome)
    requires
        o is TimedOutKilled,
        outcome_code(o) != Some(0i32),
    ensures
        !run_success(outcome_code(o)),
{
}

} // verus!
