use vstd::prelude::*;

use crate::pool::error::Error;

verus! {

/// What one turn of a worker's loop observed at the shared queue.
pub enum WorkerEvent {
    /// A job was claimed and ran to completion; `failed` reports whether
    /// it returned an error.
    JobRan { failed: bool },
    /// The queue is closed and drained.
    Disconnected,
    /// The queue's synchronization primitive is unusable.
    LockPoisoned,
}

/// What the worker does after observing an event.
#[derive(Debug, PartialEq, Eq, Structural)]
pub enum WorkerAction {
    /// Keep pulling jobs; `report_failure` says whether the last job's
    /// failure is reported for visibility.
    Continue { report_failure: bool },
    /// Leave the loop cleanly.
    ExitClean,
    /// Leave the loop with the synchronization fault.
    ExitFaulted,
}

/// The action a worker takes on each event: a job's outcome never ends
/// the loop, a drained closed queue ends it cleanly, and only an
/// unusable lock ends it faulted.
pub open spec fn worker_step_spec(event: WorkerEvent) -> WorkerAction {
    match event {
        WorkerEvent::JobRan { failed } => WorkerAction::Continue { report_failure: failed },
        WorkerEvent::Disconnected => WorkerAction::ExitClean,
        WorkerEvent::LockPoisoned => WorkerAction::ExitFaulted,
    }
}

/// Decides a worker's next move, exactly as [`worker_step_spec`] says.
pub fn worker_step(event: WorkerEvent) -> (r: WorkerAction)
    ensures
        r == worker_step_spec(event),
{
    match event {
        WorkerEvent::JobRan { failed } => WorkerAction::Continue { report_failure: failed },
        WorkerEvent::Disconnected => WorkerAction::ExitClean,
        WorkerEvent::LockPoisoned => WorkerAction::ExitFaulted,
    }
}

/// The result a worker's execution context reports when its loop ends.
pub fn worker_exit_result(action: WorkerAction) -> (r: Result<(), Error>)
    requires
        action != (WorkerAction::Continue { report_failure: true }),
        action != (WorkerAction::Continue { report_failure: false }),
    ensures
        action == WorkerAction::ExitClean ==> r == Ok::<(), Error>(()),
        action == WorkerAction::ExitFaulted ==> r == Err::<(), Error>(Error::MutexPoisoned),
{
    match action {
        WorkerAction::ExitFaulted => Err(Error::MutexPoisoned),
        _ => Ok(()),
    }
}

/// A job's failure is reported but never terminates the worker: after
/// any job outcome the worker keeps pulling jobs.
pub proof fn lemma_job_failure_keeps_worker(failed: bool)
    ensures
        worker_step_spec(WorkerEvent::JobRan { failed }) == (WorkerAction::Continue {
            report_failure: failed,
        }),
{
}

} // verus!
