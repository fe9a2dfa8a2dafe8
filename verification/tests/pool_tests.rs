use kv_store::pool::error::Error;
use kv_store::pool::thread_pool::{submit_gate, submit_outcome, worker_ids};
use kv_store::pool::worker::{worker_exit_result, worker_step, WorkerAction, WorkerEvent};

#[test]
fn build_zero_workers_is_refused() {
    assert_eq!(worker_ids(0).err(), Some(Error::InvalidPoolSize));
}

#[test]
fn build_yields_exactly_n_workers() {
    let ids = worker_ids(10).unwrap();
    assert_eq!(ids.len(), 10);
    for (i, id) in ids.iter().enumerate() {
        assert_eq!(*id, i);
    }
}

#[test]
fn job_outcome_never_ends_the_worker() {
    assert_eq!(
        worker_step(WorkerEvent::JobRan { failed: false }),
        WorkerAction::Continue { report_failure: false }
    );
    assert_eq!(
        worker_step(WorkerEvent::JobRan { failed: true }),
        WorkerAction::Continue { report_failure: true }
    );
}

#[test]
fn drained_closed_queue_ends_the_worker_cleanly() {
    assert_eq!(worker_step(WorkerEvent::Disconnected), WorkerAction::ExitClean);
    assert_eq!(worker_exit_result(WorkerAction::ExitClean), Ok(()));
}

#[test]
fn poisoned_queue_lock_faults_the_worker() {
    assert_eq!(worker_step(WorkerEvent::LockPoisoned), WorkerAction::ExitFaulted);
    assert_eq!(
        worker_exit_result(WorkerAction::ExitFaulted),
        Err(Error::MutexPoisoned)
    );
}

#[test]
fn submission_is_refused_after_shutdown_began() {
    assert_eq!(submit_gate(false), Err(Error::SenderIsNil));
    assert_eq!(submit_gate(true), Ok(()));
}

#[test]
fn submission_fails_without_a_receiver() {
    assert_eq!(submit_outcome(false), Err(Error::ReceiverIsDropped));
    assert_eq!(submit_outcome(true), Ok(()));
}
