use job_engine::deltas::{DeltaEffect, DeltaGenerator};
use job_engine::engine::{start, EngineConfig, StartError};
use job_engine::errors::{DeltaGenerationError, ErrorClass};
use job_engine::executor::{
    delta_job_outcome, ExecutorError, Finished, JobExecutor, SlotAction, SlotState, Woken,
};
use job_engine::job::{Job, JobKind, JobOutcome, JobStatus};
use job_engine::protocol::{DeltaOutcome, DeltaRequest, RemoteServerMessage};
use job_engine::shutdown::ShutdownPhase;
use job_engine::store::JobStore;

fn commit(repo: u64) -> JobKind {
    JobKind::Commit { repo }
}

fn delta(repo: u64) -> JobKind {
    JobKind::GenerateDelta { repo, source: "aa".to_string(), target: "bb".to_string() }
}

fn success() -> JobOutcome {
    JobOutcome::Success { results: "done".to_string() }
}

fn failed(class: ErrorClass) -> JobOutcome {
    JobOutcome::Failed { class, detail: "went wrong".to_string() }
}

#[test]
fn idle_slot_claims_and_runs() {
    let mut store = JobStore::new();
    let a = store.submit(commit(1), vec![], 0, 0).unwrap();
    let mut ex = JobExecutor::new(2, 7, 5);
    assert_eq!(ex.concurrency(), 2);
    assert_eq!(ex.lease(), 7);
    assert_eq!(ex.slot(0), Some(SlotState::Idle));
    assert_eq!(ex.slot(2), None);
    let action = ex.claim_and_run_one(&mut store, 0, 10);
    assert_eq!(action, SlotAction::RunBackend { job: a, repo: 1 });
    assert_eq!(ex.slot(0), Some(SlotState::Running { job: a, repo: 1 }));
    assert_eq!(store.status(a), Some(JobStatus::Started));
    assert_eq!(store.get(a).unwrap().lease, Some(7));
    assert!(ex.is_locked(1));
    assert!(!ex.is_locked(2));
    // nothing else to claim
    assert_eq!(ex.claim_and_run_one(&mut store, 1, 10), SlotAction::Wait);
    // a busy slot claims nothing
    assert_eq!(ex.claim_and_run_one(&mut store, 0, 10), SlotAction::Wait);
    // no such slot
    assert_eq!(ex.claim_and_run_one(&mut store, 5, 10), SlotAction::Exit);
    let done = ex.attempt_finished(&mut store, 0, success(), 11).unwrap();
    assert_eq!(done, Finished { status: JobStatus::Success, action: SlotAction::Wait, woken: None });
    assert_eq!(ex.slot(0), Some(SlotState::Idle));
    assert!(!ex.is_locked(1));
}

#[test]
fn same_repository_runs_one_at_a_time() {
    let mut store = JobStore::new();
    let a = store.submit(commit(1), vec![], 0, 0).unwrap();
    let b = store.submit(JobKind::UpdateRepo { repo: 1 }, vec![], 0, 0).unwrap();
    let c = store.submit(JobKind::Publish { repo: 1 }, vec![], 0, 0).unwrap();
    let d = store.submit(commit(2), vec![], 0, 0).unwrap();
    let mut ex = JobExecutor::new(4, 7, 5);
    assert_eq!(ex.claim_and_run_one(&mut store, 0, 1), SlotAction::RunBackend { job: a, repo: 1 });
    assert_eq!(ex.claim_and_run_one(&mut store, 1, 1), SlotAction::AwaitLock { job: b, repo: 1 });
    assert_eq!(ex.claim_and_run_one(&mut store, 2, 1), SlotAction::AwaitLock { job: c, repo: 1 });
    assert_eq!(ex.claim_and_run_one(&mut store, 3, 1), SlotAction::RunBackend { job: d, repo: 2 });
    assert_eq!(ex.slot(1), Some(SlotState::AwaitingLock { job: b, repo: 1 }));
    // a slot that waits for a lock has nothing to report yet
    assert_eq!(
        ex.attempt_finished(&mut store, 1, success(), 2),
        Err(ExecutorError::WrongState)
    );
    let done = ex.attempt_finished(&mut store, 0, success(), 2).unwrap();
    assert_eq!(done.woken, Some(Woken { slot: 1, job: b, repo: 1 }));
    assert_eq!(ex.slot(0), Some(SlotState::Idle));
    assert_eq!(ex.slot(1), Some(SlotState::Running { job: b, repo: 1 }));
    assert_eq!(ex.slot(2), Some(SlotState::AwaitingLock { job: c, repo: 1 }));
    let done = ex.attempt_finished(&mut store, 3, success(), 3).unwrap();
    assert_eq!(done.woken, None);
    let done = ex.attempt_finished(&mut store, 1, failed(ErrorClass::Permanent), 4).unwrap();
    assert_eq!(done.status, JobStatus::Failure);
    assert_eq!(done.woken, Some(Woken { slot: 2, job: c, repo: 1 }));
    assert_eq!(ex.slot(2), Some(SlotState::Running { job: c, repo: 1 }));
}

#[test]
fn delta_job_waits_for_its_commit_and_fails_with_it() {
    // the commit succeeds: the delta job is claimed after it
    let mut store = JobStore::new();
    let a = store.submit(commit(1), vec![], 0, 0).unwrap();
    let b = store.submit(delta(1), vec![a], 0, 0).unwrap();
    let mut ex = JobExecutor::new(2, 7, 5);
    assert_eq!(ex.claim_and_run_one(&mut store, 0, 1), SlotAction::RunBackend { job: a, repo: 1 });
    assert_eq!(ex.claim_and_run_one(&mut store, 1, 1), SlotAction::Wait);
    assert_eq!(store.status(b), Some(JobStatus::New));
    ex.attempt_finished(&mut store, 0, success(), 2).unwrap();
    let action = ex.claim_and_run_one(&mut store, 1, 3);
    assert_eq!(
        action,
        SlotAction::RequestDelta {
            request: DeltaRequest {
                job: b,
                repo: 1,
                source: "aa".to_string(),
                target: "bb".to_string()
            }
        }
    );
    assert_eq!(ex.slot(1), Some(SlotState::AwaitingDelta { job: b }));
    assert!(!ex.is_locked(1));

    // the commit fails: the delta job fails without ever being claimed
    let mut store = JobStore::new();
    let a = store.submit(commit(1), vec![], 0, 0).unwrap();
    let b = store.submit(delta(1), vec![a], 0, 0).unwrap();
    let mut ex = JobExecutor::new(2, 7, 5);
    ex.claim_and_run_one(&mut store, 0, 1);
    assert_eq!(ex.claim_and_run_one(&mut store, 1, 1), SlotAction::Wait);
    let done = ex.attempt_finished(&mut store, 0, failed(ErrorClass::Permanent), 2).unwrap();
    assert_eq!(done.status, JobStatus::Failure);
    assert_eq!(store.status(b), Some(JobStatus::Failure));
    assert_eq!(store.get(b).unwrap().started, None);
    assert_eq!(store.get(b).unwrap().lease, None);
    assert_eq!(ex.claim_and_run_one(&mut store, 1, 3), SlotAction::Wait);
    assert_eq!(ex.claim_and_run_one(&mut store, 0, 3), SlotAction::Wait);
}

#[test]
fn delta_job_survives_the_loss_of_its_only_worker() {
    let mut store = JobStore::new();
    let a = store.submit(delta(1), vec![], 2, 0).unwrap();
    let mut ex = JobExecutor::new(1, 7, 5);
    let mut gen = DeltaGenerator::new(4, 60, false);
    gen.worker_connected(10, 0);
    let request = match ex.claim_and_run_one(&mut store, 0, 1) {
        SlotAction::RequestDelta { request } => request,
        other => panic!("unexpected action {:?}", other),
    };
    assert_eq!(gen.request_delta(request, 1).unwrap().len(), 1);
    // the worker goes away in mid-flight; the job is told nothing
    assert_eq!(gen.worker_disconnected(10, 2), vec![]);
    assert_eq!(store.status(a), Some(JobStatus::Started));
    assert_eq!(ex.slot(0), Some(SlotState::AwaitingDelta { job: a }));
    // a worker comes back and gets the request
    let effects = gen.worker_connected(11, 3);
    assert_eq!(effects.len(), 1);
    let answer = RemoteServerMessage::ComputeDeltaResponse {
        seq: 1,
        outcome: DeltaOutcome::Success { metadata: "delta".to_string() },
    };
    let mut effects = gen.worker_message(11, answer, 4);
    assert_eq!(effects.len(), 1);
    let result = match effects.remove(0) {
        DeltaEffect::Completed { job, result } => {
            assert_eq!(job, a);
            result
        }
        other => panic!("unexpected effect {:?}", other),
    };
    let done = ex.attempt_finished(&mut store, 0, delta_job_outcome(result), 5).unwrap();
    assert_eq!(done.status, JobStatus::Success);
    assert_eq!(store.get(a).unwrap().results, Some("delta".to_string()));
    assert_eq!(store.get(a).unwrap().retries, 0);
}

#[test]
fn delta_failures_become_job_outcomes() {
    assert_eq!(
        delta_job_outcome(Ok("meta".to_string())),
        JobOutcome::Success { results: "meta".to_string() }
    );
    assert_eq!(
        delta_job_outcome(Err(DeltaGenerationError::WorkerUnavailable)),
        JobOutcome::Failed {
            class: ErrorClass::Transient,
            detail: "no worker available".to_string()
        }
    );
    assert_eq!(
        delta_job_outcome(Err(DeltaGenerationError::Timeout)),
        JobOutcome::Failed {
            class: ErrorClass::Transient,
            detail: "delta request timed out".to_string()
        }
    );
    assert_eq!(
        delta_job_outcome(Err(DeltaGenerationError::ComputationFailed {
            detail: "bad object".to_string(),
            retryable: false
        })),
        JobOutcome::Failed { class: ErrorClass::Permanent, detail: "bad object".to_string() }
    );
}

#[test]
fn internal_failure_repeats_the_operation() {
    let mut store = JobStore::new();
    let a = store.submit(commit(1), vec![], 0, 0).unwrap();
    let b = store.submit(delta(2), vec![], 0, 0).unwrap();
    let mut ex = JobExecutor::new(2, 7, 5);
    ex.claim_and_run_one(&mut store, 0, 1);
    ex.claim_and_run_one(&mut store, 1, 1);
    let done = ex.attempt_finished(&mut store, 0, failed(ErrorClass::Internal), 2).unwrap();
    assert_eq!(
        done,
        Finished {
            status: JobStatus::Started,
            action: SlotAction::RunBackend { job: a, repo: 1 },
            woken: None
        }
    );
    assert_eq!(ex.slot(0), Some(SlotState::Running { job: a, repo: 1 }));
    assert_eq!(store.get(a).unwrap().retries, 0);
    let done = ex.attempt_finished(&mut store, 1, failed(ErrorClass::Internal), 2).unwrap();
    assert_eq!(
        done.action,
        SlotAction::RequestDelta {
            request: DeltaRequest {
                job: b,
                repo: 2,
                source: "aa".to_string(),
                target: "bb".to_string()
            }
        }
    );
}

#[test]
fn transient_failure_frees_the_slot_and_delays_the_job() {
    let mut store = JobStore::new();
    let a = store.submit(commit(1), vec![], 1, 0).unwrap();
    let mut ex = JobExecutor::new(1, 7, 5);
    ex.claim_and_run_one(&mut store, 0, 100);
    let done = ex.attempt_finished(&mut store, 0, failed(ErrorClass::Transient), 110).unwrap();
    assert_eq!(done.status, JobStatus::New);
    assert_eq!(ex.slot(0), Some(SlotState::Idle));
    assert_eq!(store.get(a).unwrap().not_before, 115);
    assert_eq!(ex.claim_and_run_one(&mut store, 0, 114), SlotAction::Wait);
    assert_eq!(
        ex.claim_and_run_one(&mut store, 0, 115),
        SlotAction::RunBackend { job: a, repo: 1 }
    );
    let done = ex.attempt_finished(&mut store, 0, failed(ErrorClass::Transient), 120).unwrap();
    assert_eq!(done.status, JobStatus::Failure);
}

#[test]
fn abandoned_delta_gives_the_job_back() {
    let mut store = JobStore::new();
    let a = store.submit(delta(1), vec![], 3, 0).unwrap();
    let b = store.submit(commit(1), vec![], 3, 0).unwrap();
    let mut ex = JobExecutor::new(2, 7, 5);
    ex.claim_and_run_one(&mut store, 0, 1);
    ex.claim_and_run_one(&mut store, 1, 1);
    assert_eq!(ex.delta_abandoned(&mut store, 1), Err(ExecutorError::WrongState));
    assert_eq!(ex.delta_abandoned(&mut store, 9), Err(ExecutorError::NoSuchSlot));
    assert_eq!(ex.delta_abandoned(&mut store, 0), Ok(SlotAction::Wait));
    assert_eq!(store.status(a), Some(JobStatus::New));
    assert_eq!(store.get(a).unwrap().retries, 0);
    assert_eq!(store.status(b), Some(JobStatus::Started));
    assert_eq!(ex.slot(0), Some(SlotState::Idle));
}

#[test]
fn graceful_stop_lets_running_slots_finish() {
    let mut store = JobStore::new();
    let a = store.submit(commit(1), vec![], 3, 0).unwrap();
    let b = store.submit(commit(1), vec![], 3, 0).unwrap();
    let c = store.submit(delta(2), vec![], 3, 0).unwrap();
    let mut ex = JobExecutor::new(4, 7, 5);
    ex.claim_and_run_one(&mut store, 0, 1);
    ex.claim_and_run_one(&mut store, 1, 1);
    ex.claim_and_run_one(&mut store, 2, 1);
    ex.stop(&mut store, true);
    assert!(ex.is_stopping());
    assert!(!ex.is_drained());
    assert_eq!(ex.slot(0), Some(SlotState::Running { job: a, repo: 1 }));
    assert_eq!(ex.slot(1), Some(SlotState::Exited));
    assert_eq!(ex.slot(2), Some(SlotState::Exited));
    assert_eq!(ex.slot(3), Some(SlotState::Exited));
    assert_eq!(store.status(a), Some(JobStatus::Started));
    assert_eq!(store.status(b), Some(JobStatus::New));
    assert_eq!(store.status(c), Some(JobStatus::New));
    assert_eq!(store.get(c).unwrap().retries, 0);
    assert_eq!(store.started_for_lease(7), vec![a]);
    // nothing is claimed any more
    assert_eq!(ex.claim_and_run_one(&mut store, 3, 2), SlotAction::Exit);
    let done = ex.attempt_finished(&mut store, 0, success(), 3).unwrap();
    assert_eq!(done, Finished { status: JobStatus::Success, action: SlotAction::Exit, woken: None });
    assert!(ex.is_drained());
    assert_eq!(store.started_for_lease(7), Vec::<u64>::new());
}

#[test]
fn forceful_stop_leaves_no_job_started() {
    let mut store = JobStore::new();
    let a = store.submit(commit(1), vec![], 3, 0).unwrap();
    let b = store.submit(commit(1), vec![], 3, 0).unwrap();
    let c = store.submit(delta(2), vec![], 3, 0).unwrap();
    let mut ex = JobExecutor::new(3, 7, 5);
    ex.claim_and_run_one(&mut store, 0, 1);
    ex.claim_and_run_one(&mut store, 1, 1);
    ex.claim_and_run_one(&mut store, 2, 1);
    ex.stop(&mut store, false);
    assert!(ex.is_drained());
    for id in [a, b, c] {
        assert_eq!(store.status(id), Some(JobStatus::New));
        assert_eq!(store.get(id).unwrap().retries, 0);
        assert_eq!(store.get(id).unwrap().lease, None);
    }
    assert_eq!(ex.attempt_finished(&mut store, 0, success(), 2), Err(ExecutorError::WrongState));
    assert_eq!(ex.attempt_finished(&mut store, 7, success(), 2), Err(ExecutorError::NoSuchSlot));
}

fn config() -> EngineConfig {
    EngineConfig {
        concurrency: 2,
        lease: 7,
        backoff_base: 5,
        delta_queue_capacity: 8,
        delta_timeout: 60,
        local_delta_fallback: true,
        drain_millis: 5000,
        quiescence_millis: 300,
    }
}

fn row(id: u64, status: JobStatus, deps: Vec<u64>) -> Job {
    let terminal = matches!(status, JobStatus::Success | JobStatus::Failure | JobStatus::Broken);
    let started = matches!(status, JobStatus::Started);
    Job {
        id,
        kind: commit(1),
        status,
        deps,
        results: if terminal { Some("r".to_string()) } else { None },
        created: 10,
        started: if started { Some(11) } else { None },
        ended: if terminal { Some(12) } else { None },
        retries: 1,
        max_retries: 1,
        not_before: 10,
        lease: if started { Some(7) } else { None },
    }
}

#[test]
fn start_recovers_the_jobs_left_started() {
    let rows = vec![
        row(1, JobStatus::Success, vec![]),
        row(2, JobStatus::Started, vec![1]),
        row(3, JobStatus::Failure, vec![]),
        row(4, JobStatus::New, vec![3]),
        row(5, JobStatus::New, vec![4]),
        row(6, JobStatus::Started, vec![]),
        Job { lease: Some(9), ..row(7, JobStatus::Started, vec![]) },
    ];
    let mut engine = start(&config(), rows, 50).unwrap();
    assert_eq!(engine.store.status(1), Some(JobStatus::Success));
    assert_eq!(engine.store.status(2), Some(JobStatus::New));
    assert_eq!(engine.store.status(3), Some(JobStatus::Failure));
    assert_eq!(engine.store.status(4), Some(JobStatus::Failure));
    assert_eq!(engine.store.status(5), Some(JobStatus::Failure));
    assert_eq!(engine.store.status(6), Some(JobStatus::New));
    // the job of another executor is still its own
    assert_eq!(engine.store.status(7), Some(JobStatus::Started));
    assert_eq!(engine.store.get(7).unwrap().lease, Some(9));
    assert_eq!(engine.store.get(2).unwrap().retries, 1);
    assert_eq!(engine.store.get(2).unwrap().lease, None);
    assert_eq!(engine.store.get(5).unwrap().ended, Some(50));
    assert_eq!(engine.executor.concurrency(), 2);
    assert_eq!(engine.executor.slot(0), Some(SlotState::Idle));
    assert_eq!(engine.executor.slot(1), Some(SlotState::Idle));
    assert_eq!(engine.delta_generator.worker_count(), 0);
    assert_eq!(engine.delta_generator.pending_len(), 0);
    assert_eq!(engine.shutdown.phase(), ShutdownPhase::Running);
    // the recovered jobs run again and reach a terminal status
    assert_eq!(
        engine.executor.claim_and_run_one(&mut engine.store, 0, 51),
        SlotAction::RunBackend { job: 2, repo: 1 }
    );
    assert_eq!(
        engine.executor.claim_and_run_one(&mut engine.store, 1, 51),
        SlotAction::AwaitLock { job: 6, repo: 1 }
    );
    let done = engine.executor.attempt_finished(&mut engine.store, 0, success(), 52).unwrap();
    assert_eq!(done.woken, Some(Woken { slot: 1, job: 6, repo: 1 }));
    let done =
        engine.executor.attempt_finished(&mut engine.store, 1, failed(ErrorClass::Transient), 53).unwrap();
    assert_eq!(done.status, JobStatus::Failure);
}

#[test]
fn start_refuses_bad_settings_and_bad_rows() {
    let mut none = config();
    none.concurrency = 0;
    assert!(matches!(start(&none, vec![], 0), Err(StartError::NoSlots)));
    let rows = vec![row(2, JobStatus::New, vec![]), row(1, JobStatus::New, vec![])];
    assert!(matches!(start(&config(), rows, 0), Err(StartError::MalformedTable)));
    let rows = vec![row(2, JobStatus::New, vec![]), row(1, JobStatus::New, vec![])];
    assert!(matches!(start(&none, rows, 0), Err(StartError::NoSlots)));
    assert!(start(&config(), vec![], 0).is_ok());
}

#[test]
fn lock_wait_that_takes_too_long_is_a_transient_failure() {
    let mut store = JobStore::new();
    let a = store.submit(commit(1), vec![], 1, 0).unwrap();
    let b = store.submit(commit(1), vec![], 1, 0).unwrap();
    let c = store.submit(commit(1), vec![], 0, 0).unwrap();
    let mut ex = JobExecutor::new(3, 7, 5);
    ex.claim_and_run_one(&mut store, 0, 1);
    ex.claim_and_run_one(&mut store, 1, 1);
    ex.claim_and_run_one(&mut store, 2, 1);
    assert_eq!(ex.lock_wait_timed_out(&mut store, 0, 50), Err(ExecutorError::WrongState));
    assert_eq!(ex.lock_wait_timed_out(&mut store, 3, 50), Err(ExecutorError::NoSuchSlot));
    let done = ex.lock_wait_timed_out(&mut store, 1, 50).unwrap();
    assert_eq!(done, Finished { status: JobStatus::New, action: SlotAction::Wait, woken: None });
    assert_eq!(ex.slot(1), Some(SlotState::Idle));
    assert_eq!(store.get(b).unwrap().retries, 1);
    assert_eq!(store.get(b).unwrap().not_before, 55);
    assert_eq!(store.get(b).unwrap().lease, None);
    let done = ex.lock_wait_timed_out(&mut store, 2, 60).unwrap();
    assert_eq!(done.status, JobStatus::Failure);
    assert_eq!(
        store.get(c).unwrap().results,
        Some("timed out waiting for the repository lock".to_string())
    );
    assert_eq!(store.get(c).unwrap().retries, 1);
    assert_eq!(ex.slot(0), Some(SlotState::Running { job: a, repo: 1 }));
    // the lock is free again once its holder is done, and nobody is woken
    let done = ex.attempt_finished(&mut store, 0, success(), 61).unwrap();
    assert_eq!(done.woken, None);
}

#[test]
fn idle_slots_are_listed_for_the_wake_up() {
    let mut store = JobStore::new();
    store.submit(commit(1), vec![], 1, 0).unwrap();
    store.submit(delta(2), vec![], 1, 0).unwrap();
    let mut ex = JobExecutor::new(4, 7, 5);
    assert_eq!(ex.idle_slots(), vec![0, 1, 2, 3]);
    ex.claim_and_run_one(&mut store, 1, 1);
    ex.claim_and_run_one(&mut store, 2, 1);
    assert_eq!(ex.idle_slots(), vec![0, 3]);
    ex.stop(&mut store, true);
    assert_eq!(ex.idle_slots(), Vec::<usize>::new());
    assert_eq!(JobExecutor::new(0, 1, 1).idle_slots(), Vec::<usize>::new());
}

#[test]
fn actions_say_whether_work_was_found() {
    assert!(!SlotAction::Wait.found_work());
    assert!(!SlotAction::Exit.found_work());
    assert!(SlotAction::RunBackend { job: 1, repo: 1 }.found_work());
    assert!(SlotAction::AwaitLock { job: 1, repo: 1 }.found_work());
    let mut store = JobStore::new();
    store.submit(commit(1), vec![], 0, 0).unwrap();
    let mut ex = JobExecutor::new(1, 7, 5);
    assert!(ex.agrees_with(&store));
    assert_eq!(ex.slot_of(1), None);
    assert!(ex.claim_and_run_one(&mut store, 0, 1).found_work());
    assert!(ex.agrees_with(&store));
    assert_eq!(ex.slot_of(1), Some(0));
    // a claim made behind the back of the executor is noticed
    let mut other = JobStore::new();
    other.submit(commit(1), vec![], 0, 0).unwrap();
    assert!(!ex.agrees_with(&other));
    other.claim_next(7, 1);
    assert!(ex.agrees_with(&other));
    other.submit(commit(2), vec![], 0, 0).unwrap();
    other.claim_next(7, 1);
    assert!(!ex.agrees_with(&other));
}

#[test]
fn engine_takes_submissions_while_slots_are_busy() {
    let mut engine = start(&config(), vec![], 0).unwrap();
    let a = engine.submit(commit(1), vec![], 1, 1).unwrap();
    assert_eq!(a, 1);
    assert_eq!(engine.status(a), Some(JobStatus::New));
    assert_eq!(engine.status(2), None);
    assert_eq!(
        engine.executor.claim_and_run_one(&mut engine.store, 0, 2),
        SlotAction::RunBackend { job: a, repo: 1 }
    );
    let b = engine.submit(delta(1), vec![a], 1, 3).unwrap();
    assert_eq!(engine.submit(commit(1), vec![9], 1, 3), Err(job_engine::store::StoreError::UnknownDependency));
    assert!(engine.executor.agrees_with(&engine.store));
    assert_eq!(engine.status(a), Some(JobStatus::Started));
    assert_eq!(engine.status(b), Some(JobStatus::New));
    assert_eq!(engine.executor.claim_and_run_one(&mut engine.store, 1, 4), SlotAction::Wait);
}
