use job_engine::errors::ErrorClass;
use job_engine::job::{backoff, next_eligible, Job, JobKind, JobOutcome, JobStatus};
use job_engine::store::{JobStore, StoreError};

fn commit(repo: u64) -> JobKind {
    JobKind::Commit { repo }
}

fn failed(class: ErrorClass, detail: &str) -> JobOutcome {
    JobOutcome::Failed { class, detail: detail.to_string() }
}

#[test]
fn submit_inserts_new_jobs_with_ascending_ids() {
    let mut s = JobStore::new();
    assert_eq!(s.len(), 0);
    let a = s.submit(commit(1), vec![], 3, 100).unwrap();
    let b = s.submit(commit(2), vec![a], 3, 101).unwrap();
    assert_eq!(a, 1);
    assert_eq!(b, 2);
    assert_eq!(s.len(), 2);
    let job = s.get(b).unwrap();
    assert_eq!(job.status, JobStatus::New);
    assert_eq!(job.retries, 0);
    assert_eq!(job.deps, vec![a]);
    assert_eq!(job.created, 101);
    assert_eq!(job.not_before, 101);
    assert_eq!(job.results, None);
    assert_eq!(job.lease, None);
    assert_eq!(s.next_id(), 3);
}

#[test]
fn submit_refuses_unknown_and_duplicate_dependencies() {
    let mut s = JobStore::new();
    let a = s.submit(commit(1), vec![], 0, 0).unwrap();
    assert_eq!(s.submit(commit(1), vec![7], 0, 0), Err(StoreError::UnknownDependency));
    assert_eq!(s.submit(commit(1), vec![a, a], 0, 0), Err(StoreError::DuplicateDependency));
    assert_eq!(s.submit(commit(1), vec![7, 7], 0, 0), Err(StoreError::UnknownDependency));
    assert_eq!(s.len(), 1);
    assert_eq!(s.next_id(), 2);
}

#[test]
fn claim_takes_the_lowest_claimable_job() {
    let mut s = JobStore::new();
    let a = s.submit(commit(1), vec![], 0, 10).unwrap();
    let b = s.submit(commit(2), vec![], 0, 10).unwrap();
    assert_eq!(s.list_claimable(10), vec![a, b]);
    assert_eq!(s.claim_next(7, 20), Some(a));
    assert_eq!(s.status(a), Some(JobStatus::Started));
    assert_eq!(s.get(a).unwrap().lease, Some(7));
    assert_eq!(s.get(a).unwrap().started, Some(20));
    assert_eq!(s.claim_next(8, 21), Some(b));
    assert_eq!(s.claim_next(9, 22), None);
    assert_eq!(s.started_for_lease(7), vec![a]);
    assert_eq!(s.started_for_lease(8), vec![b]);
    assert_eq!(s.started_for_lease(9), Vec::<u64>::new());
}

#[test]
fn a_job_is_claimed_once() {
    let mut s = JobStore::new();
    let a = s.submit(commit(1), vec![], 0, 10).unwrap();
    assert!(s.claim_if_new(a, 1, 10));
    assert!(!s.claim_if_new(a, 2, 10));
    assert_eq!(s.get(a).unwrap().lease, Some(1));
    assert!(!s.claim_if_new(99, 2, 10));
}

#[test]
fn dependent_waits_for_success() {
    let mut s = JobStore::new();
    let a = s.submit(commit(1), vec![], 0, 0).unwrap();
    let b = s.submit(
        JobKind::GenerateDelta { repo: 1, source: "aa".to_string(), target: "bb".to_string() },
        vec![a],
        0,
        0,
    )
    .unwrap();
    assert!(!s.claim_if_new(b, 1, 5));
    assert_eq!(s.claim_next(1, 5), Some(a));
    assert_eq!(s.claim_next(1, 5), None);
    assert_eq!(s.status(b), Some(JobStatus::New));
    let r = s.finish(a, JobOutcome::Success { results: "ok".to_string() }, 6, 1);
    assert_eq!(r, Ok(JobStatus::Success));
    assert_eq!(s.get(a).unwrap().results, Some("ok".to_string()));
    assert_eq!(s.get(a).unwrap().ended, Some(6));
    assert_eq!(s.get(a).unwrap().lease, None);
    assert_eq!(s.claim_next(1, 7), Some(b));
    assert_eq!(s.status(b), Some(JobStatus::Started));
}

#[test]
fn failure_reaches_dependents_without_a_claim() {
    let mut s = JobStore::new();
    let a = s.submit(commit(1), vec![], 0, 0).unwrap();
    let b = s.submit(commit(1), vec![a], 0, 0).unwrap();
    let c = s.submit(commit(1), vec![b], 0, 0).unwrap();
    let d = s.submit(commit(2), vec![], 0, 0).unwrap();
    assert_eq!(s.claim_next(1, 1), Some(a));
    let r = s.finish(a, failed(ErrorClass::Permanent, "bad object"), 9, 1);
    assert_eq!(r, Ok(JobStatus::Failure));
    assert_eq!(s.status(a), Some(JobStatus::Failure));
    assert_eq!(s.status(b), Some(JobStatus::Failure));
    assert_eq!(s.status(c), Some(JobStatus::Failure));
    assert_eq!(s.status(d), Some(JobStatus::New));
    let jb = s.get(b).unwrap();
    assert_eq!(jb.results, Some("dependency failed".to_string()));
    assert_eq!(jb.started, None);
    assert_eq!(jb.ended, Some(9));
    assert_eq!(jb.lease, None);
    assert_eq!(s.get(a).unwrap().results, Some("bad object".to_string()));
}

#[test]
fn transient_failures_retry_up_to_the_bound() {
    let mut s = JobStore::new();
    let a = s.submit(commit(1), vec![], 2, 0).unwrap();
    assert_eq!(s.claim_next(1, 100), Some(a));
    assert_eq!(s.finish(a, failed(ErrorClass::Transient, "no worker"), 110, 5), Ok(JobStatus::New));
    let j = s.get(a).unwrap();
    assert_eq!(j.retries, 1);
    assert_eq!(j.not_before, 115);
    assert_eq!(j.results, None);
    assert_eq!(j.started, None);
    assert_eq!(s.claim_next(1, 114), None);
    assert_eq!(s.claim_next(1, 115), Some(a));
    assert_eq!(s.finish(a, failed(ErrorClass::Transient, "no worker"), 120, 5), Ok(JobStatus::New));
    assert_eq!(s.get(a).unwrap().retries, 2);
    assert_eq!(s.get(a).unwrap().not_before, 130);
    assert_eq!(s.claim_next(1, 130), Some(a));
    assert_eq!(
        s.finish(a, failed(ErrorClass::Transient, "still no worker"), 140, 5),
        Ok(JobStatus::Failure)
    );
    let j = s.get(a).unwrap();
    assert_eq!(j.retries, 3);
    assert_eq!(j.status, JobStatus::Failure);
    assert_eq!(j.results, Some("still no worker".to_string()));
    assert_eq!(s.claim_next(1, 10_000), None);
    assert_eq!(s.finish(a, failed(ErrorClass::Transient, "x"), 150, 5), Err(StoreError::NotStarted));
}

#[test]
fn broken_and_internal_outcomes() {
    let mut s = JobStore::new();
    let a = s.submit(commit(1), vec![], 5, 0).unwrap();
    assert_eq!(s.claim_next(1, 1), Some(a));
    assert_eq!(s.finish(a, failed(ErrorClass::Internal, "db down"), 2, 1), Ok(JobStatus::Started));
    assert_eq!(s.status(a), Some(JobStatus::Started));
    assert_eq!(s.get(a).unwrap().retries, 0);
    assert_eq!(s.finish(a, failed(ErrorClass::Broken, "bad params"), 3, 1), Ok(JobStatus::Broken));
    assert_eq!(s.status(a), Some(JobStatus::Broken));
    assert_eq!(s.get(a).unwrap().results, Some("bad params".to_string()));
    assert_eq!(s.finish(99, failed(ErrorClass::Broken, "x"), 3, 1), Err(StoreError::UnknownJob));
}

#[test]
fn cleanup_resets_exactly_the_started_jobs() {
    let mut s = JobStore::new();
    let a = s.submit(commit(1), vec![], 1, 0).unwrap();
    let b = s.submit(commit(2), vec![], 1, 0).unwrap();
    let c = s.submit(commit(3), vec![], 1, 0).unwrap();
    let d = s.submit(commit(4), vec![], 1, 0).unwrap();
    let e = s.submit(commit(5), vec![], 1, 0).unwrap();
    assert_eq!(s.claim_next(1, 1), Some(a));
    assert_eq!(s.claim_next(1, 1), Some(b));
    assert_eq!(s.claim_next(1, 1), Some(c));
    assert_eq!(s.claim_next(2, 1), Some(d));
    assert_eq!(s.finish(b, JobOutcome::Success { results: "done".to_string() }, 2, 1), Ok(JobStatus::Success));
    let reset = s.cleanup_started_jobs(1);
    assert_eq!(reset, vec![a, c]);
    assert_eq!(s.status(a), Some(JobStatus::New));
    assert_eq!(s.status(b), Some(JobStatus::Success));
    assert_eq!(s.status(c), Some(JobStatus::New));
    // what another executor has claimed is left alone
    assert_eq!(s.status(d), Some(JobStatus::Started));
    assert_eq!(s.get(d).unwrap().lease, Some(2));
    assert_eq!(s.status(e), Some(JobStatus::New));
    assert_eq!(s.get(a).unwrap().lease, None);
    assert_eq!(s.get(a).unwrap().retries, 0);
    assert_eq!(s.cleanup_started_jobs(1), Vec::<u64>::new());
    assert_eq!(s.cleanup_started_jobs(3), Vec::<u64>::new());
    assert_eq!(s.claim_next(2, 3), Some(a));
    assert_eq!(s.cleanup_started_jobs(2), vec![a, d]);
}

#[test]
fn release_gives_a_job_back() {
    let mut s = JobStore::new();
    let a = s.submit(commit(1), vec![], 1, 0).unwrap();
    assert_eq!(s.release(a), Err(StoreError::NotStarted));
    assert_eq!(s.release(5), Err(StoreError::UnknownJob));
    assert_eq!(s.claim_next(1, 1), Some(a));
    assert_eq!(s.release(a), Ok(()));
    assert_eq!(s.status(a), Some(JobStatus::New));
    assert_eq!(s.get(a).unwrap().retries, 0);
}

#[test]
fn backoff_doubles_and_saturates() {
    assert_eq!(backoff(5, 0), 5);
    assert_eq!(backoff(5, 1), 10);
    assert_eq!(backoff(5, 3), 40);
    assert_eq!(backoff(0, 40), 0);
    assert_eq!(backoff(1, 63), 1u64 << 63);
    assert_eq!(backoff(1, 64), u64::MAX);
    assert_eq!(backoff(3, 63), u64::MAX);
    assert_eq!(backoff(7, u32::MAX), u64::MAX);
    assert_eq!(next_eligible(100, 5, 2), 120);
    assert_eq!(next_eligible(u64::MAX - 3, 5, 0), u64::MAX);
}

fn row(id: u64, status: JobStatus, deps: Vec<u64>) -> Job {
    let terminal = matches!(status, JobStatus::Success | JobStatus::Failure | JobStatus::Broken);
    let started = matches!(status, JobStatus::Started);
    Job {
        id,
        kind: commit(1),
        status,
        deps,
        results: if terminal { Some("r".to_string()) } else { None },
        created: 10,
        started: if started { Some(11) } else { None },
        ended: if terminal { Some(12) } else { None },
        retries: 0,
        max_retries: 1,
        not_before: 10,
        lease: if started { Some(1) } else { None },
    }
}

#[test]
fn from_jobs_accepts_well_formed_tables() {
    let s = JobStore::from_jobs(vec![
        row(3, JobStatus::Success, vec![]),
        row(5, JobStatus::Started, vec![3]),
        row(9, JobStatus::New, vec![3, 5]),
    ])
    .unwrap();
    assert_eq!(s.len(), 3);
    assert_eq!(s.next_id(), 10);
    assert_eq!(s.status(5), Some(JobStatus::Started));
    let e = JobStore::from_jobs(vec![]).unwrap();
    assert_eq!(e.next_id(), 1);
}

#[test]
fn from_jobs_refuses_malformed_tables() {
    let bad = |rows: Vec<Job>| matches!(JobStore::from_jobs(rows), Err(StoreError::Malformed));
    // identifiers out of order, or twice
    assert!(bad(vec![row(5, JobStatus::New, vec![]), row(3, JobStatus::New, vec![])]));
    assert!(bad(vec![row(5, JobStatus::New, vec![]), row(5, JobStatus::New, vec![])]));
    // a dependency that is no job, or a later one, or the job itself
    assert!(bad(vec![row(5, JobStatus::New, vec![4])]));
    assert!(bad(vec![row(5, JobStatus::New, vec![6]), row(6, JobStatus::New, vec![])]));
    assert!(bad(vec![row(5, JobStatus::New, vec![5])]));
    // a started job whose dependency has not succeeded
    assert!(bad(vec![row(1, JobStatus::New, vec![]), row(2, JobStatus::Started, vec![1])]));
    // a dependency named twice
    assert!(bad(vec![row(1, JobStatus::Success, vec![]), row(2, JobStatus::New, vec![1, 1])]));
    // a started job without a lease
    let mut j = row(1, JobStatus::Started, vec![]);
    j.lease = None;
    assert!(bad(vec![j]));
    // a live job beyond its retry bound
    let mut j = row(1, JobStatus::New, vec![]);
    j.retries = 2;
    assert!(bad(vec![j]));
    // an end before the start
    let mut j = row(1, JobStatus::Success, vec![]);
    j.started = Some(20);
    assert!(bad(vec![j]));
    // no identifier left
    assert!(bad(vec![row(u64::MAX, JobStatus::New, vec![])]));
}

#[test]
fn unreadable_parameters_break_the_job_without_a_claim() {
    let mut s = JobStore::new();
    let a = s.submit(JobKind::Unreadable { contents: "{".to_string() }, vec![], 3, 7).unwrap();
    assert_eq!(s.status(a), Some(JobStatus::Broken));
    let j = s.get(a).unwrap();
    assert_eq!(j.results, Some("invalid job parameters".to_string()));
    assert_eq!(j.ended, Some(7));
    assert_eq!(j.started, None);
    assert_eq!(j.retries, 0);
    let b = s.submit(commit(1), vec![a], 3, 8).unwrap();
    assert_eq!(s.status(b), Some(JobStatus::Failure));
    assert_eq!(s.get(b).unwrap().results, Some("dependency failed".to_string()));
    assert_eq!(s.claim_next(1, 9), None);
    assert_eq!(s.list_claimable(9), Vec::<u64>::new());
    assert!(!JobKind::Unreadable { contents: String::new() }.is_readable());
    assert!(commit(1).is_readable());
    assert_eq!(JobKind::Publish { repo: 4 }.repo(), 4);
    assert!(!JobKind::Publish { repo: 4 }.is_delta());
}

#[test]
fn a_started_job_has_readable_parameters() {
    let mut j = row(1, JobStatus::Started, vec![]);
    j.kind = JobKind::Unreadable { contents: "x".to_string() };
    assert!(!j.is_well_formed());
    assert!(matches!(JobStore::from_jobs(vec![j]), Err(StoreError::Malformed)));
    let mut j = row(1, JobStatus::New, vec![]);
    j.kind = JobKind::Unreadable { contents: "x".to_string() };
    assert!(j.is_well_formed());
    let mut s = JobStore::from_jobs(vec![j]).unwrap();
    assert!(!s.is_claimable(0, 100));
    assert_eq!(s.claim_next(1, 100), None);
    s.propagate_failures(100);
    assert_eq!(s.status(1), Some(JobStatus::Broken));
}

#[test]
fn submit_fails_when_no_identifier_is_left() {
    let mut s = JobStore::from_jobs(vec![row(u64::MAX - 1, JobStatus::New, vec![])]).unwrap();
    assert_eq!(s.next_id(), u64::MAX);
    assert_eq!(s.submit(commit(1), vec![], 0, 0), Err(StoreError::IdsExhausted));
    // exhaustion is reported before anything is said of the dependencies
    assert_eq!(s.submit(commit(1), vec![5, 5], 0, 0), Err(StoreError::IdsExhausted));
    assert_eq!(s.len(), 1);
}

#[test]
fn rows_are_found_by_identifier() {
    let s = JobStore::from_jobs(vec![
        row(3, JobStatus::Success, vec![]),
        row(8, JobStatus::New, vec![3]),
    ])
    .unwrap();
    assert_eq!(s.find(3), Some(0));
    assert_eq!(s.find(8), Some(1));
    assert_eq!(s.find(5), None);
    assert_eq!(s.row(1).id, 8);
    assert!(s.get(4).is_none());
    assert!(s.is_claimable(1, 10));
    assert!(!s.is_claimable(1, 9));
    assert!(!s.is_claimable(0, 10));
    assert_eq!(s.status(9), None);
}

#[test]
fn statuses_are_classified() {
    assert!(!JobStatus::New.is_terminal());
    assert!(!JobStatus::Started.is_terminal());
    assert!(JobStatus::Success.is_terminal());
    assert!(JobStatus::Failure.is_terminal());
    assert!(JobStatus::Broken.is_terminal());
    assert!(!JobStatus::Success.is_failed());
    assert!(JobStatus::Failure.is_failed());
    assert!(JobStatus::Broken.is_failed());
}

#[test]
fn end_time_never_precedes_the_start() {
    let mut s = JobStore::new();
    let a = s.submit(commit(1), vec![], 0, 100).unwrap();
    // the clock of the claimant is behind the creation of the job
    assert_eq!(s.claim_next(1, 50), None);
    let b = s.submit(commit(2), vec![], 0, 10).unwrap();
    assert_eq!(s.claim_next(1, 100), Some(a));
    assert_eq!(s.claim_next(1, 100), Some(b));
    assert_eq!(s.get(b).unwrap().started, Some(100));
    // the clock has gone back when the attempt ends
    assert_eq!(s.finish(b, JobOutcome::Success { results: "ok".to_string() }, 40, 1), Ok(JobStatus::Success));
    assert_eq!(s.get(b).unwrap().ended, Some(100));
}

#[test]
fn statuses_are_stored_under_their_numbers() {
    let all = [
        (JobStatus::New, 0),
        (JobStatus::Started, 1),
        (JobStatus::Success, 2),
        (JobStatus::Failure, 3),
        (JobStatus::Broken, 4),
    ];
    for (status, code) in all {
        assert_eq!(status.code(), code);
        assert_eq!(JobStatus::from_code(code), Some(status));
    }
    assert_eq!(JobStatus::from_code(5), None);
    assert_eq!(JobStatus::from_code(-1), None);
}
