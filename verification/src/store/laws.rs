//! What holds of every transaction on the job table.

use crate::errors::ErrorClass;
use crate::job::{eligible_at, Job, JobKind, JobOutcome, JobStatus};
use crate::store::table::{
    all_known, claimable, deps_met, first_claimable, has_job, ids_below, index_of, is_job,
    is_propagation, leased, lemma_index_of, lemma_propagation_keeps_wf, lemma_propagation_rows,
    lemma_same_ids, lemma_status_after_push, lemma_status_after_update, lemma_update_keeps_wf,
    recovered, row_wf, status_of, table_wf,
};
use vstd::prelude::*;

verus! {

/// One transaction on the job table.
pub enum Transition {
    Submit { id: u64, kind: JobKind, deps: Vec<u64>, max_retries: u32, now: u64 },
    Claim { id: u64, lease: u64, now: u64 },
    Finish { id: u64, outcome: JobOutcome, now: u64, backoff_base: u64 },
    Release { id: u64 },
    Cleanup { lease: u64 },
    Propagate { now: u64 },
}

/// `after` is the table that the transaction `t` makes of `before`. A
/// transaction that is refused relates no two tables.
pub open spec fn transition(before: Seq<Job>, t: Transition, after: Seq<Job>) -> bool {
    match t {
        Transition::Submit { id, kind, deps, max_retries, now } => {
            &&& ids_below(before, id)
            &&& all_known(before, deps@)
            &&& deps@.no_duplicates()
            &&& is_propagation(
                before.push(Job::fresh(id, kind, deps, max_retries, now)),
                after,
                now,
            )
        },
        Transition::Claim { id, lease, now } => {
            &&& has_job(before, id)
            &&& claimable(before, index_of(before, id), now)
            &&& after == before.update(
                index_of(before, id),
                before[index_of(before, id)].claimed(lease, now),
            )
        },
        Transition::Finish { id, outcome, now, backoff_base } => {
            &&& status_of(before, id) == Some(JobStatus::Started)
            &&& is_propagation(
                before.update(
                    index_of(before, id),
                    before[index_of(before, id)].after_attempt(outcome, now, backoff_base),
                ),
                after,
                now,
            )
        },
        Transition::Release { id } => {
            &&& status_of(before, id) == Some(JobStatus::Started)
            &&& after == before.update(
                index_of(before, id),
                before[index_of(before, id)].released(),
            )
        },
        Transition::Cleanup { lease } => {
            &&& after.len() == before.len()
            &&& forall|i: int|
                0 <= i < before.len() ==> #[trigger] after[i] == recovered(before[i], lease)
        },
        Transition::Propagate { now } => is_propagation(before, after, now),
    }
}

/// Every transaction keeps a well-formed table well formed.
pub proof fn lemma_transition_keeps_wf(before: Seq<Job>, t: Transition, after: Seq<Job>)
    requires
        table_wf(before),
        transition(before, t, after),
    ensures
        table_wf(after),
{
    match t {
        Transition::Submit { id, kind, deps, max_retries, now } => {
            let job = Job::fresh(id, kind, deps, max_retries, now);
            let pushed = before.push(job);
            lemma_status_after_push(before, job, 0);
            assert forall|r: int| 0 <= r < pushed.len() implies #[trigger] row_wf(pushed, r) by {
                if r < before.len() {
                    assert(row_wf(before, r));
                    assert(pushed[r] == before[r]);
                    assert forall|k: int| 0 <= k < pushed[r].deps@.len() implies has_job(
                        pushed,
                        #[trigger] pushed[r].deps@[k],
                    ) && pushed[r].deps@[k] < pushed[r].id by {
                        lemma_status_after_push(before, job, before[r].deps@[k]);
                    }
                    if pushed[r].status == JobStatus::Started {
                        assert forall|k: int| 0 <= k < pushed[r].deps@.len() implies status_of(
                            pushed,
                            #[trigger] pushed[r].deps@[k],
                        ) == Some(JobStatus::Success) by {
                            lemma_status_after_push(before, job, before[r].deps@[k]);
                        }
                    }
                } else {
                    assert(pushed[r] == job);
                    assert forall|k: int| 0 <= k < job.deps@.len() implies has_job(
                        pushed,
                        #[trigger] job.deps@[k],
                    ) && job.deps@[k] < job.id by {
                        lemma_status_after_push(before, job, job.deps@[k]);
                        let j = index_of(before, job.deps@[k]);
                        assert(is_job(before, j, job.deps@[k]));
                    }
                }
            }
            lemma_propagation_keeps_wf(pushed, after, now);
        },
        Transition::Claim { id, lease, now } => {
            let i = index_of(before, id);
            assert(is_job(before, i, id));
            assert(row_wf(before, i));
            lemma_update_keeps_wf(before, i, before[i].claimed(lease, now));
        },
        Transition::Finish { id, outcome, now, backoff_base } => {
            let i = index_of(before, id);
            assert(is_job(before, i, id));
            assert(row_wf(before, i));
            let mid = before.update(i, before[i].after_attempt(outcome, now, backoff_base));
            lemma_update_keeps_wf(before, i, before[i].after_attempt(outcome, now, backoff_base));
            lemma_propagation_keeps_wf(mid, after, now);
        },
        Transition::Release { id } => {
            let i = index_of(before, id);
            assert(is_job(before, i, id));
            assert(row_wf(before, i));
            lemma_update_keeps_wf(before, i, before[i].released());
        },
        Transition::Cleanup { lease } => {
            assert forall|i: int| 0 <= i < before.len() implies (#[trigger] before[i]).id
                == after[i].id by {
                assert(after[i] == recovered(before[i], lease));
            }
            lemma_same_ids(before, after, 0);
            assert forall|r: int| 0 <= r < after.len() implies #[trigger] row_wf(after, r) by {
                assert(row_wf(before, r));
                assert(after[r] == recovered(before[r], lease));
                assert forall|k: int| 0 <= k < after[r].deps@.len() implies has_job(
                    after,
                    #[trigger] after[r].deps@[k],
                ) && after[r].deps@[k] < after[r].id by {
                    assert(has_job(before, before[r].deps@[k]));
                    lemma_same_ids(before, after, before[r].deps@[k]);
                }
            }
        },
        Transition::Propagate { now } => {
            lemma_propagation_keeps_wf(before, after, now);
        },
    }
}

/// In a well-formed table every dependency of a `Started` job has reached
/// `Success`.
pub proof fn lemma_started_has_dependencies_met(jobs: Seq<Job>, i: int, k: int)
    requires
        table_wf(jobs),
        0 <= i < jobs.len(),
        jobs[i].status == JobStatus::Started,
        0 <= k < jobs[i].deps@.len(),
    ensures
        status_of(jobs, jobs[i].deps@[k]) == Some(JobStatus::Success),
{
    assert(row_wf(jobs, i));
}

/// A job becomes `Started` only by a claim, and only in a table in which
/// every one of its dependencies has reached `Success` already.
pub proof fn lemma_start_waits_for_dependencies(
    before: Seq<Job>,
    t: Transition,
    after: Seq<Job>,
    i: int,
)
    requires
        table_wf(before),
        transition(before, t, after),
        0 <= i < after.len(),
        after[i].status == JobStatus::Started,
        i >= before.len() || before[i].status != JobStatus::Started,
    ensures
        i < before.len(),
        t is Claim,
        after[i].id == before[i].id,
        t->Claim_id == before[i].id,
        deps_met(before, before[i].deps@),
        after[i].deps == before[i].deps,
{
    match t {
        Transition::Submit { id, kind, deps, max_retries, now } => {
            let pushed = before.push(Job::fresh(id, kind, deps, max_retries, now));
            lemma_propagation_rows(pushed, after, now, i);
        },
        Transition::Claim { id, lease, now } => {
            let c = index_of(before, id);
            assert(is_job(before, c, id));
        },
        Transition::Finish { id, outcome, now, backoff_base } => {
            let c = index_of(before, id);
            assert(is_job(before, c, id));
            let mid = before.update(c, before[c].after_attempt(outcome, now, backoff_base));
            lemma_propagation_rows(mid, after, now, i);
        },
        Transition::Release { id } => {
            let c = index_of(before, id);
            assert(is_job(before, c, id));
        },
        Transition::Cleanup { lease } => {
            assert(after[i] == recovered(before[i], lease));
        },
        Transition::Propagate { now } => {
            lemma_propagation_rows(before, after, now, i);
        },
    }
}

/// A claim is exclusive: once a job has been claimed, no second claim of
/// it goes through at any time, and the next job to be claimed is another.
pub proof fn lemma_claim_is_exclusive(
    before: Seq<Job>,
    id: u64,
    lease: u64,
    now: u64,
    after: Seq<Job>,
    later: u64,
)
    requires
        table_wf(before),
        transition(before, Transition::Claim { id, lease, now }, after),
    ensures
        has_job(after, id),
        !claimable(after, index_of(after, id), later),
        forall|j: int| first_claimable(after, j, later) ==> after[j].id != id,
        forall|other: u64, next: Seq<Job>|
            !transition(after, Transition::Claim { id, lease: other, now: later }, next),
{
    let i = index_of(before, id);
    assert(is_job(before, i, id));
    lemma_status_after_update(before, i, before[i].claimed(lease, now), id);
    assert(is_job(after, i, id));
    lemma_index_of(after, i);
    assert forall|j: int| first_claimable(after, j, later) implies after[j].id != id by {
        if after[j].id == id {
            lemma_index_of(after, j);
        }
    }
}

/// Startup recovery for a lease resets exactly the jobs that were
/// `Started` under it: they are `New` again with their retry counts
/// untouched, every other job is as it was, and no job is left `Started`
/// under the lease.
pub proof fn lemma_cleanup_resets_started(before: Seq<Job>, lease: u64, after: Seq<Job>, i: int)
    requires
        table_wf(before),
        transition(before, Transition::Cleanup { lease }, after),
        0 <= i < before.len(),
    ensures
        !leased(after[i], lease),
        leased(before[i], lease) ==> after[i].status == JobStatus::New && after[i].retries
            == before[i].retries && after[i].lease.is_none() && after[i].results.is_none(),
        !leased(before[i], lease) ==> after[i] == before[i],
{
    assert(row_wf(before, i));
    assert(after[i] == recovered(before[i], lease));
}

/// A job that has reached a terminal status is never changed again, by
/// any transaction.
pub proof fn lemma_terminal_is_final(before: Seq<Job>, t: Transition, after: Seq<Job>, i: int)
    requires
        table_wf(before),
        transition(before, t, after),
        0 <= i < before.len(),
        before[i].status.terminal_spec(),
    ensures
        i < after.len(),
        after[i] == before[i],
{
    match t {
        Transition::Submit { id, kind, deps, max_retries, now } => {
            let pushed = before.push(Job::fresh(id, kind, deps, max_retries, now));
            lemma_propagation_rows(pushed, after, now, i);
        },
        Transition::Claim { id, lease, now } => {
            let c = index_of(before, id);
            assert(is_job(before, c, id));
        },
        Transition::Finish { id, outcome, now, backoff_base } => {
            let c = index_of(before, id);
            assert(is_job(before, c, id));
            let mid = before.update(c, before[c].after_attempt(outcome, now, backoff_base));
            lemma_propagation_rows(mid, after, now, i);
        },
        Transition::Release { id } => {
            let c = index_of(before, id);
            assert(is_job(before, c, id));
        },
        Transition::Cleanup { lease } => {
            assert(after[i] == recovered(before[i], lease));
        },
        Transition::Propagate { now } => {
            lemma_propagation_rows(before, after, now, i);
        },
    }
}

/// A job whose retry count exceeds its bound has ended, and no transaction
/// brings it back to `New`.
pub proof fn lemma_exhausted_never_retried(
    before: Seq<Job>,
    t: Transition,
    after: Seq<Job>,
    i: int,
)
    requires
        table_wf(before),
        transition(before, t, after),
        0 <= i < before.len(),
        before[i].retries > before[i].max_retries,
    ensures
        before[i].status.terminal_spec(),
        i < after.len(),
        after[i] == before[i],
{
    assert(row_wf(before, i));
    lemma_terminal_is_final(before, t, after, i);
}

/// What a transient failure does to a `Started` job: below the bound the
/// job goes back to `New` with one more retry counted and a backoff; at the
/// bound it ends in `Failure`, and its count exceeds the bound wherever the
/// counter has room.
pub proof fn lemma_transient_failure(job: Job, detail: String, now: u64, backoff_base: u64)
    requires
        job.wf(),
        job.status == JobStatus::Started,
    ensures
        ({
            let after = job.after_attempt(
                JobOutcome::Failed { class: ErrorClass::Transient, detail },
                now,
                backoff_base,
            );
            &&& after.wf()
            &&& job.retries < job.max_retries ==> {
                &&& after.status == JobStatus::New
                &&& after.retries == job.retries + 1
                &&& after.not_before == eligible_at(now, backoff_base, job.retries)
                &&& after.not_before >= now
                &&& after.results.is_none()
            }
            &&& job.retries >= job.max_retries ==> {
                &&& after.status == JobStatus::Failure
                &&& after.results == Some(detail)
                &&& job.max_retries < u32::MAX ==> after.retries > after.max_retries
            }
        }),
{
}

/// The number of attempts that a job may still take before it has ended.
pub open spec fn attempts_left(job: Job) -> int {
    if job.status.terminal_spec() {
        0
    } else {
        job.max_retries - job.retries + 1
    }
}

/// Every attempt that ends, but for one cut short by an internal failure,
/// uses up one of the attempts that the job has left: after at most its
/// retry bound and one more it has reached a terminal status.
pub proof fn lemma_attempts_run_out(job: Job, outcome: JobOutcome, now: u64, backoff_base: u64)
    requires
        job.wf(),
        job.status == JobStatus::Started,
        !(outcome matches JobOutcome::Failed { class, .. } && class == ErrorClass::Internal),
    ensures
        job.after_attempt(outcome, now, backoff_base).wf(),
        attempts_left(job) >= 1,
        attempts_left(job.after_attempt(outcome, now, backoff_base)) < attempts_left(job),
        job.after_attempt(outcome, now, backoff_base).status != JobStatus::Started,
{
}

} // verus!
