//! What a job table is: the predicates that the contracts of the store are
//! stated in, and the lemmas on them that its proofs rest on.

use crate::job::{Job, JobStatus};
use vstd::prelude::*;

verus! {

/// Whether row `j` of the table holds the job `id`.
pub open spec fn is_job(jobs: Seq<Job>, j: int, id: u64) -> bool {
    0 <= j < jobs.len() && jobs[j].id == id
}

/// Whether the table holds a job `id`.
pub open spec fn has_job(jobs: Seq<Job>, id: u64) -> bool {
    exists|j: int| is_job(jobs, j, id)
}

/// The row of the job `id`, where the table holds it.
pub open spec fn index_of(jobs: Seq<Job>, id: u64) -> int {
    choose|j: int| is_job(jobs, j, id)
}

/// The status of the job `id`, if the table holds it.
pub open spec fn status_of(jobs: Seq<Job>, id: u64) -> Option<JobStatus> {
    if has_job(jobs, id) {
        Some(jobs[index_of(jobs, id)].status)
    } else {
        None
    }
}

/// The rows stand in the order of their identifiers, none of which occurs
/// twice.
pub open spec fn ids_ascending(jobs: Seq<Job>) -> bool {
    forall|a: int, b: int| 0 <= a < b < jobs.len() ==> jobs[a].id < jobs[b].id
}

/// Every job among `deps` has reached `Success`.
pub open spec fn deps_met(jobs: Seq<Job>, deps: Seq<u64>) -> bool {
    forall|k: int|
        0 <= k < deps.len() ==> status_of(jobs, #[trigger] deps[k]) == Some(JobStatus::Success)
}

/// The job `id` has ended in `Failure` or `Broken`.
pub open spec fn dep_failed(jobs: Seq<Job>, id: u64) -> bool {
    match status_of(jobs, id) {
        Some(s) => s.failed_spec(),
        None => false,
    }
}

/// Some job among `deps` has ended in `Failure` or `Broken`.
pub open spec fn deps_failed(jobs: Seq<Job>, deps: Seq<u64>) -> bool {
    exists|k: int| 0 <= k < deps.len() && dep_failed(jobs, #[trigger] deps[k])
}

/// Every dependency of row `i` is a job of the table with a smaller
/// identifier, so no chain of dependencies comes back to its start.
pub open spec fn deps_earlier(jobs: Seq<Job>, i: int) -> bool {
    forall|k: int|
        0 <= k < jobs[i].deps@.len() ==> has_job(jobs, #[trigger] jobs[i].deps@[k])
            && jobs[i].deps@[k] < jobs[i].id
}

/// What must hold of row `i`: the record is well formed, its dependencies
/// are earlier jobs, and if it is `Started` they have all reached `Success`.
pub open spec fn row_wf(jobs: Seq<Job>, i: int) -> bool {
    &&& jobs[i].wf()
    &&& deps_earlier(jobs, i)
    &&& jobs[i].status == JobStatus::Started ==> deps_met(jobs, jobs[i].deps@)
}

/// What must hold of the job table.
pub open spec fn table_wf(jobs: Seq<Job>) -> bool {
    &&& ids_ascending(jobs)
    &&& forall|i: int| 0 <= i < jobs.len() ==> #[trigger] row_wf(jobs, i)
}

/// The job is `Started` under `lease`.
pub open spec fn leased(job: Job, lease: u64) -> bool {
    job.status == JobStatus::Started && job.lease == Some(lease)
}

/// What startup recovery for `lease` makes of a job: a job that is
/// `Started` under `lease` is given back, and every other job is left as it
/// is.
pub open spec fn recovered(job: Job, lease: u64) -> Job {
    if leased(job, lease) {
        job.released()
    } else {
        job
    }
}

/// Every identifier in the table is below `bound`.
pub open spec fn ids_below(jobs: Seq<Job>, bound: u64) -> bool {
    forall|i: int| 0 <= i < jobs.len() ==> (#[trigger] jobs[i]).id < bound
}

/// Row `i` may be claimed at `now`: it is `New`, its parameters could be
/// read, its backoff has passed and its dependencies have all reached
/// `Success`.
pub open spec fn claimable(jobs: Seq<Job>, i: int, now: u64) -> bool {
    &&& jobs[i].status == JobStatus::New
    &&& jobs[i].kind.readable_spec()
    &&& jobs[i].not_before <= now
    &&& deps_met(jobs, jobs[i].deps@)
}

/// Row `i` is the claimable row with the lowest identifier.
pub open spec fn first_claimable(jobs: Seq<Job>, i: int, now: u64) -> bool {
    &&& 0 <= i < jobs.len()
    &&& claimable(jobs, i, now)
    &&& forall|j: int| 0 <= j < i ==> !#[trigger] claimable(jobs, j, now)
}

/// No row may be claimed at `now`.
pub open spec fn none_claimable(jobs: Seq<Job>, now: u64) -> bool {
    forall|j: int| 0 <= j < jobs.len() ==> !#[trigger] claimable(jobs, j, now)
}

/// The detail recorded for a job that failed because a dependency did.
pub open spec fn dependency_failed_detail() -> Seq<char> {
    "dependency failed"@
}

/// `after` is `before` failed by a dependency at `now`: it ends in
/// `Failure` without ever having been claimed.
pub open spec fn failed_by_dependency(before: Job, after: Job, now: u64) -> bool {
    &&& after.results.is_some()
    &&& after.results.unwrap()@ == dependency_failed_detail()
    &&& after == before.finished(JobStatus::Failure, after.results.unwrap(), now)
}

/// The detail recorded for a job whose parameters could not be read.
pub open spec fn invalid_parameters_detail() -> Seq<char> {
    "invalid job parameters"@
}

/// `after` is `before` found broken at `now`: its parameters could not be
/// read, and it ends in `Broken` without ever having been claimed.
pub open spec fn broken_by_parameters(before: Job, after: Job, now: u64) -> bool {
    &&& after.results.is_some()
    &&& after.results.unwrap()@ == invalid_parameters_detail()
    &&& after == before.finished(JobStatus::Broken, after.results.unwrap(), now)
}

/// Row `i` of `after` is what failure propagation makes of row `i` of
/// `before`: a `New` job whose parameters could not be read is broken, a
/// `New` job with a dependency that has ended in `Failure` or `Broken` is
/// failed, and every other row is left as it was.
pub open spec fn propagated_row(before: Seq<Job>, after: Seq<Job>, i: int, now: u64) -> bool {
    if before[i].status == JobStatus::New && !before[i].kind.readable_spec() {
        broken_by_parameters(before[i], after[i], now)
    } else if before[i].status == JobStatus::New && deps_failed(after, before[i].deps@) {
        failed_by_dependency(before[i], after[i], now)
    } else {
        after[i] == before[i]
    }
}

/// `after` is `before` with failures propagated along the dependencies,
/// however long the chain: no `New` job is left whose parameters could not
/// be read or whose dependency has failed, and no other job has changed.
pub open spec fn is_propagation(before: Seq<Job>, after: Seq<Job>, now: u64) -> bool {
    &&& after.len() == before.len()
    &&& forall|i: int| 0 <= i < before.len() ==> #[trigger] propagated_row(before, after, i, now)
}

/// The identifiers of the rows that `pick` holds of, in the order of the
/// table.
pub open spec fn selected_ids(jobs: Seq<Job>, pick: spec_fn(Job) -> bool) -> Seq<u64>
    decreases jobs.len(),
{
    if jobs.len() == 0 {
        Seq::<u64>::empty()
    } else if pick(jobs.last()) {
        selected_ids(jobs.drop_last(), pick).push(jobs.last().id)
    } else {
        selected_ids(jobs.drop_last(), pick)
    }
}

/// Every job among `deps` is in the table.
pub open spec fn all_known(jobs: Seq<Job>, deps: Seq<u64>) -> bool {
    forall|k: int| 0 <= k < deps.len() ==> has_job(jobs, #[trigger] deps[k])
}

/// The identifier that follows the last one of the table; identifiers
/// start at 1.
pub open spec fn next_after(jobs: Seq<Job>) -> int {
    if jobs.len() == 0 {
        1
    } else {
        jobs.last().id + 1
    }
}

/// In a table of distinct identifiers a job stands in one row only.
pub proof fn lemma_index_of(jobs: Seq<Job>, j: int)
    requires
        ids_ascending(jobs),
        0 <= j < jobs.len(),
    ensures
        has_job(jobs, jobs[j].id),
        index_of(jobs, jobs[j].id) == j,
        status_of(jobs, jobs[j].id) == Some(jobs[j].status),
{
    assert(is_job(jobs, j, jobs[j].id));
    let c = index_of(jobs, jobs[j].id);
    assert(is_job(jobs, c, jobs[j].id));
    if c < j {
        assert(jobs[c].id < jobs[j].id);
    } else if j < c {
        assert(jobs[j].id < jobs[c].id);
    }
}

/// Replacing a row by a record of the same identifier changes the status
/// of that job and of no other.
pub proof fn lemma_status_after_update(jobs: Seq<Job>, i: int, job: Job, d: u64)
    requires
        ids_ascending(jobs),
        0 <= i < jobs.len(),
        job.id == jobs[i].id,
    ensures
        ids_ascending(jobs.update(i, job)),
        has_job(jobs.update(i, job), d) == has_job(jobs, d),
        status_of(jobs.update(i, job), d) == if d == job.id {
            Some(job.status)
        } else {
            status_of(jobs, d)
        },
{
    let after = jobs.update(i, job);
    assert forall|a: int, b: int| 0 <= a < b < after.len() implies after[a].id < after[b].id by {
        assert(after[a].id == jobs[a].id);
        assert(after[b].id == jobs[b].id);
    }
    assert(is_job(jobs, i, job.id));
    if has_job(jobs, d) {
        let j = index_of(jobs, d);
        assert(is_job(jobs, j, d));
        assert(after[j].id == jobs[j].id);
        assert(is_job(after, j, d));
        lemma_index_of(after, j);
        lemma_index_of(jobs, j);
        lemma_index_of(jobs, i);
        if j != i {
            assert(after[j] == jobs[j]);
        }
    } else {
        if has_job(after, d) {
            let j = index_of(after, d);
            assert(is_job(after, j, d));
            assert(after[j].id == jobs[j].id);
            assert(is_job(jobs, j, d));
        }
    }
}

/// Replacing a row that is not `Success` leaves every dependency set that
/// was met still met.
pub proof fn lemma_deps_met_after_update(jobs: Seq<Job>, i: int, job: Job, deps: Seq<u64>)
    requires
        ids_ascending(jobs),
        0 <= i < jobs.len(),
        job.id == jobs[i].id,
        jobs[i].status != JobStatus::Success || job.status == JobStatus::Success,
        deps_met(jobs, deps),
    ensures
        deps_met(jobs.update(i, job), deps),
{
    let after = jobs.update(i, job);
    assert forall|k: int| 0 <= k < deps.len() implies status_of(after, #[trigger] deps[k]) == Some(
        JobStatus::Success,
    ) by {
        lemma_status_after_update(jobs, i, job, deps[k]);
        lemma_index_of(jobs, i);
    }
}

/// A table stays well formed when one row is replaced by a well-formed
/// record of the same identifier and dependencies, as long as a row that is
/// `Success` stays so and a row that becomes `Started` has its
/// dependencies met.
pub proof fn lemma_update_keeps_wf(jobs: Seq<Job>, i: int, job: Job)
    requires
        table_wf(jobs),
        0 <= i < jobs.len(),
        job.id == jobs[i].id,
        job.deps@ == jobs[i].deps@,
        job.wf(),
        jobs[i].status != JobStatus::Success || job.status == JobStatus::Success,
        job.status == JobStatus::Started ==> deps_met(jobs, job.deps@),
    ensures
        table_wf(jobs.update(i, job)),
{
    let after = jobs.update(i, job);
    lemma_status_after_update(jobs, i, job, 0);
    assert forall|r: int| 0 <= r < after.len() implies #[trigger] row_wf(after, r) by {
        assert(row_wf(jobs, r));
        assert(after[r].deps@ == jobs[r].deps@);
        assert(after[r].id == jobs[r].id);
        assert(deps_earlier(after, r)) by {
            assert forall|k: int| 0 <= k < after[r].deps@.len() implies has_job(
                after,
                #[trigger] after[r].deps@[k],
            ) && after[r].deps@[k] < after[r].id by {
                assert(has_job(jobs, jobs[r].deps@[k]));
                lemma_status_after_update(jobs, i, job, jobs[r].deps@[k]);
            }
        }
        if after[r].status == JobStatus::Started {
            if r == i {
                lemma_deps_met_after_update(jobs, i, job, job.deps@);
            } else {
                lemma_deps_met_after_update(jobs, i, job, jobs[r].deps@);
            }
        }
    }
}

/// Replacing a row does not touch the dependencies of the rows up to it:
/// they are earlier jobs.
pub proof fn lemma_deps_failed_after_update(jobs: Seq<Job>, i: int, job: Job, r: int)
    requires
        ids_ascending(jobs),
        0 <= r <= i < jobs.len(),
        deps_earlier(jobs, r),
        job.id == jobs[i].id,
    ensures
        deps_failed(jobs.update(i, job), jobs[r].deps@) == deps_failed(jobs, jobs[r].deps@),
{
    let after = jobs.update(i, job);
    let deps = jobs[r].deps@;
    assert forall|k: int| 0 <= k < deps.len() implies dep_failed(after, #[trigger] deps[k])
        == dep_failed(jobs, deps[k]) by {
        lemma_status_after_update(jobs, i, job, deps[k]);
        assert(deps[k] < jobs[r].id);
        if r < i {
            assert(jobs[r].id < jobs[i].id);
        }
    }
    if deps_failed(jobs, deps) {
        let k = choose|k: int| 0 <= k < deps.len() && dep_failed(jobs, #[trigger] deps[k]);
        assert(dep_failed(after, deps[k]));
    }
    if deps_failed(after, deps) {
        let k = choose|k: int| 0 <= k < deps.len() && dep_failed(after, #[trigger] deps[k]);
        assert(dep_failed(jobs, deps[k]));
    }
}

/// Appending a row with a new identifier changes the status of no job
/// that the table held before.
pub proof fn lemma_status_after_push(jobs: Seq<Job>, job: Job, d: u64)
    requires
        ids_ascending(jobs),
        forall|i: int| 0 <= i < jobs.len() ==> (#[trigger] jobs[i]).id < job.id,
    ensures
        ids_ascending(jobs.push(job)),
        has_job(jobs.push(job), d) == (has_job(jobs, d) || d == job.id),
        d != job.id ==> status_of(jobs.push(job), d) == status_of(jobs, d),
        status_of(jobs.push(job), job.id) == Some(job.status),
{
    let after = jobs.push(job);
    assert(is_job(after, jobs.len() as int, job.id));
    lemma_index_of(after, jobs.len() as int);
    if has_job(jobs, d) {
        let j = index_of(jobs, d);
        assert(is_job(jobs, j, d));
        assert(is_job(after, j, d));
        lemma_index_of(after, j);
        lemma_index_of(jobs, j);
    } else if has_job(after, d) {
        let j = index_of(after, d);
        assert(is_job(after, j, d));
        if j < jobs.len() {
            assert(is_job(jobs, j, d));
        }
    }
}

/// Two tables with the same identifiers row by row hold the same jobs in
/// the same rows.
pub proof fn lemma_same_ids(a: Seq<Job>, b: Seq<Job>, d: u64)
    requires
        ids_ascending(a),
        a.len() == b.len(),
        forall|i: int| 0 <= i < a.len() ==> (#[trigger] a[i]).id == b[i].id,
    ensures
        ids_ascending(b),
        has_job(b, d) == has_job(a, d),
        has_job(a, d) ==> index_of(b, d) == index_of(a, d),
{
    assert forall|x: int, y: int| 0 <= x < y < b.len() implies b[x].id < b[y].id by {
        assert(a[x].id == b[x].id);
        assert(a[y].id == b[y].id);
    }
    if has_job(a, d) {
        let j = index_of(a, d);
        assert(is_job(a, j, d));
        assert(a[j].id == b[j].id);
        assert(is_job(b, j, d));
        lemma_index_of(b, j);
    } else if has_job(b, d) {
        let j = index_of(b, d);
        assert(is_job(b, j, d));
        assert(a[j].id == b[j].id);
        assert(is_job(a, j, d));
    }
}

/// Failure propagation leaves every row that is not `New` as it was, and
/// keeps the identifier and the dependencies of every row.
pub proof fn lemma_propagation_rows(before: Seq<Job>, after: Seq<Job>, now: u64, i: int)
    requires
        is_propagation(before, after, now),
        0 <= i < before.len(),
    ensures
        after[i].id == before[i].id,
        after[i].deps == before[i].deps,
        after[i].retries == before[i].retries,
        after[i].max_retries == before[i].max_retries,
        before[i].status != JobStatus::New ==> after[i] == before[i],
        after[i] == before[i] || (before[i].status == JobStatus::New
            && after[i].status.failed_spec()),
{
    assert(propagated_row(before, after, i, now));
}

/// The row of a job whose attempt has ended is not touched by the failure
/// propagation that follows: the dependencies of a job that was `Started`
/// have all reached `Success`.
pub proof fn lemma_attempt_row_settled(
    before: Seq<Job>,
    c: int,
    target: Job,
    after: Seq<Job>,
    now: u64,
)
    requires
        table_wf(before),
        0 <= c < before.len(),
        before[c].status == JobStatus::Started,
        target.id == before[c].id,
        target.deps == before[c].deps,
        target.kind == before[c].kind,
        is_propagation(before.update(c, target), after, now),
    ensures
        after[c] == target,
{
    let mid = before.update(c, target);
    assert(propagated_row(mid, after, c, now));
    assert(row_wf(before, c));
    lemma_status_after_update(before, c, target, 0);
    if deps_failed(after, target.deps@) {
        let k = choose|k: int|
            0 <= k < target.deps@.len() && dep_failed(after, #[trigger] target.deps@[k]);
        let d = target.deps@[k];
        assert(status_of(before, d) == Some(JobStatus::Success));
        let j = index_of(before, d);
        assert(is_job(before, j, d));
        assert(d < before[c].id);
        assert(j != c);
        assert(mid[j] == before[j]);
        lemma_propagation_rows(mid, after, now, j);
        assert forall|i: int| 0 <= i < mid.len() implies (#[trigger] mid[i]).id == after[i].id by {
            lemma_propagation_rows(mid, after, now, i);
        }
        lemma_same_ids(mid, after, d);
        assert(is_job(mid, j, d));
        lemma_index_of(mid, j);
        assert(is_job(after, j, d));
        lemma_index_of(after, j);
    }
}

/// Failure propagation keeps a well-formed table well formed.
pub proof fn lemma_propagation_keeps_wf(before: Seq<Job>, after: Seq<Job>, now: u64)
    requires
        table_wf(before),
        is_propagation(before, after, now),
    ensures
        table_wf(after),
{
    assert forall|i: int| 0 <= i < before.len() implies (#[trigger] before[i]).id
        == after[i].id by {
        lemma_propagation_rows(before, after, now, i);
    }
    lemma_same_ids(before, after, 0);
    assert forall|r: int| 0 <= r < after.len() implies #[trigger] row_wf(after, r) by {
        assert(row_wf(before, r));
        assert(propagated_row(before, after, r, now));
        lemma_propagation_rows(before, after, now, r);
        assert forall|k: int| 0 <= k < after[r].deps@.len() implies has_job(
            after,
            #[trigger] after[r].deps@[k],
        ) && after[r].deps@[k] < after[r].id by {
            assert(has_job(before, before[r].deps@[k]));
            lemma_same_ids(before, after, before[r].deps@[k]);
        }
        if after[r].status == JobStatus::Started {
            assert forall|k: int| 0 <= k < after[r].deps@.len() implies status_of(
                after,
                #[trigger] after[r].deps@[k],
            ) == Some(JobStatus::Success) by {
                let d = before[r].deps@[k];
                assert(status_of(before, d) == Some(JobStatus::Success));
                lemma_same_ids(before, after, d);
                lemma_propagation_rows(before, after, now, index_of(before, d));
            }
        }
    }
}

} // verus!
