//! The job table: what the persistent store holds, and the transitions that
//! the executor makes on it. Each operation here is one transaction.

pub mod laws;
pub mod table;

use crate::errors::ErrorClass;
use crate::job::{distinct, next_eligible, Job, JobKind, JobOutcome, JobStatus};
use crate::store::laws::{transition, Transition};
use crate::store::table::{
    all_known, broken_by_parameters, claimable, dep_failed, deps_earlier, deps_failed, deps_met,
    failed_by_dependency, first_claimable, has_job, ids_ascending, ids_below, index_of, is_job,
    is_propagation, leased, lemma_attempt_row_settled, lemma_deps_failed_after_update,
    lemma_index_of, lemma_status_after_push, lemma_update_keeps_wf, next_after, none_claimable,
    propagated_row, recovered, row_wf, selected_ids, status_of, table_wf,
};
use vstd::prelude::*;

verus! {

/// What an operation on the job table can refuse.
#[derive(Clone, Copy, Debug, PartialEq, Eq, Structural)]
pub enum StoreError {
    /// No identifier is left for a new job.
    IdsExhausted,
    /// A dependency names a job that the table does not hold.
    UnknownDependency,
    /// A job is named twice among the dependencies.
    DuplicateDependency,
    /// The table holds no job of that identifier.
    UnknownJob,
    /// The job is not `Started`, so no attempt at it can end.
    NotStarted,
    /// The rows offered do not make a well-formed table.
    Malformed,
}

/// Why a submission with these dependencies is refused, if it is.
pub open spec fn submit_refusal(jobs: Seq<Job>, next_id: u64, deps: Seq<u64>) -> Option<
    StoreError,
> {
    if next_id == u64::MAX {
        Some(StoreError::IdsExhausted)
    } else if !all_known(jobs, deps) {
        Some(StoreError::UnknownDependency)
    } else if !deps.no_duplicates() {
        Some(StoreError::DuplicateDependency)
    } else {
        None
    }
}

/// The first row of `jobs` that holds the job `id`.
fn locate(jobs: &Vec<Job>, id: u64) -> (r: Option<usize>)
    ensures
        match r {
            Some(i) => is_job(jobs@, i as int, id) && (ids_ascending(jobs@) ==> index_of(jobs@, id)
                == i),
            None => !has_job(jobs@, id),
        },
{
    let mut i: usize = 0;
    while i < jobs.len()
        invariant
            i <= jobs.len(),
            forall|j: int| 0 <= j < i ==> !is_job(jobs@, j, id),
        decreases jobs.len() - i,
    {
        if jobs[i].id == id {
            proof {
                if ids_ascending(jobs@) {
                    lemma_index_of(jobs@, i as int);
                }
            }
            return Some(i);
        }
        i += 1;
    }
    None
}

/// The status of the job `id` in `jobs`.
fn status_in(jobs: &Vec<Job>, id: u64) -> (r: Option<JobStatus>)
    requires
        ids_ascending(jobs@),
    ensures
        r == status_of(jobs@, id),
{
    match locate(jobs, id) {
        Some(i) => Some(jobs[i].status),
        None => None,
    }
}

/// Whether every dependency of row `i` has reached `Success`.
fn deps_all_success(jobs: &Vec<Job>, i: usize) -> (r: bool)
    requires
        ids_ascending(jobs@),
        i < jobs@.len(),
    ensures
        r == deps_met(jobs@, jobs@[i as int].deps@),
{
    let mut k: usize = 0;
    while k < jobs[i].deps.len()
        invariant
            ids_ascending(jobs@),
            i < jobs@.len(),
            k <= jobs@[i as int].deps@.len(),
            forall|m: int|
                0 <= m < k ==> status_of(jobs@, #[trigger] jobs@[i as int].deps@[m]) == Some(
                    JobStatus::Success,
                ),
        decreases jobs@[i as int].deps@.len() - k,
    {
        let dep = jobs[i].deps[k];
        match status_in(jobs, dep) {
            Some(JobStatus::Success) => {},
            _ => {
                return false;
            },
        }
        k += 1;
    }
    true
}

/// Whether some dependency of row `i` has ended in `Failure` or `Broken`.
fn deps_any_failed(jobs: &Vec<Job>, i: usize) -> (r: bool)
    requires
        ids_ascending(jobs@),
        i < jobs@.len(),
    ensures
        r == deps_failed(jobs@, jobs@[i as int].deps@),
{
    let mut k: usize = 0;
    while k < jobs[i].deps.len()
        invariant
            ids_ascending(jobs@),
            i < jobs@.len(),
            k <= jobs@[i as int].deps@.len(),
            forall|m: int| 0 <= m < k ==> !dep_failed(jobs@, #[trigger] jobs@[i as int].deps@[m]),
        decreases jobs@[i as int].deps@.len() - k,
    {
        let dep = jobs[i].deps[k];
        match status_in(jobs, dep) {
            Some(s) => {
                if s.is_failed() {
                    return true;
                }
            },
            None => {},
        }
        k += 1;
    }
    false
}

/// Whether every dependency of row `i` is a job of the table with a
/// smaller identifier.
fn deps_are_earlier(jobs: &Vec<Job>, i: usize) -> (r: bool)
    requires
        i < jobs@.len(),
    ensures
        r == deps_earlier(jobs@, i as int),
{
    let mut k: usize = 0;
    while k < jobs[i].deps.len()
        invariant
            i < jobs@.len(),
            k <= jobs@[i as int].deps@.len(),
            forall|m: int|
                0 <= m < k ==> has_job(jobs@, #[trigger] jobs@[i as int].deps@[m])
                    && jobs@[i as int].deps@[m] < jobs@[i as int].id,
        decreases jobs@[i as int].deps@.len() - k,
    {
        let dep = jobs[i].deps[k];
        if dep >= jobs[i].id || locate(jobs, dep).is_none() {
            return false;
        }
        k += 1;
    }
    true
}

/// Whether the job is `Started` under `lease`.
pub fn held_by_lease(job: &Job, lease: u64) -> (r: bool)
    ensures
        r == leased(*job, lease),
{
    let started = match job.status {
        JobStatus::Started => true,
        _ => false,
    };
    let owned = match job.lease {
        Some(owner) => owner == lease,
        None => false,
    };
    started && owned
}

/// Whether the rows stand in the strict order of their identifiers.
fn ascending(jobs: &Vec<Job>) -> (r: bool)
    ensures
        r == ids_ascending(jobs@),
{
    let mut i: usize = 1;
    while i < jobs.len()
        invariant
            1 <= i,
            forall|a: int, b: int| 0 <= a < b < i && b < jobs@.len() ==> jobs@[a].id < jobs@[b].id,
        decreases jobs.len() - i,
    {
        if jobs[i - 1].id >= jobs[i].id {
            return false;
        }
        proof {
            assert forall|a: int, b: int| 0 <= a < b < i + 1 && b < jobs@.len() implies jobs@[a].id
                < jobs@[b].id by {
                if b == i && a < i - 1 {
                    assert(jobs@[a].id < jobs@[i - 1].id);
                }
            }
        }
        i += 1;
    }
    true
}

/// Whether `jobs` is a well-formed table.
pub fn is_table(jobs: &Vec<Job>) -> (r: bool)
    ensures
        r == table_wf(jobs@),
{
    if !ascending(jobs) {
        return false;
    }
    let mut i: usize = 0;
    while i < jobs.len()
        invariant
            ids_ascending(jobs@),
            i <= jobs@.len(),
            forall|r: int| 0 <= r < i ==> #[trigger] row_wf(jobs@, r),
        decreases jobs.len() - i,
    {
        if !jobs[i].is_well_formed() || !deps_are_earlier(jobs, i) {
            assert(!row_wf(jobs@, i as int));
            return false;
        }
        let started = match jobs[i].status {
            JobStatus::Started => true,
            _ => false,
        };
        if started && !deps_all_success(jobs, i) {
            assert(!row_wf(jobs@, i as int));
            return false;
        }
        i += 1;
    }
    true
}

/// The job table.
pub struct JobStore {
    jobs: Vec<Job>,
    next_id: u64,
}

impl View for JobStore {
    type V = Seq<Job>;

    closed spec fn view(&self) -> Seq<Job> {
        self.jobs@
    }
}

impl JobStore {
    /// The identifier that the next job will get.
    pub closed spec fn next_id_spec(&self) -> u64 {
        self.next_id
    }

    /// The table is well formed and every identifier in it has been given
    /// out already.
    pub open spec fn wf(&self) -> bool {
        &&& table_wf(self@)
        &&& ids_below(self@, self.next_id_spec())
    }

    /// An empty table. Identifiers start at 1.
    pub fn new() -> (r: Self)
        ensures
            r.wf(),
            r@ == Seq::<Job>::empty(),
            r.next_id_spec() == 1,
    {
        JobStore { jobs: Vec::new(), next_id: 1 }
    }

    /// The table that holds the rows `jobs`, as read from the persistent
    /// store. Rows that do not make a well-formed table, or that have used
    /// up the identifiers, are refused.
    pub fn from_jobs(jobs: Vec<Job>) -> (r: Result<Self, StoreError>)
        ensures
            match r {
                Ok(store) => {
                    &&& store.wf()
                    &&& store@ == jobs@
                    &&& table_wf(jobs@)
                    &&& ids_below(jobs@, u64::MAX)
                    &&& store.next_id_spec() == next_after(jobs@)
                },
                Err(e) => {
                    &&& e == StoreError::Malformed
                    &&& !(table_wf(jobs@) && ids_below(jobs@, u64::MAX))
                },
            },
    {
        if !is_table(&jobs) {
            return Err(StoreError::Malformed);
        }
        let n = jobs.len();
        if n == 0 {
            return Ok(JobStore { jobs, next_id: 1 });
        }
        let last = jobs[n - 1].id;
        if last == u64::MAX {
            return Err(StoreError::Malformed);
        }
        proof {
            assert forall|i: int| 0 <= i < jobs@.len() implies (#[trigger] jobs@[i]).id < last
                + 1 by {
                if i < n - 1 {
                    assert(jobs@[i].id < jobs@[n - 1].id);
                }
            }
        }
        Ok(JobStore { jobs, next_id: last + 1 })
    }

    /// The number of jobs.
    pub fn len(&self) -> (r: usize)
        ensures
            r == self@.len(),
    {
        self.jobs.len()
    }

    /// The identifier that the next job will get.
    pub fn next_id(&self) -> (r: u64)
        ensures
            r == self.next_id_spec(),
    {
        self.next_id
    }

    /// The row of the job `id`.
    pub fn find(&self, id: u64) -> (r: Option<usize>)
        requires
            self.wf(),
        ensures
            match r {
                Some(i) => is_job(self@, i as int, id) && index_of(self@, id) == i,
                None => !has_job(self@, id),
            },
    {
        locate(&self.jobs, id)
    }

    /// The row `i` of the table.
    pub fn row(&self, i: usize) -> (r: &Job)
        requires
            i < self@.len(),
        ensures
            *r == self@[i as int],
    {
        &self.jobs[i]
    }

    /// The record of the job `id`.
    pub fn get(&self, id: u64) -> (r: Option<&Job>)
        requires
            self.wf(),
        ensures
            match r {
                Some(job) => has_job(self@, id) && *job == self@[index_of(self@, id)],
                None => !has_job(self@, id),
            },
    {
        match self.find(id) {
            Some(i) => Some(&self.jobs[i]),
            None => None,
        }
    }

    /// The status of the job `id`.
    pub fn status(&self, id: u64) -> (r: Option<JobStatus>)
        requires
            self.wf(),
        ensures
            r == status_of(self@, id),
    {
        status_in(&self.jobs, id)
    }

    /// Whether row `i` may be claimed at `now`.
    pub fn is_claimable(&self, i: usize, now: u64) -> (r: bool)
        requires
            self.wf(),
            i < self@.len(),
        ensures
            r == claimable(self@, i as int, now),
    {
        match self.jobs[i].status {
            JobStatus::New => self.jobs[i].kind.is_readable() && self.jobs[i].not_before <= now
                && deps_all_success(&self.jobs, i),
            _ => false,
        }
    }

    /// Marks row `i` as claimed by `lease` at `now`.
    fn start_row(&mut self, i: usize, lease: u64, now: u64)
        requires
            old(self).wf(),
            i < old(self)@.len(),
            claimable(old(self)@, i as int, now),
        ensures
            final(self).wf(),
            final(self).next_id_spec() == old(self).next_id_spec(),
            final(self)@ == old(self)@.update(i as int, old(self)@[i as int].claimed(lease, now)),
    {
        let created = self.jobs[i].created;
        let started = if now >= created {
            now
        } else {
            created
        };
        proof {
            assert(row_wf(self@, i as int));
            lemma_update_keeps_wf(self@, i as int, self@[i as int].claimed(lease, now));
        }
        self.jobs[i].status = JobStatus::Started;
        self.jobs[i].lease = Some(lease);
        self.jobs[i].started = Some(started);
        assert(self@ =~= old(self)@.update(i as int, old(self)@[i as int].claimed(lease, now)));
    }

    /// The conditional update at the heart of a claim: the job `id` goes
    /// from `New` to `Started` under `lease` if it may be claimed at `now`,
    /// and nothing changes if it may not.
    pub fn claim_if_new(&mut self, id: u64, lease: u64, now: u64) -> (r: bool)
        requires
            old(self).wf(),
        ensures
            final(self).wf(),
            final(self).next_id_spec() == old(self).next_id_spec(),
            r == (has_job(old(self)@, id) && claimable(
                old(self)@,
                index_of(old(self)@, id),
                now,
            )),
            r ==> final(self)@ == old(self)@.update(
                index_of(old(self)@, id),
                old(self)@[index_of(old(self)@, id)].claimed(lease, now),
            ),
            r ==> transition(old(self)@, Transition::Claim { id, lease, now }, final(self)@),
            !r ==> final(self)@ == old(self)@,
    {
        match self.find(id) {
            Some(i) => {
                if self.is_claimable(i, now) {
                    self.start_row(i, lease, now);
                    true
                } else {
                    false
                }
            },
            None => false,
        }
    }

    /// Claims the claimable job with the lowest identifier for `lease` and
    /// returns its identifier. Where no job may be claimed at `now`, nothing
    /// changes.
    pub fn claim_next(&mut self, lease: u64, now: u64) -> (r: Option<u64>)
        requires
            old(self).wf(),
        ensures
            final(self).wf(),
            final(self).next_id_spec() == old(self).next_id_spec(),
            match r {
                Some(id) => {
                    &&& has_job(old(self)@, id)
                    &&& first_claimable(old(self)@, index_of(old(self)@, id), now)
                    &&& final(self)@ == old(self)@.update(
                        index_of(old(self)@, id),
                        old(self)@[index_of(old(self)@, id)].claimed(lease, now),
                    )
                    &&& transition(old(self)@, Transition::Claim { id, lease, now }, final(self)@)
                },
                None => none_claimable(old(self)@, now) && final(self)@ == old(self)@,
            },
    {
        let mut i: usize = 0;
        while i < self.jobs.len()
            invariant
                self.wf(),
                *self == *old(self),
                i <= self@.len(),
                forall|j: int| 0 <= j < i ==> !#[trigger] claimable(self@, j, now),
            decreases self@.len() - i,
        {
            if self.is_claimable(i, now) {
                let id = self.jobs[i].id;
                proof {
                    lemma_index_of(self@, i as int);
                }
                self.start_row(i, lease, now);
                return Some(id);
            }
            i += 1;
        }
        None
    }

    /// Ends row `i`, which is `New`, in `Broken` because its parameters
    /// could not be read.
    fn break_row(&mut self, i: usize, now: u64)
        requires
            old(self).wf(),
            i < old(self)@.len(),
            old(self)@[i as int].status == JobStatus::New,
        ensures
            final(self).wf(),
            final(self).next_id_spec() == old(self).next_id_spec(),
            final(self)@.len() == old(self)@.len(),
            broken_by_parameters(old(self)@[i as int], final(self)@[i as int], now),
            final(self)@ == old(self)@.update(i as int, final(self)@[i as int]),
    {
        let created = self.jobs[i].created;
        let ended = if now >= created {
            now
        } else {
            created
        };
        let detail = "invalid job parameters".to_string();
        proof {
            assert(row_wf(self@, i as int));
            lemma_update_keeps_wf(
                self@,
                i as int,
                self@[i as int].finished(JobStatus::Broken, detail, now),
            );
        }
        self.jobs[i].status = JobStatus::Broken;
        self.jobs[i].ended = Some(ended);
        self.jobs[i].results = Some(detail);
        assert(self@ =~= old(self)@.update(
            i as int,
            old(self)@[i as int].finished(JobStatus::Broken, detail, now),
        ));
    }

    /// Ends row `i`, which is `New`, in `Failure` because a dependency of
    /// it has failed.
    fn fail_row(&mut self, i: usize, now: u64)
        requires
            old(self).wf(),
            i < old(self)@.len(),
            old(self)@[i as int].status == JobStatus::New,
        ensures
            final(self).wf(),
            final(self).next_id_spec() == old(self).next_id_spec(),
            final(self)@.len() == old(self)@.len(),
            failed_by_dependency(old(self)@[i as int], final(self)@[i as int], now),
            final(self)@ == old(self)@.update(i as int, final(self)@[i as int]),
    {
        let created = self.jobs[i].created;
        let ended = if now >= created {
            now
        } else {
            created
        };
        let detail = "dependency failed".to_string();
        proof {
            assert(row_wf(self@, i as int));
            lemma_update_keeps_wf(
                self@,
                i as int,
                self@[i as int].finished(JobStatus::Failure, detail, now),
            );
        }
        self.jobs[i].status = JobStatus::Failure;
        self.jobs[i].ended = Some(ended);
        self.jobs[i].results = Some(detail);
        assert(self@ =~= old(self)@.update(
            i as int,
            old(self)@[i as int].finished(JobStatus::Failure, detail, now),
        ));
    }

    /// Breaks every `New` job whose parameters could not be read, and
    /// fails every `New` job one of whose dependencies has ended in
    /// `Failure` or `Broken`, along every chain of dependencies. Such a job
    /// ends in `Broken` or in `Failure` without ever being claimed.
    pub fn propagate_failures(&mut self, now: u64)
        requires
            old(self).wf(),
        ensures
            final(self).wf(),
            final(self).next_id_spec() == old(self).next_id_spec(),
            is_propagation(old(self)@, final(self)@, now),
            transition(old(self)@, Transition::Propagate { now }, final(self)@),
    {
        let mut i: usize = 0;
        while i < self.jobs.len()
            invariant
                self.wf(),
                self.next_id_spec() == old(self).next_id_spec(),
                old(self).wf(),
                self@.len() == old(self)@.len(),
                i <= self@.len(),
                forall|r: int| 0 <= r < i ==> #[trigger] propagated_row(old(self)@, self@, r, now),
                forall|r: int| i <= r < self@.len() ==> self@[r] == old(self)@[r],
            decreases self@.len() - i,
        {
            let is_new = match self.jobs[i].status {
                JobStatus::New => true,
                _ => false,
            };
            let unreadable = is_new && !self.jobs[i].kind.is_readable();
            if unreadable || (is_new && deps_any_failed(&self.jobs, i)) {
                let ghost before = self@;
                if unreadable {
                    self.break_row(i, now);
                } else {
                    self.fail_row(i, now);
                }
                proof {
                    assert forall|r: int| 0 <= r <= i implies #[trigger] propagated_row(
                        old(self)@,
                        self@,
                        r,
                        now,
                    ) by {
                        assert(row_wf(before, r));
                        lemma_deps_failed_after_update(before, i as int, self@[i as int], r);
                        if r < i {
                            assert(propagated_row(old(self)@, before, r, now));
                            assert(before[r].deps@ == old(self)@[r].deps@);
                        }
                    }
                }
            } else {
                proof {
                    assert(propagated_row(old(self)@, self@, i as int, now));
                }
            }
            i += 1;
        }
    }

    /// Records the end of an attempt at the job `id`, which must be
    /// `Started`, and in the same transaction fails the jobs waiting on a
    /// job that has failed. Returns the status that the job has now.
    pub fn finish(&mut self, id: u64, outcome: JobOutcome, now: u64, backoff_base: u64) -> (r:
        Result<JobStatus, StoreError>)
        requires
            old(self).wf(),
        ensures
            final(self).wf(),
            final(self).next_id_spec() == old(self).next_id_spec(),
            match r {
                Ok(status) => {
                    &&& status_of(old(self)@, id) == Some(JobStatus::Started)
                    &&& status == old(self)@[index_of(old(self)@, id)].after_attempt(
                        outcome,
                        now,
                        backoff_base,
                    ).status
                    &&& is_propagation(
                        old(self)@.update(
                            index_of(old(self)@, id),
                            old(self)@[index_of(old(self)@, id)].after_attempt(
                                outcome,
                                now,
                                backoff_base,
                            ),
                        ),
                        final(self)@,
                        now,
                    )
                    &&& final(self)@[index_of(old(self)@, id)] == old(self)@[index_of(
                        old(self)@,
                        id,
                    )].after_attempt(outcome, now, backoff_base)
                    &&& transition(
                        old(self)@,
                        Transition::Finish { id, outcome, now, backoff_base },
                        final(self)@,
                    )
                },
                Err(e) => {
                    &&& final(self)@ == old(self)@
                    &&& status_of(old(self)@, id) != Some(JobStatus::Started)
                    &&& e == if has_job(old(self)@, id) {
                        StoreError::NotStarted
                    } else {
                        StoreError::UnknownJob
                    }
                },
            },
    {
        let i = match self.find(id) {
            Some(i) => i,
            None => {
                return Err(StoreError::UnknownJob);
            },
        };
        match self.jobs[i].status {
            JobStatus::Started => {},
            _ => {
                return Err(StoreError::NotStarted);
            },
        }
        let ghost target = self@[i as int].after_attempt(outcome, now, backoff_base);
        proof {
            assert(row_wf(self@, i as int));
        }
        let ended = match self.jobs[i].started {
            Some(s) => if now >= s {
                now
            } else {
                s
            },
            None => now,
        };
        let status = match outcome {
            JobOutcome::Success { results } => {
                self.jobs[i].status = JobStatus::Success;
                self.jobs[i].lease = None;
                self.jobs[i].ended = Some(ended);
                self.jobs[i].results = Some(results);
                JobStatus::Success
            },
            JobOutcome::Failed { class, detail } => match class {
                ErrorClass::Transient => {
                    if self.jobs[i].retries < self.jobs[i].max_retries {
                        let not_before = next_eligible(now, backoff_base, self.jobs[i].retries);
                        self.jobs[i].status = JobStatus::New;
                        self.jobs[i].lease = None;
                        self.jobs[i].started = None;
                        self.jobs[i].retries = self.jobs[i].retries + 1;
                        self.jobs[i].not_before = not_before;
                        JobStatus::New
                    } else {
                        if self.jobs[i].retries < u32::MAX {
                            self.jobs[i].retries = self.jobs[i].retries + 1;
                        }
                        self.jobs[i].status = JobStatus::Failure;
                        self.jobs[i].lease = None;
                        self.jobs[i].ended = Some(ended);
                        self.jobs[i].results = Some(detail);
                        JobStatus::Failure
                    }
                },
                ErrorClass::Permanent => {
                    self.jobs[i].status = JobStatus::Failure;
                    self.jobs[i].lease = None;
                    self.jobs[i].ended = Some(ended);
                    self.jobs[i].results = Some(detail);
                    JobStatus::Failure
                },
                ErrorClass::Broken => {
                    self.jobs[i].status = JobStatus::Broken;
                    self.jobs[i].lease = None;
                    self.jobs[i].ended = Some(ended);
                    self.jobs[i].results = Some(detail);
                    JobStatus::Broken
                },
                ErrorClass::Internal => JobStatus::Started,
            },
        };
        proof {
            assert(self@ =~= old(self)@.update(i as int, target));
            lemma_update_keeps_wf(old(self)@, i as int, target);
        }
        self.propagate_failures(now);
        proof {
            lemma_attempt_row_settled(old(self)@, i as int, target, self@, now);
        }
        Ok(status)
    }

    /// Gives the job `id`, which must be `Started`, back unharmed: it is
    /// `New` again and may be claimed at once by whoever comes first.
    pub fn release(&mut self, id: u64) -> (r: Result<(), StoreError>)
        requires
            old(self).wf(),
        ensures
            final(self).wf(),
            final(self).next_id_spec() == old(self).next_id_spec(),
            match r {
                Ok(()) => {
                    &&& status_of(old(self)@, id) == Some(JobStatus::Started)
                    &&& final(self)@ == old(self)@.update(
                        index_of(old(self)@, id),
                        old(self)@[index_of(old(self)@, id)].released(),
                    )
                    &&& transition(old(self)@, Transition::Release { id }, final(self)@)
                },
                Err(e) => {
                    &&& final(self)@ == old(self)@
                    &&& status_of(old(self)@, id) != Some(JobStatus::Started)
                    &&& e == if has_job(old(self)@, id) {
                        StoreError::NotStarted
                    } else {
                        StoreError::UnknownJob
                    }
                },
            },
    {
        let i = match self.find(id) {
            Some(i) => i,
            None => {
                return Err(StoreError::UnknownJob);
            },
        };
        match self.jobs[i].status {
            JobStatus::Started => {},
            _ => {
                return Err(StoreError::NotStarted);
            },
        }
        self.release_row(i);
        Ok(())
    }

    /// Gives row `i`, which is `Started`, back unharmed.
    fn release_row(&mut self, i: usize)
        requires
            old(self).wf(),
            i < old(self)@.len(),
            old(self)@[i as int].status == JobStatus::Started,
        ensures
            final(self).wf(),
            final(self).next_id_spec() == old(self).next_id_spec(),
            final(self)@ == old(self)@.update(i as int, old(self)@[i as int].released()),
    {
        proof {
            assert(row_wf(self@, i as int));
            lemma_update_keeps_wf(self@, i as int, self@[i as int].released());
        }
        self.jobs[i].status = JobStatus::New;
        self.jobs[i].lease = None;
        self.jobs[i].started = None;
        assert(self@ =~= old(self)@.update(i as int, old(self)@[i as int].released()));
    }

    /// Startup recovery: every job that a previous incarnation of the
    /// executor `lease` left `Started` is `New` again with its retry count
    /// untouched, and no other job changes. Returns the identifiers of the
    /// jobs reset, in ascending order.
    pub fn cleanup_started_jobs(&mut self, lease: u64) -> (r: Vec<u64>)
        requires
            old(self).wf(),
        ensures
            final(self).wf(),
            final(self).next_id_spec() == old(self).next_id_spec(),
            final(self)@.len() == old(self)@.len(),
            forall|i: int|
                0 <= i < old(self)@.len() ==> #[trigger] final(self)@[i] == recovered(
                    old(self)@[i],
                    lease,
                ),
            r@ == selected_ids(old(self)@, |j: Job| leased(j, lease)),
            transition(old(self)@, Transition::Cleanup { lease }, final(self)@),
            forall|i: int|
                0 <= i < final(self)@.len() ==> !leased(#[trigger] final(self)@[i], lease),
    {
        let mut reset: Vec<u64> = Vec::new();
        let mut i: usize = 0;
        let ghost pick = |j: Job| leased(j, lease);
        while i < self.jobs.len()
            invariant
                self.wf(),
                self.next_id_spec() == old(self).next_id_spec(),
                self@.len() == old(self)@.len(),
                i <= self@.len(),
                pick == |j: Job| leased(j, lease),
                forall|r: int|
                    0 <= r < i ==> #[trigger] self@[r] == recovered(old(self)@[r], lease),
                forall|r: int| i <= r < self@.len() ==> self@[r] == old(self)@[r],
                reset@ == selected_ids(old(self)@.take(i as int), pick),
            decreases self@.len() - i,
        {
            proof {
                assert(old(self)@.take(i + 1).drop_last() =~= old(self)@.take(i as int));
            }
            if held_by_lease(&self.jobs[i], lease) {
                reset.push(self.jobs[i].id);
                self.release_row(i);
            }
            i += 1;
        }
        proof {
            assert(old(self)@.take(i as int) =~= old(self)@);
        }
        reset
    }

    /// The identifiers of the jobs that are `Started` under `lease`, in
    /// ascending order.
    pub fn started_for_lease(&self, lease: u64) -> (r: Vec<u64>)
        ensures
            r@ == selected_ids(self@, |j: Job| leased(j, lease)),
    {
        let mut held: Vec<u64> = Vec::new();
        let mut i: usize = 0;
        let ghost pick = |j: Job| leased(j, lease);
        while i < self.jobs.len()
            invariant
                i <= self@.len(),
                pick == |j: Job| leased(j, lease),
                held@ == selected_ids(self@.take(i as int), pick),
            decreases self@.len() - i,
        {
            proof {
                assert(self@.take(i + 1).drop_last() =~= self@.take(i as int));
            }
            if held_by_lease(&self.jobs[i], lease) {
                held.push(self.jobs[i].id);
            }
            i += 1;
        }
        proof {
            assert(self@.take(i as int) =~= self@);
        }
        held
    }

    /// The identifiers of the jobs that may be claimed at `now`, in
    /// ascending order.
    pub fn list_claimable(&self, now: u64) -> (r: Vec<u64>)
        requires
            self.wf(),
        ensures
            r@ == selected_ids(
                self@,
                |j: Job|
                    j.status == JobStatus::New && j.kind.readable_spec() && j.not_before <= now
                        && deps_met(self@, j.deps@),
            ),
    {
        let mut ready: Vec<u64> = Vec::new();
        let mut i: usize = 0;
        let ghost pick = |j: Job|
            j.status == JobStatus::New && j.kind.readable_spec() && j.not_before <= now
                && deps_met(self@, j.deps@);
        while i < self.jobs.len()
            invariant
                self.wf(),
                i <= self@.len(),
                pick == |j: Job|
                    j.status == JobStatus::New && j.kind.readable_spec() && j.not_before <= now
                        && deps_met(self@, j.deps@),
                ready@ == selected_ids(self@.take(i as int), pick),
            decreases self@.len() - i,
        {
            proof {
                assert(self@.take(i + 1).drop_last() =~= self@.take(i as int));
            }
            if self.is_claimable(i, now) {
                ready.push(self.jobs[i].id);
            }
            i += 1;
        }
        proof {
            assert(self@.take(i as int) =~= self@);
        }
        ready
    }

    /// Whether the table holds every job among `deps`.
    fn knows_all(&self, deps: &Vec<u64>) -> (r: bool)
        requires
            self.wf(),
        ensures
            r == all_known(self@, deps@),
    {
        let mut k: usize = 0;
        while k < deps.len()
            invariant
                self.wf(),
                k <= deps@.len(),
                forall|m: int| 0 <= m < k ==> has_job(self@, #[trigger] deps@[m]),
            decreases deps@.len() - k,
        {
            if self.find(deps[k]).is_none() {
                return false;
            }
            k += 1;
        }
        true
    }

    /// Inserts a job: `New`, never tried, with the next identifier, which
    /// is returned. Where a dependency of it has failed already, the new job
    /// is failed in the same transaction, as failure propagation has it.
    /// A submission is refused when no identifier is left,
    /// when a dependency is not a job of the table, or when a job is named
    /// twice among the dependencies; the first of these that holds decides
    /// the error.
    pub fn submit(&mut self, kind: JobKind, deps: Vec<u64>, max_retries: u32, now: u64) -> (r:
        Result<u64, StoreError>)
        requires
            old(self).wf(),
        ensures
            final(self).wf(),
            match r {
                Ok(id) => {
                    &&& submit_refusal(old(self)@, old(self).next_id_spec(), deps@).is_none()
                    &&& id == old(self).next_id_spec()
                    &&& final(self).next_id_spec() == id + 1
                    &&& is_propagation(
                        old(self)@.push(Job::fresh(id, kind, deps, max_retries, now)),
                        final(self)@,
                        now,
                    )
                    &&& transition(
                        old(self)@,
                        Transition::Submit { id, kind, deps, max_retries, now },
                        final(self)@,
                    )
                },
                Err(e) => {
                    &&& submit_refusal(old(self)@, old(self).next_id_spec(), deps@) == Some(e)
                    &&& final(self)@ == old(self)@
                    &&& final(self).next_id_spec() == old(self).next_id_spec()
                },
            },
    {
        if self.next_id == u64::MAX {
            return Err(StoreError::IdsExhausted);
        }
        if !self.knows_all(&deps) {
            return Err(StoreError::UnknownDependency);
        }
        if !distinct(&deps) {
            return Err(StoreError::DuplicateDependency);
        }
        let id = self.next_id;
        let job = Job {
            id,
            kind,
            status: JobStatus::New,
            deps,
            results: None,
            created: now,
            started: None,
            ended: None,
            retries: 0,
            max_retries,
            not_before: now,
            lease: None,
        };
        proof {
            let before = self@;
            let after = before.push(job);
            lemma_status_after_push(before, job, 0);
            assert forall|r: int| 0 <= r < after.len() implies #[trigger] row_wf(after, r) by {
                if r < before.len() {
                    assert(row_wf(before, r));
                    assert(after[r] == before[r]);
                    assert forall|k: int| 0 <= k < after[r].deps@.len() implies has_job(
                        after,
                        #[trigger] after[r].deps@[k],
                    ) && after[r].deps@[k] < after[r].id by {
                        lemma_status_after_push(before, job, before[r].deps@[k]);
                    }
                    if after[r].status == JobStatus::Started {
                        assert forall|k: int| 0 <= k < after[r].deps@.len() implies status_of(
                            after,
                            #[trigger] after[r].deps@[k],
                        ) == Some(JobStatus::Success) by {
                            lemma_status_after_push(before, job, before[r].deps@[k]);
                        }
                    }
                } else {
                    assert(after[r] == job);
                    assert forall|k: int| 0 <= k < job.deps@.len() implies has_job(
                        after,
                        #[trigger] job.deps@[k],
                    ) && job.deps@[k] < job.id by {
                        lemma_status_after_push(before, job, job.deps@[k]);
                        let j = index_of(before, job.deps@[k]);
                        assert(is_job(before, j, job.deps@[k]));
                    }
                }
            }
        }
        self.jobs.push(job);
        self.next_id = id + 1;
        self.propagate_failures(now);
        Ok(id)
    }
}

} // verus!
