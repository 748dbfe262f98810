//! The state of the job executor, what each event makes of it, and how it
//! hangs together with the job table.

use crate::errors::DeltaGenerationError;
use crate::executor::{Finished, SlotAction, SlotState, Woken};
use crate::job::{eligible_at, Job, JobOutcome, JobStatus};
use crate::protocol::{DeltaRequest, DeltaResult};
use crate::store::table::{
    first_claimable, has_job, ids_ascending, index_of, is_job, is_propagation, leased,
    lemma_index_of, lemma_same_ids, lemma_status_after_update, table_wf,
};
use vstd::prelude::*;

verus! {

/// The state of the executor.
pub struct ExecutorState {
    pub slots: Seq<SlotState>,
    /// The name under which this executor claims jobs.
    pub lease: u64,
    /// The delay before the first retry of a job.
    pub backoff_base: u64,
    /// Whether the executor has been told to stop.
    pub stopping: bool,
}

/// The job that the slot has claimed, if it has one.
pub open spec fn slot_job(s: SlotState) -> Option<u64> {
    match s {
        SlotState::Idle => None,
        SlotState::AwaitingLock { job, repo } => Some(job),
        SlotState::Running { job, repo } => Some(job),
        SlotState::AwaitingDelta { job } => Some(job),
        SlotState::Exited => None,
    }
}

/// The slot holds the lock of `repo`.
pub open spec fn holds_lock(s: SlotState, repo: u64) -> bool {
    s matches SlotState::Running { job, repo: r } && r == repo
}

/// The slot waits for the lock of `repo`.
pub open spec fn awaits_lock(s: SlotState, repo: u64) -> bool {
    s matches SlotState::AwaitingLock { job, repo: r } && r == repo
}

/// Some slot holds the lock of `repo`.
pub open spec fn locked(slots: Seq<SlotState>, repo: u64) -> bool {
    exists|i: int| 0 <= i < slots.len() && holds_lock(#[trigger] slots[i], repo)
}

/// Some slot has claimed `job`.
pub open spec fn held_by(slots: Seq<SlotState>, job: u64) -> bool {
    exists|i: int| 0 <= i < slots.len() && slot_job(#[trigger] slots[i]) == Some(job)
}

/// The slot at `i` is the first that waits for the lock of `repo`.
pub open spec fn is_first_waiter(slots: Seq<SlotState>, i: int, repo: u64) -> bool {
    &&& 0 <= i < slots.len()
    &&& awaits_lock(slots[i], repo)
    &&& forall|j: int| 0 <= j < i ==> !awaits_lock(#[trigger] slots[j], repo)
}

/// No slot waits for the lock of `repo`.
pub open spec fn no_waiter(slots: Seq<SlotState>, repo: u64) -> bool {
    forall|j: int| 0 <= j < slots.len() ==> !awaits_lock(#[trigger] slots[j], repo)
}

/// The state that a slot takes on with the job it has just claimed: a
/// delta job is handed to the generator; any other runs under the lock of
/// its repository, for which the slot waits while another slot holds it.
pub open spec fn placement(job: Job, slots: Seq<SlotState>) -> SlotState {
    if job.kind.delta_spec() {
        SlotState::AwaitingDelta { job: job.id }
    } else if locked(slots, job.kind.repo_spec()) {
        SlotState::AwaitingLock { job: job.id, repo: job.kind.repo_spec() }
    } else {
        SlotState::Running { job: job.id, repo: job.kind.repo_spec() }
    }
}

/// The request that stands for a delta job.
pub open spec fn delta_request(job: Job) -> DeltaRequest {
    DeltaRequest {
        job: job.id,
        repo: job.kind.repo_spec(),
        source: job.kind->GenerateDelta_source,
        target: job.kind->GenerateDelta_target,
    }
}

/// What the program is to do for a slot that is in `state` with `job`.
pub open spec fn action_on(state: SlotState, job: Job) -> SlotAction {
    match state {
        SlotState::Idle => SlotAction::Wait,
        SlotState::AwaitingLock { job: j, repo } => SlotAction::AwaitLock { job: j, repo },
        SlotState::Running { job: j, repo } => SlotAction::RunBackend { job: j, repo },
        SlotState::AwaitingDelta { job: j } => if job.kind.delta_spec() {
            SlotAction::RequestDelta { request: delta_request(job) }
        } else {
            SlotAction::Wait
        },
        SlotState::Exited => SlotAction::Exit,
    }
}

/// What is recorded of a delta that failed with `e`.
pub open spec fn delta_failure_text(e: DeltaGenerationError) -> Seq<char> {
    match e {
        DeltaGenerationError::WorkerUnavailable => "no worker available"@,
        DeltaGenerationError::ComputationFailed { detail, retryable } => detail@,
        DeltaGenerationError::Timeout => "delta request timed out"@,
    }
}

/// `outcome` is the end of a delta job whose request ended with `result`:
/// the metadata of the delta on success, and on failure the class of the
/// error with a word on what went wrong.
pub open spec fn is_delta_job_outcome(result: DeltaResult, outcome: JobOutcome) -> bool {
    match result {
        Ok(metadata) => outcome == (JobOutcome::Success { results: metadata }),
        Err(e) => {
            &&& outcome is Failed
            &&& outcome->class == e.class_spec()
            &&& outcome->detail@ == delta_failure_text(e)
        },
    }
}

impl ExecutorState {
    /// No job is the job of two slots.
    pub open spec fn jobs_distinct(self) -> bool {
        forall|i: int, j: int|
            0 <= i < self.slots.len() && 0 <= j < self.slots.len() && slot_job(
                #[trigger] self.slots[i],
            ).is_some() && slot_job(self.slots[i]) == slot_job(#[trigger] self.slots[j]) ==> i
                == j
    }

    /// No lock is held by two slots.
    pub open spec fn locks_exclusive(self) -> bool {
        forall|i: int, j: int|
            0 <= i < self.slots.len() && 0 <= j < self.slots.len() && (
            #[trigger] self.slots[i]) is Running && (#[trigger] self.slots[j]) is Running
                && self.slots[i]->Running_repo == self.slots[j]->Running_repo ==> i == j
    }

    /// Where a slot waits for a lock, some slot holds it.
    pub open spec fn waiters_have_holder(self) -> bool {
        forall|i: int|
            0 <= i < self.slots.len() && (#[trigger] self.slots[i]) is AwaitingLock ==> locked(
                self.slots,
                self.slots[i]->AwaitingLock_repo,
            )
    }

    /// Once the executor has been told to stop, a slot is running its job
    /// to the end or has left the pool.
    pub open spec fn stopped_slots_drain(self) -> bool {
        self.stopping ==> forall|i: int|
            0 <= i < self.slots.len() ==> (#[trigger] self.slots[i]) is Running
                || self.slots[i] is Exited
    }

    /// What must hold of the pool between events.
    pub open spec fn wf(self) -> bool {
        &&& self.jobs_distinct()
        &&& self.locks_exclusive()
        &&& self.waiters_have_holder()
        &&& self.stopped_slots_drain()
    }

    /// The job of every slot is `Started` under the lease of this executor.
    pub open spec fn slots_hold_leases(self, jobs: Seq<Job>) -> bool {
        forall|i: int|
            0 <= i < self.slots.len() && slot_job(#[trigger] self.slots[i]).is_some() ==> {
                &&& has_job(jobs, slot_job(self.slots[i]).unwrap())
                &&& leased(jobs[index_of(jobs, slot_job(self.slots[i]).unwrap())], self.lease)
            }
    }

    /// Every job that is `Started` under the lease of this executor is the
    /// job of a slot.
    pub open spec fn leases_have_slots(self, jobs: Seq<Job>) -> bool {
        forall|r: int|
            0 <= r < jobs.len() && leased(#[trigger] jobs[r], self.lease) ==> held_by(
                self.slots,
                jobs[r].id,
            )
    }

    /// The pool and the job table agree on what this executor has claimed.
    pub open spec fn agrees(self, jobs: Seq<Job>) -> bool {
        &&& self.slots_hold_leases(jobs)
        &&& self.leases_have_slots(jobs)
    }

    /// The state with the slot at `i` in the state `s`.
    pub open spec fn with_slot(self, i: int, s: SlotState) -> ExecutorState {
        ExecutorState { slots: self.slots.update(i, s), ..self }
    }

    /// The state that a slot without a job takes on: it may claim again,
    /// unless the executor has been told to stop.
    pub open spec fn rest(self) -> SlotState {
        if self.stopping {
            SlotState::Exited
        } else {
            SlotState::Idle
        }
    }

    /// The slot that is granted the lock which the slot at `i` gives up:
    /// the first that waits for it, if any does.
    pub open spec fn heir(self, i: int) -> Option<int> {
        if self.slots[i] is Running && !no_waiter(self.slots, self.slots[i]->Running_repo) {
            Some(first_waiter(self.slots, self.slots[i]->Running_repo))
        } else {
            None
        }
    }

    /// The state after the slot at `i` has let go of its job: the slot
    /// rests, and the lock that it held, if it held one, goes to the first
    /// slot that waits for it.
    pub open spec fn vacate(self, i: int) -> ExecutorState {
        match self.heir(i) {
            Some(w) => self.with_slot(i, self.rest()).with_slot(
                w,
                SlotState::Running {
                    job: self.slots[w]->AwaitingLock_job,
                    repo: self.slots[i]->Running_repo,
                },
            ),
            None => self.with_slot(i, self.rest()),
        }
    }

    /// The slot that has been woken when the slot at `i` let go of its job.
    pub open spec fn woken(self, i: int) -> Option<Woken> {
        match self.heir(i) {
            Some(w) => Some(
                Woken {
                    slot: w as usize,
                    job: self.slots[w]->AwaitingLock_job,
                    repo: self.slots[i]->Running_repo,
                },
            ),
            None => None,
        }
    }

    /// What a slot is to do once it rests.
    pub open spec fn rest_action(self) -> SlotAction {
        if self.stopping {
            SlotAction::Exit
        } else {
            SlotAction::Wait
        }
    }
}

/// The place of the first slot that waits for the lock of `repo`.
pub open spec fn first_waiter(slots: Seq<SlotState>, repo: u64) -> int {
    choose|i: int| is_first_waiter(slots, i, repo)
}

/// What is recorded of a job whose slot gave up the wait for a lock.
pub open spec fn lock_timeout_detail() -> Seq<char> {
    "timed out waiting for the repository lock"@
}

/// The places of the slots that have no job and may claim one, in
/// ascending order.
pub open spec fn idle_places(slots: Seq<SlotState>) -> Seq<usize>
    decreases slots.len(),
{
    if slots.len() == 0 {
        Seq::<usize>::empty()
    } else if slots.last() is Idle {
        idle_places(slots.drop_last()).push((slots.len() - 1) as usize)
    } else {
        idle_places(slots.drop_last())
    }
}

/// The executor `st` and the job table `jobs` become `st2` and `after`
/// when what the slot at `slot` was doing for its job ends at `now` and
/// leaves the record `target` of the job, and `done` is what the slot is
/// told.
///
/// The table holds `target` for the job and has propagated a failure.
/// Where the job is still `Started`, the pool is as it was and the slot
/// repeats the operation. Otherwise the slot lets go of the job: it rests,
/// and the lock that it held goes to the first slot that waits for it.
pub open spec fn finished_to(
    st: ExecutorState,
    jobs: Seq<Job>,
    slot: int,
    target: Job,
    now: u64,
    st2: ExecutorState,
    after: Seq<Job>,
    done: Finished,
) -> bool {
    let c = index_of(jobs, slot_job(st.slots[slot]).unwrap());
    &&& done.status == target.status
    &&& is_propagation(jobs.update(c, target), after, now)
    &&& after[c] == target
    &&& target.status == JobStatus::Started ==> {
        &&& st2 == st
        &&& done.action == action_on(st.slots[slot], jobs[c])
        &&& done.woken.is_none()
    }
    &&& target.status != JobStatus::Started ==> {
        &&& st2 == st.vacate(slot)
        &&& done.action == st.rest_action()
        &&& done.woken == st.woken(slot)
    }
}

/// As `finished_to`, where the record that is left of the job is what an
/// attempt that ended with `outcome` leaves, with the backoff of the
/// executor.
pub open spec fn finished_as(
    st: ExecutorState,
    jobs: Seq<Job>,
    slot: int,
    outcome: JobOutcome,
    now: u64,
    st2: ExecutorState,
    after: Seq<Job>,
    done: Finished,
) -> bool {
    finished_to(
        st,
        jobs,
        slot,
        jobs[index_of(jobs, slot_job(st.slots[slot]).unwrap())].after_attempt(
            outcome,
            now,
            st.backoff_base,
        ),
        now,
        st2,
        after,
        done,
    )
}

/// `target` is what is left of `job` when its slot has given up the wait
/// for a lock at `now`, which counts as a transient failure.
pub open spec fn is_lock_timeout(job: Job, target: Job, now: u64, backoff_base: u64) -> bool {
    if job.retries < job.max_retries {
        target == job.retried(eligible_at(now, backoff_base, job.retries))
    } else {
        &&& target.results.is_some()
        &&& target.results.unwrap()@ == lock_timeout_detail()
        &&& target == job.exhausted(target.results.unwrap(), now)
    }
}

/// What the order to stop makes of a slot: a slot that is running its job
/// goes on to the end if the stop is graceful, and every other slot leaves
/// the pool.
pub open spec fn stop_slot(s: SlotState, graceful: bool) -> SlotState {
    if graceful && s is Running {
        s
    } else {
        SlotState::Exited
    }
}

/// The order to stop makes the slot give its job back.
pub open spec fn gives_up(s: SlotState, graceful: bool) -> bool {
    slot_job(s).is_some() && !(graceful && s is Running)
}

/// One of the first `upto` slots gives the job `id` back at the order to
/// stop.
pub open spec fn given_up(slots: Seq<SlotState>, id: u64, graceful: bool, upto: int) -> bool {
    exists|i: int|
        0 <= i < upto && i < slots.len() && slot_job(#[trigger] slots[i]) == Some(id) && gives_up(
            slots[i],
            graceful,
        )
}

impl ExecutorState {
    /// The state after the order to stop.
    pub open spec fn on_stop(self, graceful: bool) -> ExecutorState {
        ExecutorState {
            slots: Seq::new(self.slots.len(), |i: int| stop_slot(self.slots[i], graceful)),
            stopping: true,
            ..self
        }
    }
}

/// The first waiter is the only one that is first.
pub proof fn lemma_first_waiter(slots: Seq<SlotState>, i: int, repo: u64)
    requires
        is_first_waiter(slots, i, repo),
    ensures
        !no_waiter(slots, repo),
        first_waiter(slots, repo) == i,
{
    let c = first_waiter(slots, repo);
    assert(is_first_waiter(slots, c, repo));
    if c < i {
        assert(!awaits_lock(slots[c], repo));
    } else if i < c {
        assert(!awaits_lock(slots[i], repo));
    }
}

/// Where a slot waits for a lock, one of the waiting slots is the first.
pub proof fn lemma_has_first_waiter(slots: Seq<SlotState>, k: int, repo: u64)
    requires
        0 <= k < slots.len(),
        awaits_lock(slots[k], repo),
    ensures
        is_first_waiter(slots, first_waiter(slots, repo), repo),
    decreases k,
{
    if exists|j: int| 0 <= j < k && awaits_lock(#[trigger] slots[j], repo) {
        let j = choose|j: int| 0 <= j < k && awaits_lock(#[trigger] slots[j], repo);
        lemma_has_first_waiter(slots, j, repo);
    } else {
        assert(is_first_waiter(slots, k, repo));
    }
}

/// Letting go of a job keeps the pool well formed. The slot has no job
/// afterwards, and every other slot has the job it had.
pub proof fn lemma_vacate(st: ExecutorState, i: int)
    requires
        st.wf(),
        0 <= i < st.slots.len(),
        slot_job(st.slots[i]).is_some(),
    ensures
        st.vacate(i).wf(),
        st.vacate(i).slots.len() == st.slots.len(),
        st.vacate(i).lease == st.lease,
        st.vacate(i).stopping == st.stopping,
        st.vacate(i).backoff_base == st.backoff_base,
        slot_job(st.vacate(i).slots[i]).is_none(),
        forall|k: int|
            0 <= k < st.slots.len() && k != i ==> slot_job(#[trigger] st.vacate(i).slots[k])
                == slot_job(st.slots[k]),
        st.heir(i).is_some() ==> is_first_waiter(
            st.slots,
            st.heir(i).unwrap(),
            st.slots[i]->Running_repo,
        ),
{
    let st2 = st.vacate(i);
    match st.heir(i) {
        Some(w) => {
            let repo = st.slots[i]->Running_repo;
            let k = choose|k: int|
                0 <= k < st.slots.len() && awaits_lock(#[trigger] st.slots[k], repo);
            lemma_has_first_waiter(st.slots, k, repo);
            assert(is_first_waiter(st.slots, w, repo));
            assert(w != i);
            assert forall|a: int, b: int|
                0 <= a < st2.slots.len() && 0 <= b < st2.slots.len() && (
                #[trigger] st2.slots[a]) is Running && (#[trigger] st2.slots[b]) is Running
                    && st2.slots[a]->Running_repo == st2.slots[b]->Running_repo implies a == b by {
                if a != w && b != w {
                    assert(st.slots[a] == st2.slots[a]);
                    assert(st.slots[b] == st2.slots[b]);
                } else if a != w {
                    assert(st.slots[a] == st2.slots[a]);
                    assert(st.slots[i] is Running);
                } else if b != w {
                    assert(st.slots[b] == st2.slots[b]);
                    assert(st.slots[i] is Running);
                }
            }
            assert forall|a: int|
                0 <= a < st2.slots.len() && (#[trigger] st2.slots[a]) is AwaitingLock
                implies locked(
                st2.slots,
                st2.slots[a]->AwaitingLock_repo,
            ) by {
                let r = st2.slots[a]->AwaitingLock_repo;
                assert(st.slots[a] == st2.slots[a]);
                if r == repo {
                    assert(holds_lock(st2.slots[w], repo));
                } else {
                    assert(locked(st.slots, r));
                    let h = choose|h: int|
                        0 <= h < st.slots.len() && holds_lock(#[trigger] st.slots[h], r);
                    assert(holds_lock(st2.slots[h], r));
                }
            }
            assert(st2.jobs_distinct()) by {
                assert forall|a: int, b: int|
                    0 <= a < st2.slots.len() && 0 <= b < st2.slots.len() && slot_job(
                        #[trigger] st2.slots[a],
                    ).is_some() && slot_job(st2.slots[a]) == slot_job(
                        #[trigger] st2.slots[b],
                    ) implies a == b by {
                    assert(slot_job(st2.slots[a]) == slot_job(st.slots[a]));
                    assert(slot_job(st2.slots[b]) == slot_job(st.slots[b]));
                }
            }
            assert(st2.stopped_slots_drain());
        },
        None => {
            assert forall|a: int|
                0 <= a < st2.slots.len() && (#[trigger] st2.slots[a]) is AwaitingLock
                implies locked(
                st2.slots,
                st2.slots[a]->AwaitingLock_repo,
            ) by {
                let r = st2.slots[a]->AwaitingLock_repo;
                assert(st.slots[a] == st2.slots[a]);
                assert(locked(st.slots, r));
                let h = choose|h: int|
                    0 <= h < st.slots.len() && holds_lock(#[trigger] st.slots[h], r);
                if h == i {
                    assert(awaits_lock(st.slots[a], r));
                    assert(false);
                }
                assert(holds_lock(st2.slots[h], r));
            }
            assert(st2.jobs_distinct()) by {
                assert forall|a: int, b: int|
                    0 <= a < st2.slots.len() && 0 <= b < st2.slots.len() && slot_job(
                        #[trigger] st2.slots[a],
                    ).is_some() && slot_job(st2.slots[a]) == slot_job(
                        #[trigger] st2.slots[b],
                    ) implies a == b by {
                    assert(a != i);
                    assert(st2.slots[a] == st.slots[a]);
                    if b != i {
                        assert(st2.slots[b] == st.slots[b]);
                    }
                }
            }
            assert(st2.locks_exclusive()) by {
                assert forall|a: int, b: int|
                    0 <= a < st2.slots.len() && 0 <= b < st2.slots.len() && (
                    #[trigger] st2.slots[a]) is Running && (#[trigger] st2.slots[b]) is Running
                        && st2.slots[a]->Running_repo == st2.slots[b]->Running_repo implies a
                    == b by {
                    assert(st2.slots[a] == st.slots[a]);
                    assert(st2.slots[b] == st.slots[b]);
                }
            }
        },
    }
}

/// The pool stays in agreement with the job table when a slot lets go of
/// its job and the table no longer has that job `Started`, whatever else
/// has happened to rows that were not `Started`.
pub proof fn lemma_release_keeps_agreement(
    st: ExecutorState,
    jobs: Seq<Job>,
    slot: int,
    st2: ExecutorState,
    after: Seq<Job>,
)
    requires
        st.jobs_distinct(),
        ids_ascending(jobs),
        st.agrees(jobs),
        0 <= slot < st.slots.len(),
        slot_job(st.slots[slot]).is_some(),
        st2.lease == st.lease,
        st2.slots.len() == st.slots.len(),
        slot_job(st2.slots[slot]).is_none(),
        forall|k: int|
            0 <= k < st.slots.len() && k != slot ==> slot_job(#[trigger] st2.slots[k]) == slot_job(
                st.slots[k],
            ),
        after.len() == jobs.len(),
        forall|r: int| 0 <= r < jobs.len() ==> (#[trigger] after[r]).id == jobs[r].id,
        forall|r: int|
            0 <= r < jobs.len() && jobs[r].id != slot_job(st.slots[slot]).unwrap() && (leased(
                jobs[r],
                st.lease,
            ) || leased(after[r], st.lease)) ==> #[trigger] after[r] == jobs[r],
        !leased(after[index_of(jobs, slot_job(st.slots[slot]).unwrap())], st.lease),
    ensures
        st2.agrees(after),
{
    let j = slot_job(st.slots[slot]).unwrap();
    lemma_slot_row(st, jobs, slot);
    let c = index_of(jobs, j);
    assert forall|r: int| 0 <= r < jobs.len() implies (#[trigger] jobs[r]).id == after[r].id by {
        assert(after[r].id == jobs[r].id);
    }
    lemma_same_ids(jobs, after, 0);
    assert(st2.slots_hold_leases(after)) by {
        assert forall|i: int|
            0 <= i < st2.slots.len() && slot_job(#[trigger] st2.slots[i]).is_some() implies has_job(
            after,
            slot_job(st2.slots[i]).unwrap(),
        ) && leased(after[index_of(after, slot_job(st2.slots[i]).unwrap())], st2.lease) by {
            let k = slot_job(st2.slots[i]).unwrap();
            assert(i != slot);
            assert(slot_job(st.slots[i]) == Some(k));
            lemma_slot_row(st, jobs, i);
            lemma_same_ids(jobs, after, k);
            let r = index_of(jobs, k);
            assert(k != j);
            assert(after[r] == jobs[r]);
        }
    }
    assert(st2.leases_have_slots(after)) by {
        assert forall|r: int|
            0 <= r < after.len() && leased(#[trigger] after[r], st2.lease) implies held_by(
            st2.slots,
            after[r].id,
        ) by {
            if jobs[r].id == j {
                lemma_index_of(jobs, r);
                assert(r == c);
            } else {
                assert(after[r] == jobs[r]);
                assert(leased(jobs[r], st.lease));
                assert(held_by(st.slots, jobs[r].id));
                let i = choose|i: int|
                    0 <= i < st.slots.len() && slot_job(#[trigger] st.slots[i]) == Some(jobs[r].id);
                assert(i != slot);
                assert(slot_job(st2.slots[i]) == Some(jobs[r].id));
            }
        }
    }
}

/// Whether a job is given up by one of the first slots changes with one
/// slot more only if that slot has the job and gives it up.
pub proof fn lemma_given_up_step(slots: Seq<SlotState>, id: u64, graceful: bool, k: int)
    requires
        0 <= k < slots.len(),
    ensures
        given_up(slots, id, graceful, k + 1) == (given_up(slots, id, graceful, k) || (slot_job(
            slots[k],
        ) == Some(id) && gives_up(slots[k], graceful))),
{
    if given_up(slots, id, graceful, k) {
        let i = choose|i: int|
            0 <= i < k && i < slots.len() && slot_job(#[trigger] slots[i]) == Some(id) && gives_up(
                slots[i],
                graceful,
            );
        assert(0 <= i < k + 1 && slot_job(slots[i]) == Some(id));
    }
    if slot_job(slots[k]) == Some(id) && gives_up(slots[k], graceful) {
        assert(0 <= k < k + 1 && slot_job(slots[k]) == Some(id));
    }
    if given_up(slots, id, graceful, k + 1) {
        let i = choose|i: int|
            0 <= i < k + 1 && i < slots.len() && slot_job(#[trigger] slots[i]) == Some(id)
                && gives_up(slots[i], graceful);
        if i < k {
            assert(slot_job(slots[i]) == Some(id));
        }
    }
}

/// The job of a slot stands in one row of the table, and that row is
/// `Started` under the lease of the executor.
pub proof fn lemma_slot_row(st: ExecutorState, jobs: Seq<Job>, i: int)
    requires
        st.slots_hold_leases(jobs),
        0 <= i < st.slots.len(),
        slot_job(st.slots[i]).is_some(),
    ensures
        is_job(
            jobs,
            index_of(jobs, slot_job(st.slots[i]).unwrap()),
            slot_job(st.slots[i]).unwrap(),
        ),
        leased(jobs[index_of(jobs, slot_job(st.slots[i]).unwrap())], st.lease),
{
    let j = slot_job(st.slots[i]).unwrap();
    assert(has_job(jobs, j));
}

/// A claim by an idle slot keeps the pool well formed and in agreement
/// with the job table.
pub proof fn lemma_claim_keeps_agreement(
    st: ExecutorState,
    jobs: Seq<Job>,
    slot: int,
    c: int,
    now: u64,
)
    requires
        st.wf(),
        table_wf(jobs),
        st.agrees(jobs),
        !st.stopping,
        0 <= slot < st.slots.len(),
        st.slots[slot] is Idle,
        first_claimable(jobs, c, now),
    ensures
        st.with_slot(slot, placement(jobs[c], st.slots)).wf(),
        st.with_slot(slot, placement(jobs[c], st.slots)).agrees(
            jobs.update(c, jobs[c].claimed(st.lease, now)),
        ),
{
    let state = placement(jobs[c], st.slots);
    let st2 = st.with_slot(slot, state);
    let after = jobs.update(c, jobs[c].claimed(st.lease, now));
    let id = jobs[c].id;
    lemma_index_of(jobs, c);
    // no slot has the job yet: it was `New`
    assert forall|i: int| 0 <= i < st.slots.len() implies slot_job(#[trigger] st.slots[i])
        != Some(id) by {
        if slot_job(st.slots[i]) == Some(id) {
            lemma_slot_row(st, jobs, i);
        }
    }
    assert(st2.jobs_distinct()) by {
        assert forall|i: int, j: int|
            0 <= i < st2.slots.len() && 0 <= j < st2.slots.len() && slot_job(
                #[trigger] st2.slots[i],
            ).is_some() && slot_job(st2.slots[i]) == slot_job(#[trigger] st2.slots[j]) implies i
            == j by {
            if i != slot && j != slot {
                assert(st.slots[i] == st2.slots[i]);
                assert(st.slots[j] == st2.slots[j]);
            } else if i != slot {
                assert(st.slots[i] == st2.slots[i]);
            } else if j != slot {
                assert(st.slots[j] == st2.slots[j]);
            }
        }
    }
    assert(st2.locks_exclusive()) by {
        assert forall|i: int, j: int|
            0 <= i < st2.slots.len() && 0 <= j < st2.slots.len() && (
            #[trigger] st2.slots[i]) is Running && (#[trigger] st2.slots[j]) is Running
                && st2.slots[i]->Running_repo == st2.slots[j]->Running_repo implies i == j by {
            if i != slot && j != slot {
                assert(st.slots[i] == st2.slots[i]);
                assert(st.slots[j] == st2.slots[j]);
            } else if i != slot {
                assert(st.slots[i] == st2.slots[i]);
                assert(holds_lock(st.slots[i], jobs[c].kind.repo_spec()));
            } else if j != slot {
                assert(st.slots[j] == st2.slots[j]);
                assert(holds_lock(st.slots[j], jobs[c].kind.repo_spec()));
            }
        }
    }
    assert(st2.waiters_have_holder()) by {
        assert forall|i: int|
            0 <= i < st2.slots.len() && (#[trigger] st2.slots[i]) is AwaitingLock implies locked(
            st2.slots,
            st2.slots[i]->AwaitingLock_repo,
        ) by {
            let repo = st2.slots[i]->AwaitingLock_repo;
            if i != slot {
                assert(st.slots[i] == st2.slots[i]);
            }
            assert(locked(st.slots, repo));
            let k = choose|k: int|
                0 <= k < st.slots.len() && holds_lock(#[trigger] st.slots[k], repo);
            assert(k != slot);
            assert(holds_lock(st2.slots[k], repo));
        }
    }
    assert(st2.slots_hold_leases(after)) by {
        assert forall|i: int|
            0 <= i < st2.slots.len() && slot_job(#[trigger] st2.slots[i]).is_some() implies has_job(
            after,
            slot_job(st2.slots[i]).unwrap(),
        ) && leased(after[index_of(after, slot_job(st2.slots[i]).unwrap())], st2.lease) by {
            let j = slot_job(st2.slots[i]).unwrap();
            lemma_status_after_update(jobs, c, jobs[c].claimed(st.lease, now), j);
            if i == slot {
                assert(j == id);
                assert(is_job(after, c, id));
                lemma_index_of(after, c);
            } else {
                assert(st.slots[i] == st2.slots[i]);
                lemma_slot_row(st, jobs, i);
                let r = index_of(jobs, j);
                assert(after[r] == jobs[r]);
                assert(is_job(after, r, j));
                lemma_index_of(after, r);
            }
        }
    }
    assert(st2.leases_have_slots(after)) by {
        assert forall|r: int|
            0 <= r < after.len() && leased(#[trigger] after[r], st2.lease) implies held_by(
            st2.slots,
            after[r].id,
        ) by {
            if r == c {
                assert(slot_job(st2.slots[slot]) == Some(id));
            } else {
                assert(after[r] == jobs[r]);
                assert(leased(jobs[r], st.lease));
                assert(held_by(st.slots, jobs[r].id));
                let i = choose|i: int|
                    0 <= i < st.slots.len() && slot_job(#[trigger] st.slots[i]) == Some(jobs[r].id);
                assert(i != slot);
                assert(slot_job(st2.slots[i]) == Some(jobs[r].id));
            }
        }
    }
}

} // verus!
