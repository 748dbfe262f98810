//! The job executor: a pool of execution slots that claim jobs from the job
//! table, run them under the lock of their repository or hand them to the
//! delta generator, and record how they ended.
//!
//! The executor decides; the surrounding program runs the job bodies and
//! reports back. A slot that has nothing to do asks for work with
//! `claim_and_run_one`, and every action that comes back names what the
//! program is to do for that slot next.

pub mod laws;
pub mod state;

use crate::errors::{DeltaGenerationError, ErrorClass};
use crate::executor::state::{
    action_on, awaits_lock, finished_as, finished_to, given_up, gives_up, held_by, holds_lock,
    idle_places, is_delta_job_outcome, is_first_waiter, is_lock_timeout,
    lemma_claim_keeps_agreement, lemma_first_waiter, lemma_given_up_step,
    lemma_release_keeps_agreement, lemma_slot_row, lemma_vacate, locked, no_waiter, placement,
    slot_job, stop_slot, ExecutorState,
};
use crate::job::{Job, JobKind, JobOutcome, JobStatus};
use crate::protocol::{DeltaRequest, DeltaResult};
use crate::store::JobStore;
use crate::store::table::{
    first_claimable, has_job, index_of, is_job, leased, lemma_index_of, lemma_propagation_rows,
    lemma_same_ids, lemma_status_after_update, none_claimable,
};
use vstd::prelude::*;

verus! {

/// What an execution slot is doing.
#[derive(Clone, Copy, Debug, PartialEq, Eq, Structural)]
pub enum SlotState {
    /// The slot has no job and may claim one.
    Idle,
    /// The slot has claimed `job` and waits for the lock of `repo`.
    AwaitingLock { job: u64, repo: u64 },
    /// The slot holds the lock of `repo` and runs `job` against the
    /// repository backend.
    Running { job: u64, repo: u64 },
    /// The slot has handed `job` to the delta generator and is suspended
    /// until the generator answers.
    AwaitingDelta { job: u64 },
    /// The slot has left the pool.
    Exited,
}

/// What the surrounding program is to do for a slot.
#[derive(Clone, Debug, PartialEq, Eq)]
pub enum SlotAction {
    /// Nothing for now: ask again when woken or after the poll interval.
    Wait,
    /// Run the body of `job` against the repository backend; the slot
    /// holds the lock of `repo`.
    RunBackend { job: u64, repo: u64 },
    /// Suspend until the lock of `repo` is granted to the slot.
    AwaitLock { job: u64, repo: u64 },
    /// Hand `request` to the delta generator and suspend until it answers.
    RequestDelta { request: DeltaRequest },
    /// End the task of the slot.
    Exit,
}

impl SlotAction {
    /// Whether the action gives the slot something to do for a job.
    pub open spec fn found_work_spec(self) -> bool {
        !(self is Wait || self is Exit)
    }

    /// Whether work was found: the action gives the slot something to do
    /// for a job.
    pub fn found_work(&self) -> (r: bool)
        ensures
            r == self.found_work_spec(),
    {
        match self {
            SlotAction::Wait => false,
            SlotAction::Exit => false,
            _ => true,
        }
    }
}

/// A slot that was waiting for a lock and has it now.
#[derive(Clone, Copy, Debug, PartialEq, Eq, Structural)]
pub struct Woken {
    pub slot: usize,
    pub job: u64,
    pub repo: u64,
}

/// What the end of an attempt has led to.
#[derive(Clone, Debug, PartialEq, Eq)]
pub struct Finished {
    /// The status that the job has now.
    pub status: JobStatus,
    /// What the slot is to do next.
    pub action: SlotAction,
    /// The slot that has been granted the lock which this one gave up.
    pub woken: Option<Woken>,
}

/// What the executor can refuse.
#[derive(Clone, Copy, Debug, PartialEq, Eq, Structural)]
pub enum ExecutorError {
    /// The pool has no slot of that number.
    NoSuchSlot,
    /// The slot is not in the state that the report is about.
    WrongState,
}

/// The end of a delta job whose request ended with `result`. The executor
/// never looks at the error itself, only at its class.
pub fn delta_job_outcome(result: DeltaResult) -> (r: JobOutcome)
    ensures
        is_delta_job_outcome(result, r),
{
    match result {
        Ok(metadata) => JobOutcome::Success { results: metadata },
        Err(e) => {
            let class = e.class();
            let detail = match e {
                DeltaGenerationError::WorkerUnavailable => "no worker available".to_string(),
                DeltaGenerationError::ComputationFailed { detail, retryable: _ } => detail,
                DeltaGenerationError::Timeout => "delta request timed out".to_string(),
            };
            JobOutcome::Failed { class, detail }
        },
    }
}

/// The job executor.
pub struct JobExecutor {
    slots: Vec<SlotState>,
    lease: u64,
    backoff_base: u64,
    stopping: bool,
}

impl View for JobExecutor {
    type V = ExecutorState;

    closed spec fn view(&self) -> ExecutorState {
        ExecutorState {
            slots: self.slots@,
            lease: self.lease,
            backoff_base: self.backoff_base,
            stopping: self.stopping,
        }
    }
}

impl JobExecutor {
    /// An executor with `concurrency` idle slots that claims under `lease`
    /// and retries a job for the first time after `backoff_base`.
    pub fn new(concurrency: usize, lease: u64, backoff_base: u64) -> (r: Self)
        ensures
            r@.wf(),
            r@.lease == lease,
            r@.backoff_base == backoff_base,
            !r@.stopping,
            r@.slots.len() == concurrency,
            forall|i: int| 0 <= i < concurrency ==> #[trigger] r@.slots[i] == SlotState::Idle,
    {
        let mut slots: Vec<SlotState> = Vec::new();
        let mut i: usize = 0;
        while i < concurrency
            invariant
                i <= concurrency,
                slots@.len() == i,
                forall|k: int| 0 <= k < i ==> #[trigger] slots@[k] == SlotState::Idle,
            decreases concurrency - i,
        {
            slots.push(SlotState::Idle);
            i += 1;
        }
        JobExecutor { slots, lease, backoff_base, stopping: false }
    }

    /// The number of slots.
    pub fn concurrency(&self) -> (r: usize)
        ensures
            r == self@.slots.len(),
    {
        self.slots.len()
    }

    /// The lease under which this executor claims.
    pub fn lease(&self) -> (r: u64)
        ensures
            r == self@.lease,
    {
        self.lease
    }

    /// Whether the executor has been told to stop.
    pub fn is_stopping(&self) -> (r: bool)
        ensures
            r == self@.stopping,
    {
        self.stopping
    }

    /// What the slot at `i` is doing.
    pub fn slot(&self, i: usize) -> (r: Option<SlotState>)
        ensures
            r == if i < self@.slots.len() {
                Some(self@.slots[i as int])
            } else {
                None
            },
    {
        if i < self.slots.len() {
            Some(self.slots[i])
        } else {
            None
        }
    }

    /// Whether some slot holds the lock of `repo`.
    pub fn is_locked(&self, repo: u64) -> (r: bool)
        ensures
            r == locked(self@.slots, repo),
    {
        let mut i: usize = 0;
        while i < self.slots.len()
            invariant
                i <= self.slots.len(),
                forall|k: int| 0 <= k < i ==> !holds_lock(#[trigger] self@.slots[k], repo),
            decreases self.slots.len() - i,
        {
            match self.slots[i] {
                SlotState::Running { job: _, repo: r } => {
                    if r == repo {
                        return true;
                    }
                },
                _ => {},
            }
            i += 1;
        }
        false
    }

    /// Whether every slot has left the pool.
    pub fn is_drained(&self) -> (r: bool)
        ensures
            r == forall|i: int|
                0 <= i < self@.slots.len() ==> (#[trigger] self@.slots[i]) is Exited,
    {
        let mut i: usize = 0;
        while i < self.slots.len()
            invariant
                i <= self.slots.len(),
                forall|k: int| 0 <= k < i ==> (#[trigger] self@.slots[k]) is Exited,
            decreases self.slots.len() - i,
        {
            match self.slots[i] {
                SlotState::Exited => {},
                _ => {
                    return false;
                },
            }
            i += 1;
        }
        true
    }

    /// Lets the idle slot `slot` look for work: it claims the claimable job
    /// with the lowest identifier, if there is one at `now`, and the action
    /// that comes back says how the job is to be run.
    ///
    /// A delta job is handed to the delta generator. Any other job runs
    /// against the repository backend under the lock of its repository; the
    /// slot waits for the lock while another slot holds it. A slot that has
    /// a job is told to wait, a slot that is not in the pool to exit, and
    /// neither changes anything.
    pub fn claim_and_run_one(&mut self, store: &mut JobStore, slot: usize, now: u64) -> (r:
        SlotAction)
        requires
            old(self)@.wf(),
            old(store).wf(),
            old(self)@.agrees(old(store)@),
        ensures
            final(self)@.wf(),
            final(store).wf(),
            final(self)@.agrees(final(store)@),
            final(store).next_id_spec() == old(store).next_id_spec(),
            slot >= old(self)@.slots.len() || old(self)@.slots[slot as int] is Exited ==> {
                &&& r == SlotAction::Exit
                &&& final(self)@ == old(self)@
                &&& final(store)@ == old(store)@
            },
            slot < old(self)@.slots.len() && slot_job(old(self)@.slots[slot as int]).is_some() ==> {
                &&& r == SlotAction::Wait
                &&& final(self)@ == old(self)@
                &&& final(store)@ == old(store)@
            },
            slot < old(self)@.slots.len() && old(self)@.slots[slot as int] is Idle
                && none_claimable(old(store)@, now) ==> {
                &&& r == SlotAction::Wait
                &&& final(self)@ == old(self)@
                &&& final(store)@ == old(store)@
            },
            slot < old(self)@.slots.len() && old(self)@.slots[slot as int] is Idle
                && !none_claimable(old(store)@, now) ==> exists|c: int|
                {
                    &&& #[trigger] first_claimable(old(store)@, c, now)
                    &&& final(store)@ == old(store)@.update(
                        c,
                        old(store)@[c].claimed(old(self)@.lease, now),
                    )
                    &&& final(self)@ == old(self)@.with_slot(
                        slot as int,
                        placement(old(store)@[c], old(self)@.slots),
                    )
                    &&& r == action_on(
                        placement(old(store)@[c], old(self)@.slots),
                        old(store)@[c],
                    )
                },
    {
        if slot >= self.slots.len() {
            return SlotAction::Exit;
        }
        match self.slots[slot] {
            SlotState::Exited => {
                return SlotAction::Exit;
            },
            SlotState::Idle => {},
            _ => {
                return SlotAction::Wait;
            },
        }
        if self.stopping {
            return SlotAction::Exit;
        }
        let id = match store.claim_next(self.lease, now) {
            Some(id) => id,
            None => {
                return SlotAction::Wait;
            },
        };
        let ghost before = old(store)@;
        let ghost c = index_of(before, id);
        proof {
            assert(is_job(before, c, id));
            assert(!none_claimable(before, now));
        }
        let job = match store.get(id) {
            Some(job) => job,
            None => {
                proof {
                    lemma_status_after_update(
                        before,
                        c,
                        before[c].claimed(self@.lease, now),
                        id,
                    );
                }
                return SlotAction::Wait;
            },
        };
        proof {
            lemma_status_after_update(before, c, before[c].claimed(self@.lease, now), id);
            lemma_index_of(store@, c);
        }
        let repo = job.kind.repo();
        let (state, action) = match &job.kind {
            JobKind::GenerateDelta { repo, source, target } => (
                SlotState::AwaitingDelta { job: id },
                SlotAction::RequestDelta {
                    request: DeltaRequest {
                        job: id,
                        repo: *repo,
                        source: source.clone(),
                        target: target.clone(),
                    },
                },
            ),
            _ => {
                if self.is_locked(repo) {
                    (
                        SlotState::AwaitingLock { job: id, repo },
                        SlotAction::AwaitLock { job: id, repo },
                    )
                } else {
                    (SlotState::Running { job: id, repo }, SlotAction::RunBackend { job: id, repo })
                }
            },
        };
        self.slots[slot] = state;
        proof {
            let st = old(self)@;
            let after = store@;
            assert(state == placement(before[c], st.slots));
            assert(action == action_on(state, before[c]));
            assert(self@.slots =~= st.slots.update(slot as int, state));
            assert(self@ == st.with_slot(slot as int, state));
            lemma_claim_keeps_agreement(st, before, slot as int, c, now);
        }
        action
    }
}

/// What the program is to do for a slot that is in `state` with `job`.
fn current_action(state: SlotState, job: &Job) -> (r: SlotAction)
    ensures
        r == action_on(state, *job),
{
    match state {
        SlotState::Idle => SlotAction::Wait,
        SlotState::AwaitingLock { job: j, repo } => SlotAction::AwaitLock { job: j, repo },
        SlotState::Running { job: j, repo } => SlotAction::RunBackend { job: j, repo },
        SlotState::AwaitingDelta { job: _ } => match &job.kind {
            JobKind::GenerateDelta { repo, source, target } => SlotAction::RequestDelta {
                request: DeltaRequest {
                    job: job.id,
                    repo: *repo,
                    source: source.clone(),
                    target: target.clone(),
                },
            },
            _ => SlotAction::Wait,
        },
        SlotState::Exited => SlotAction::Exit,
    }
}

impl JobExecutor {
    /// Lets the slot at `slot` go of its job and hands the lock that it
    /// held, if any, to the first slot that waits for it.
    fn vacate_slot(&mut self, slot: usize) -> (r: Option<Woken>)
        requires
            old(self)@.wf(),
            slot < old(self)@.slots.len(),
            slot_job(old(self)@.slots[slot as int]).is_some(),
        ensures
            final(self)@ == old(self)@.vacate(slot as int),
            r == old(self)@.woken(slot as int),
    {
        let state = self.slots[slot];
        let rest = if self.stopping {
            SlotState::Exited
        } else {
            SlotState::Idle
        };
        self.slots[slot] = rest;
        let repo = match state {
            SlotState::Running { job: _, repo } => repo,
            _ => {
                assert(self@.slots =~= old(self)@.slots.update(slot as int, rest));
                return None;
            },
        };
        let mut i: usize = 0;
        while i < self.slots.len()
            invariant
                i <= self.slots.len(),
                self@ == old(self)@.with_slot(slot as int, rest),
                slot < old(self)@.slots.len(),
                old(self)@.slots[slot as int] == state,
                state == (SlotState::Running { job: state->Running_job, repo }),
                rest == old(self)@.rest(),
                forall|j: int| 0 <= j < i ==> !awaits_lock(#[trigger] old(self)@.slots[j], repo),
            decreases self.slots.len() - i,
        {
            match self.slots[i] {
                SlotState::AwaitingLock { job, repo: r } => {
                    if r == repo {
                        proof {
                            assert(i != slot);
                            assert(old(self)@.slots[i as int] == self@.slots[i as int]);
                            assert(is_first_waiter(old(self)@.slots, i as int, repo));
                            lemma_first_waiter(old(self)@.slots, i as int, repo);
                        }
                        self.slots[i] = SlotState::Running { job, repo };
                        return Some(Woken { slot: i, job, repo });
                    }
                },
                _ => {},
            }
            proof {
                if i != slot {
                    assert(old(self)@.slots[i as int] == self@.slots[i as int]);
                }
            }
            i += 1;
        }
        proof {
            assert(no_waiter(old(self)@.slots, repo));
        }
        None
    }

    /// Records the end of what the slot at `slot` was doing for its job,
    /// and lets the slot go of the job unless the job is still `Started`.
    fn finish_slot(
        &mut self,
        store: &mut JobStore,
        slot: usize,
        job: u64,
        outcome: JobOutcome,
        now: u64,
    ) -> (r: Finished)
        requires
            old(self)@.wf(),
            old(store).wf(),
            old(self)@.agrees(old(store)@),
            slot < old(self)@.slots.len(),
            slot_job(old(self)@.slots[slot as int]) == Some(job),
        ensures
            final(self)@.wf(),
            final(store).wf(),
            final(self)@.agrees(final(store)@),
            final(store).next_id_spec() == old(store).next_id_spec(),
            finished_as(
                old(self)@,
                old(store)@,
                slot as int,
                outcome,
                now,
                final(self)@,
                final(store)@,
                r,
            ),
    {
        let state = self.slots[slot];
        let ghost st = self@;
        let ghost before = store@;
        let ghost c = index_of(before, job);
        let ghost target = before[c].after_attempt(outcome, now, st.backoff_base);
        proof {
            lemma_slot_row(st, before, slot as int);
            lemma_index_of(before, c);
        }
        let status = match store.finish(job, outcome, now, self.backoff_base) {
            Ok(status) => status,
            Err(_) => JobStatus::Started,
        };
        let ghost mid = before.update(c, target);
        let ghost after = store@;
        proof {
            assert forall|r: int| 0 <= r < before.len() implies (#[trigger] after[r]).id
                == before[r].id && (before[r].id != job && (leased(before[r], st.lease) || leased(
                after[r],
                st.lease,
            )) ==> after[r] == before[r]) by {
                lemma_propagation_rows(mid, after, now, r);
                if r != c {
                    assert(mid[r] == before[r]);
                } else {
                    lemma_index_of(before, r);
                }
            }
            lemma_propagation_rows(mid, after, now, c);
        }
        match status {
            JobStatus::Started => {
                proof {
                    assert(target == before[c]);
                    assert(mid =~= before);
                    assert(after[c] == before[c]);
                    assert forall|r: int| 0 <= r < before.len() implies (
                    #[trigger] before[r]).id == after[r].id by {
                        assert(after[r].id == before[r].id);
                    }
                    lemma_same_ids(before, after, job);
                    assert(st.slots_hold_leases(after)) by {
                        assert forall|i: int|
                            0 <= i < st.slots.len() && slot_job(
                                #[trigger] st.slots[i],
                            ).is_some() implies has_job(after, slot_job(st.slots[i]).unwrap())
                            && leased(
                            after[index_of(after, slot_job(st.slots[i]).unwrap())],
                            st.lease,
                        ) by {
                            let k = slot_job(st.slots[i]).unwrap();
                            lemma_slot_row(st, before, i);
                            lemma_same_ids(before, after, k);
                            let r = index_of(before, k);
                            if r != c {
                                assert(after[r] == before[r]);
                            }
                        }
                    }
                    assert(st.leases_have_slots(after)) by {
                        assert forall|r: int|
                            0 <= r < after.len() && leased(
                                #[trigger] after[r],
                                st.lease,
                            ) implies held_by(st.slots, after[r].id) by {
                            if r != c {
                                lemma_index_of(before, r);
                                assert(after[r] == before[r]);
                            }
                            assert(leased(before[r], st.lease));
                        }
                    }
                }
                let action = match store.get(job) {
                    Some(row) => current_action(state, row),
                    None => SlotAction::Wait,
                };
                proof {
                    lemma_index_of(after, c);
                }
                Finished { status, action, woken: None }
            },
            _ => {
                let woken = self.vacate_slot(slot);
                let action = if self.stopping {
                    SlotAction::Exit
                } else {
                    SlotAction::Wait
                };
                proof {
                    lemma_vacate(st, slot as int);
                    lemma_release_keeps_agreement(st, before, slot as int, self@, after);
                }
                Finished { status, action, woken }
            },
        }
    }

    /// Records how the attempt of the slot at `slot` at its job has ended,
    /// and says what the slot is to do next. The slot must be running its
    /// job or be waiting for the delta generator.
    ///
    /// The job table records the outcome as `JobStore::finish` does, with
    /// the backoff of this executor. Unless the attempt was cut short by an
    /// internal failure, the slot lets go of the job: it rests, and the
    /// lock that it held goes to the first slot that waits for it. After an
    /// internal failure the job is still `Started` and the slot is told to
    /// repeat the operation.
    pub fn attempt_finished(
        &mut self,
        store: &mut JobStore,
        slot: usize,
        outcome: JobOutcome,
        now: u64,
    ) -> (r: Result<Finished, ExecutorError>)
        requires
            old(self)@.wf(),
            old(store).wf(),
            old(self)@.agrees(old(store)@),
        ensures
            final(self)@.wf(),
            final(store).wf(),
            final(self)@.agrees(final(store)@),
            final(store).next_id_spec() == old(store).next_id_spec(),
            slot >= old(self)@.slots.len() ==> {
                &&& r == Err::<Finished, ExecutorError>(ExecutorError::NoSuchSlot)
                &&& final(self)@ == old(self)@
                &&& final(store)@ == old(store)@
            },
            slot < old(self)@.slots.len() && !(old(self)@.slots[slot as int] is Running || old(
                self,
            )@.slots[slot as int] is AwaitingDelta) ==> {
                &&& r == Err::<Finished, ExecutorError>(ExecutorError::WrongState)
                &&& final(self)@ == old(self)@
                &&& final(store)@ == old(store)@
            },
            slot < old(self)@.slots.len() && (old(self)@.slots[slot as int] is Running || old(
                self,
            )@.slots[slot as int] is AwaitingDelta) ==> {
                &&& r is Ok
                &&& finished_as(
                    old(self)@,
                    old(store)@,
                    slot as int,
                    outcome,
                    now,
                    final(self)@,
                    final(store)@,
                    r->Ok_0,
                )
            },
    {
        if slot >= self.slots.len() {
            return Err(ExecutorError::NoSuchSlot);
        }
        let job = match self.slots[slot] {
            SlotState::Running { job, repo: _ } => job,
            SlotState::AwaitingDelta { job } => job,
            _ => {
                return Err(ExecutorError::WrongState);
            },
        };
        Ok(self.finish_slot(store, slot, job, outcome, now))
    }

    /// Gives up the wait of the slot at `slot` for the lock of its
    /// repository, which has taken too long. Contention for a lock is a
    /// transient failure: the job goes back to `New` with a backoff while
    /// its retry count is below its bound, and ends in `Failure` otherwise.
    /// The slot rests.
    pub fn lock_wait_timed_out(&mut self, store: &mut JobStore, slot: usize, now: u64) -> (r:
        Result<Finished, ExecutorError>)
        requires
            old(self)@.wf(),
            old(store).wf(),
            old(self)@.agrees(old(store)@),
        ensures
            final(self)@.wf(),
            final(store).wf(),
            final(self)@.agrees(final(store)@),
            final(store).next_id_spec() == old(store).next_id_spec(),
            slot >= old(self)@.slots.len() ==> {
                &&& r == Err::<Finished, ExecutorError>(ExecutorError::NoSuchSlot)
                &&& final(self)@ == old(self)@
                &&& final(store)@ == old(store)@
            },
            slot < old(self)@.slots.len() && !(old(self)@.slots[slot as int] is AwaitingLock) ==> {
                &&& r == Err::<Finished, ExecutorError>(ExecutorError::WrongState)
                &&& final(self)@ == old(self)@
                &&& final(store)@ == old(store)@
            },
            slot < old(self)@.slots.len() && old(self)@.slots[slot as int] is AwaitingLock ==> {
                let c = index_of(old(store)@, slot_job(old(self)@.slots[slot as int]).unwrap());
                &&& r is Ok
                &&& is_lock_timeout(
                    old(store)@[c],
                    final(store)@[c],
                    now,
                    old(self)@.backoff_base,
                )
                &&& finished_to(
                    old(self)@,
                    old(store)@,
                    slot as int,
                    final(store)@[c],
                    now,
                    final(self)@,
                    final(store)@,
                    r->Ok_0,
                )
            },
    {
        if slot >= self.slots.len() {
            return Err(ExecutorError::NoSuchSlot);
        }
        let job = match self.slots[slot] {
            SlotState::AwaitingLock { job, repo: _ } => job,
            _ => {
                return Err(ExecutorError::WrongState);
            },
        };
        let detail = "timed out waiting for the repository lock".to_string();
        let outcome = JobOutcome::Failed { class: ErrorClass::Transient, detail };
        Ok(self.finish_slot(store, slot, job, outcome, now))
    }

    /// The first slot that has claimed `job`.
    pub fn slot_of(&self, job: u64) -> (r: Option<usize>)
        ensures
            match r {
                Some(i) => {
                    &&& i < self@.slots.len()
                    &&& slot_job(self@.slots[i as int]) == Some(job)
                    &&& forall|k: int|
                        0 <= k < i ==> slot_job(#[trigger] self@.slots[k]) != Some(job)
                },
                None => !held_by(self@.slots, job),
            },
    {
        let mut i: usize = 0;
        while i < self.slots.len()
            invariant
                i <= self.slots.len(),
                forall|k: int| 0 <= k < i ==> slot_job(#[trigger] self@.slots[k]) != Some(job),
            decreases self.slots.len() - i,
        {
            let held = match self.slots[i] {
                SlotState::AwaitingLock { job: j, repo: _ } => j == job,
                SlotState::Running { job: j, repo: _ } => j == job,
                SlotState::AwaitingDelta { job: j } => j == job,
                _ => false,
            };
            if held {
                return Some(i);
            }
            i += 1;
        }
        None
    }

    /// Whether the pool and the job table agree on what this executor has
    /// claimed: the job of every slot is `Started` under its lease, and
    /// every job that is `Started` under its lease is the job of a slot.
    pub fn agrees_with(&self, store: &JobStore) -> (r: bool)
        requires
            store.wf(),
        ensures
            r == self@.agrees(store@),
    {
        let mut i: usize = 0;
        while i < self.slots.len()
            invariant
                store.wf(),
                i <= self.slots.len(),
                forall|k: int|
                    0 <= k < i && slot_job(#[trigger] self@.slots[k]).is_some() ==> {
                        &&& has_job(store@, slot_job(self@.slots[k]).unwrap())
                        &&& leased(
                            store@[index_of(store@, slot_job(self@.slots[k]).unwrap())],
                            self@.lease,
                        )
                    },
            decreases self.slots.len() - i,
        {
            let held = match self.slots[i] {
                SlotState::AwaitingLock { job, repo: _ } => Some(job),
                SlotState::Running { job, repo: _ } => Some(job),
                SlotState::AwaitingDelta { job } => Some(job),
                _ => None,
            };
            match held {
                Some(job) => {
                    let ours = match store.get(job) {
                        Some(row) => {
                            let started = match row.status {
                                JobStatus::Started => true,
                                _ => false,
                            };
                            let owned = match row.lease {
                                Some(owner) => owner == self.lease,
                                None => false,
                            };
                            started && owned
                        },
                        None => false,
                    };
                    if !ours {
                        assert(slot_job(self@.slots[i as int]) == Some(job));
                        return false;
                    }
                },
                None => {},
            }
            i += 1;
        }
        let mut r: usize = 0;
        while r < store.len()
            invariant
                store.wf(),
                r <= store@.len(),
                self@.slots_hold_leases(store@),
                forall|q: int|
                    0 <= q < r && leased(#[trigger] store@[q], self@.lease) ==> held_by(
                        self@.slots,
                        store@[q].id,
                    ),
            decreases store@.len() - r,
        {
            let row = store.row(r);
            let started = match row.status {
                JobStatus::Started => true,
                _ => false,
            };
            let owned = match row.lease {
                Some(owner) => owner == self.lease,
                None => false,
            };
            if started && owned {
                match self.slot_of(row.id) {
                    Some(k) => {
                        assert(slot_job(self@.slots[k as int]) == Some(store@[r as int].id));
                    },
                    None => {
                        assert(leased(store@[r as int], self@.lease));
                        return false;
                    },
                }
            }
            r += 1;
        }
        true
    }

    /// The slots that have no job and may claim one, in ascending order:
    /// the slots to wake when a job has been submitted or has ended.
    pub fn idle_slots(&self) -> (r: Vec<usize>)
        ensures
            r@ == idle_places(self@.slots),
    {
        let mut idle: Vec<usize> = Vec::new();
        let mut i: usize = 0;
        while i < self.slots.len()
            invariant
                i <= self.slots.len(),
                idle@ == idle_places(self@.slots.take(i as int)),
            decreases self.slots.len() - i,
        {
            proof {
                assert(self@.slots.take(i + 1).drop_last() =~= self@.slots.take(i as int));
            }
            match self.slots[i] {
                SlotState::Idle => {
                    idle.push(i);
                },
                _ => {},
            }
            i += 1;
        }
        proof {
            assert(self@.slots.take(i as int) =~= self@.slots);
        }
        idle
    }

    /// Gives back the job that the slot at `slot` had handed to the delta
    /// generator, which has stopped before it answered: the job is `New`
    /// again with its retry count untouched, and the slot rests.
    pub fn delta_abandoned(&mut self, store: &mut JobStore, slot: usize) -> (r: Result<
        SlotAction,
        ExecutorError,
    >)
        requires
            old(self)@.wf(),
            old(store).wf(),
            old(self)@.agrees(old(store)@),
        ensures
            final(self)@.wf(),
            final(store).wf(),
            final(self)@.agrees(final(store)@),
            final(store).next_id_spec() == old(store).next_id_spec(),
            slot >= old(self)@.slots.len() ==> {
                &&& r == Err::<SlotAction, ExecutorError>(ExecutorError::NoSuchSlot)
                &&& final(self)@ == old(self)@
                &&& final(store)@ == old(store)@
            },
            slot < old(self)@.slots.len() && !(old(self)@.slots[slot as int] is AwaitingDelta) ==> {
                &&& r == Err::<SlotAction, ExecutorError>(ExecutorError::WrongState)
                &&& final(self)@ == old(self)@
                &&& final(store)@ == old(store)@
            },
            slot < old(self)@.slots.len() && old(self)@.slots[slot as int] is AwaitingDelta ==> {
                let c = index_of(old(store)@, slot_job(old(self)@.slots[slot as int]).unwrap());
                &&& r == Ok::<SlotAction, ExecutorError>(old(self)@.rest_action())
                &&& final(store)@ == old(store)@.update(c, old(store)@[c].released())
                &&& final(self)@ == old(self)@.vacate(slot as int)
            },
    {
        if slot >= self.slots.len() {
            return Err(ExecutorError::NoSuchSlot);
        }
        let job = match self.slots[slot] {
            SlotState::AwaitingDelta { job } => job,
            _ => {
                return Err(ExecutorError::WrongState);
            },
        };
        let ghost st = self@;
        let ghost before = store@;
        let ghost c = index_of(before, job);
        proof {
            lemma_slot_row(st, before, slot as int);
            lemma_index_of(before, c);
        }
        match store.release(job) {
            Ok(()) => {},
            Err(_) => {
                return Err(ExecutorError::WrongState);
            },
        }
        let _ = self.vacate_slot(slot);
        let action = if self.stopping {
            SlotAction::Exit
        } else {
            SlotAction::Wait
        };
        proof {
            let after = store@;
            lemma_vacate(st, slot as int);
            assert forall|r: int|
                0 <= r < before.len() && before[r].id != job && (leased(before[r], st.lease)
                    || leased(after[r], st.lease)) implies #[trigger] after[r] == before[r] by {
                if r == c {
                    lemma_index_of(before, r);
                }
            }
            lemma_release_keeps_agreement(st, before, slot as int, self@, after);
        }
        Ok(action)
    }

    /// Stops the executor. No slot claims from now on. A slot that waits
    /// for a lock or for the delta generator gives its job back, so that it
    /// is `New` again with its retry count untouched, and leaves the pool,
    /// as does every slot without a job. A slot that is running its job
    /// goes on to the end if the stop is graceful; if it is forceful, that
    /// job is given back as well and the slot leaves the pool.
    pub fn stop(&mut self, store: &mut JobStore, graceful: bool)
        requires
            old(self)@.wf(),
            old(store).wf(),
            old(self)@.agrees(old(store)@),
        ensures
            final(self)@.wf(),
            final(store).wf(),
            final(self)@.agrees(final(store)@),
            final(store).next_id_spec() == old(store).next_id_spec(),
            final(self)@ == old(self)@.on_stop(graceful),
            final(store)@.len() == old(store)@.len(),
            forall|r: int|
                0 <= r < old(store)@.len() ==> #[trigger] final(store)@[r] == if given_up(
                    old(self)@.slots,
                    old(store)@[r].id,
                    graceful,
                    old(self)@.slots.len() as int,
                ) {
                    old(store)@[r].released()
                } else {
                    old(store)@[r]
                },
    {
        let ghost st0 = self@;
        let ghost jobs0 = store@;
        let mut k: usize = 0;
        while k < self.slots.len()
            invariant
                st0 == old(self)@,
                jobs0 == old(store)@,
                st0.wf(),
                k <= self@.slots.len(),
                self@.slots.len() == st0.slots.len(),
                self@.lease == st0.lease,
                self@.backoff_base == st0.backoff_base,
                self@.stopping == st0.stopping,
                forall|i: int|
                    0 <= i < k ==> #[trigger] self@.slots[i] == stop_slot(st0.slots[i], graceful),
                forall|i: int|
                    k <= i < self@.slots.len() ==> #[trigger] self@.slots[i] == st0.slots[i],
                store.wf(),
                store.next_id_spec() == old(store).next_id_spec(),
                store@.len() == jobs0.len(),
                forall|r: int|
                    0 <= r < jobs0.len() ==> #[trigger] store@[r] == if given_up(
                        st0.slots,
                        jobs0[r].id,
                        graceful,
                        k as int,
                    ) {
                        jobs0[r].released()
                    } else {
                        jobs0[r]
                    },
                self@.jobs_distinct(),
                self@.agrees(store@),
            decreases self@.slots.len() - k,
        {
            let state = self.slots[k];
            let ghost st = self@;
            let ghost before = store@;
            let keep = match state {
                SlotState::Running { job: _, repo: _ } => graceful,
                _ => false,
            };
            let held = match state {
                SlotState::AwaitingLock { job, repo: _ } => Some(job),
                SlotState::Running { job, repo: _ } => Some(job),
                SlotState::AwaitingDelta { job } => Some(job),
                _ => None,
            };
            if keep {
                proof {
                    assert forall|r: int| 0 <= r < jobs0.len() implies given_up(
                        st0.slots,
                        jobs0[r].id,
                        graceful,
                        k + 1,
                    ) == given_up(st0.slots, (#[trigger] jobs0[r]).id, graceful, k as int) by {
                        lemma_given_up_step(st0.slots, jobs0[r].id, graceful, k as int);
                    }
                }
            } else {
                match held {
                    Some(job) => {
                        proof {
                            lemma_slot_row(st, before, k as int);
                        }
                        let released = store.release(job);
                        self.slots[k] = SlotState::Exited;
                        proof {
                            let after = store@;
                            let c = index_of(before, job);
                            lemma_index_of(before, c);
                            assert(released is Ok);
                            assert(self@.slots =~= st.slots.update(k as int, SlotState::Exited));
                            assert forall|r: int| 0 <= r < jobs0.len() implies (
                            #[trigger] before[r]).id == jobs0[r].id by {
                                assert(before[r] == if given_up(
                                    st0.slots,
                                    jobs0[r].id,
                                    graceful,
                                    k as int,
                                ) {
                                    jobs0[r].released()
                                } else {
                                    jobs0[r]
                                });
                            }
                            assert forall|r: int|
                                0 <= r < before.len() && before[r].id != job && (leased(
                                    before[r],
                                    st.lease,
                                ) || leased(after[r], st.lease)) implies #[trigger] after[r]
                                == before[r] by {
                                if r == c {
                                    lemma_index_of(before, r);
                                }
                            }
                            assert(self@.jobs_distinct()) by {
                                assert forall|a: int, b: int|
                                    0 <= a < self@.slots.len() && 0 <= b < self@.slots.len()
                                        && slot_job(#[trigger] self@.slots[a]).is_some()
                                        && slot_job(self@.slots[a]) == slot_job(
                                        #[trigger] self@.slots[b],
                                    ) implies a == b by {
                                    assert(a != k && b != k);
                                    assert(self@.slots[a] == st.slots[a]);
                                    assert(self@.slots[b] == st.slots[b]);
                                }
                            }
                            lemma_release_keeps_agreement(st, before, k as int, self@, after);
                            // the row of the job was untouched so far, and is released now
                            assert(!given_up(st0.slots, job, graceful, k as int)) by {
                                if given_up(st0.slots, job, graceful, k as int) {
                                    let i = choose|i: int|
                                        0 <= i < k && i < st0.slots.len() && slot_job(
                                            #[trigger] st0.slots[i],
                                        ) == Some(job) && gives_up(st0.slots[i], graceful);
                                    assert(slot_job(st0.slots[k as int]) == Some(job));
                                    assert(st0.jobs_distinct());
                                }
                            }
                            assert(before[c].id == jobs0[c].id);
                            assert(before[c] == jobs0[c]);
                            assert forall|r: int| 0 <= r < jobs0.len() implies #[trigger] after[r]
                                == if given_up(st0.slots, jobs0[r].id, graceful, k + 1) {
                                jobs0[r].released()
                            } else {
                                jobs0[r]
                            } by {
                                lemma_given_up_step(st0.slots, jobs0[r].id, graceful, k as int);
                                assert(before[r] == if given_up(
                                    st0.slots,
                                    jobs0[r].id,
                                    graceful,
                                    k as int,
                                ) {
                                    jobs0[r].released()
                                } else {
                                    jobs0[r]
                                });
                                if r == c {
                                    assert(slot_job(st0.slots[k as int]) == Some(jobs0[r].id));
                                } else {
                                    assert(after[r] == before[r]);
                                    if jobs0[r].id == job {
                                        assert(before[r].id == jobs0[r].id);
                                        lemma_index_of(before, r);
                                    }
                                }
                            }
                        }
                    },
                    None => {
                        self.slots[k] = SlotState::Exited;
                        proof {
                            assert(self@.slots =~= st.slots.update(k as int, SlotState::Exited));
                            assert forall|r: int| 0 <= r < jobs0.len() implies given_up(
                                st0.slots,
                                jobs0[r].id,
                                graceful,
                                k + 1,
                            ) == given_up(
                                st0.slots,
                                (#[trigger] jobs0[r]).id,
                                graceful,
                                k as int,
                            ) by {
                                lemma_given_up_step(st0.slots, jobs0[r].id, graceful, k as int);
                            }
                            assert(self@.jobs_distinct()) by {
                                assert forall|a: int, b: int|
                                    0 <= a < self@.slots.len() && 0 <= b < self@.slots.len()
                                        && slot_job(#[trigger] self@.slots[a]).is_some()
                                        && slot_job(self@.slots[a]) == slot_job(
                                        #[trigger] self@.slots[b],
                                    ) implies a == b by {
                                    assert(a != k && b != k);
                                    assert(self@.slots[a] == st.slots[a]);
                                    assert(self@.slots[b] == st.slots[b]);
                                }
                            }
                            assert(self@.slots_hold_leases(before)) by {
                                assert forall|i: int|
                                    0 <= i < self@.slots.len() && slot_job(
                                        #[trigger] self@.slots[i],
                                    ).is_some() implies has_job(
                                    before,
                                    slot_job(self@.slots[i]).unwrap(),
                                ) && leased(
                                    before[index_of(before, slot_job(self@.slots[i]).unwrap())],
                                    self@.lease,
                                ) by {
                                    assert(i != k);
                                    assert(self@.slots[i] == st.slots[i]);
                                    lemma_slot_row(st, before, i);
                                }
                            }
                            assert(self@.leases_have_slots(before)) by {
                                assert forall|r: int|
                                    0 <= r < before.len() && leased(
                                        #[trigger] before[r],
                                        self@.lease,
                                    ) implies held_by(self@.slots, before[r].id) by {
                                    assert(held_by(st.slots, before[r].id));
                                    let i = choose|i: int|
                                        0 <= i < st.slots.len() && slot_job(
                                            #[trigger] st.slots[i],
                                        ) == Some(before[r].id);
                                    assert(i != k);
                                    assert(slot_job(self@.slots[i]) == Some(before[r].id));
                                }
                            }
                        }
                    },
                }
            }
            k += 1;
        }
        self.stopping = true;
        proof {
            assert(self@.slots =~= st0.on_stop(graceful).slots);
            let st2 = self@;
            assert(st2.locks_exclusive()) by {
                assert forall|a: int, b: int|
                    0 <= a < st2.slots.len() && 0 <= b < st2.slots.len() && (
                    #[trigger] st2.slots[a]) is Running && (#[trigger] st2.slots[b]) is Running
                        && st2.slots[a]->Running_repo == st2.slots[b]->Running_repo implies a
                    == b by {
                    assert(st2.slots[a] == st0.slots[a]);
                    assert(st2.slots[b] == st0.slots[b]);
                }
            }
        }
    }
}

} // verus!
