//! What holds of the execution slots: locks are exclusive, a stop leaves no
//! job behind, and what others do to the job table does not disturb what
//! this executor has claimed.

use crate::executor::SlotState;
use crate::executor::state::{
    given_up, gives_up, held_by, holds_lock, lemma_slot_row, placement, slot_job, ExecutorState,
};
use crate::job::{Job, JobStatus};
use crate::store::laws::{lemma_transition_keeps_wf, transition, Transition};
use crate::store::table::{
    has_job, index_of, is_job, leased, lemma_attempt_row_settled, lemma_index_of,
    lemma_propagation_rows, recovered, table_wf,
};
use vstd::prelude::*;

verus! {

/// No two slots run against the same repository at a time: the lock of a
/// repository is held by one slot at most.
pub proof fn lemma_repository_lock_is_exclusive(st: ExecutorState, i: int, j: int)
    requires
        st.wf(),
        0 <= i < st.slots.len(),
        0 <= j < st.slots.len(),
        i != j,
        st.slots[i] is Running,
        st.slots[j] is Running,
    ensures
        st.slots[i]->Running_repo != st.slots[j]->Running_repo,
        st.slots[i]->Running_job != st.slots[j]->Running_job,
{
    assert(slot_job(st.slots[i]).is_some());
}

/// A job that has just been claimed runs against its repository only if no
/// slot holds the lock of that repository; otherwise its slot waits.
pub proof fn lemma_placement_respects_lock(job: Job, slots: Seq<SlotState>, i: int)
    requires
        0 <= i < slots.len(),
        slots[i] is Running,
        placement(job, slots) is Running,
    ensures
        slots[i]->Running_repo != placement(job, slots)->Running_repo,
{
    if slots[i]->Running_repo == job.kind.repo_spec() {
        assert(holds_lock(slots[i], job.kind.repo_spec()));
    }
}

/// After the order to stop, the jobs that are still `Started` under the
/// lease of the executor are those that a slot is running to the end:
/// none at all if the stop was forceful.
pub proof fn lemma_stop_leaves_only_running(
    st: ExecutorState,
    jobs: Seq<Job>,
    graceful: bool,
    after: Seq<Job>,
    r: int,
)
    requires
        st.agrees(jobs),
        after.len() == jobs.len(),
        forall|k: int|
            0 <= k < jobs.len() ==> #[trigger] after[k] == if given_up(
                st.slots,
                jobs[k].id,
                graceful,
                st.slots.len() as int,
            ) {
                jobs[k].released()
            } else {
                jobs[k]
            },
        0 <= r < after.len(),
        leased(after[r], st.lease),
    ensures
        graceful,
        exists|i: int|
            0 <= i < st.slots.len() && (#[trigger] st.on_stop(graceful).slots[i])
                == (SlotState::Running {
                job: after[r].id,
                repo: st.slots[i]->Running_repo,
            }),
{
    assert(after[r] == if given_up(st.slots, jobs[r].id, graceful, st.slots.len() as int) {
        jobs[r].released()
    } else {
        jobs[r]
    });
    assert(after[r] == jobs[r]);
    assert(held_by(st.slots, jobs[r].id));
    let i = choose|i: int|
        0 <= i < st.slots.len() && slot_job(#[trigger] st.slots[i]) == Some(jobs[r].id);
    assert(!gives_up(st.slots[i], graceful));
    assert(st.on_stop(graceful).slots[i] == st.slots[i]);
}

/// Once every slot has left the pool, no job is `Started` under the lease
/// of the executor.
pub proof fn lemma_drained_leaves_nothing_started(st: ExecutorState, jobs: Seq<Job>, r: int)
    requires
        st.agrees(jobs),
        forall|i: int| 0 <= i < st.slots.len() ==> (#[trigger] st.slots[i]) is Exited,
        0 <= r < jobs.len(),
    ensures
        !leased(jobs[r], st.lease),
{
    if leased(jobs[r], st.lease) {
        assert(held_by(st.slots, jobs[r].id));
        let i = choose|i: int|
            0 <= i < st.slots.len() && slot_job(#[trigger] st.slots[i]) == Some(jobs[r].id);
        assert(st.slots[i] is Exited);
    }
}

/// The transaction `t` leaves alone what the executor `st` has claimed: it
/// is a submission or a failure propagation, a claim under another lease,
/// the end or the release of a job that is not `Started` under the lease of
/// `st`, or a startup recovery for another lease, or for the lease of `st`
/// while none of its slots has a job.
pub open spec fn leaves_alone(t: Transition, st: ExecutorState, before: Seq<Job>) -> bool {
    match t {
        Transition::Submit { id, kind, deps, max_retries, now } => true,
        Transition::Propagate { now } => true,
        Transition::Claim { id, lease, now } => lease != st.lease,
        Transition::Finish { id, outcome, now, backoff_base } => !leased(
            before[index_of(before, id)],
            st.lease,
        ),
        Transition::Release { id } => !leased(before[index_of(before, id)], st.lease),
        Transition::Cleanup { lease } => lease != st.lease || forall|i: int|
            0 <= i < st.slots.len() ==> slot_job(#[trigger] st.slots[i]).is_none(),
    }
}

/// The old rows of `after` have the identifiers that they had in `before`,
/// no row that is or was `Started` under `lease` has changed, and no new
/// row is `Started` under `lease`.
pub open spec fn leases_kept(before: Seq<Job>, after: Seq<Job>, lease: u64) -> bool {
    &&& after.len() >= before.len()
    &&& forall|r: int| 0 <= r < before.len() ==> (#[trigger] after[r]).id == before[r].id
    &&& forall|r: int|
        0 <= r < before.len() && (leased(before[r], lease) || leased(after[r], lease))
            ==> #[trigger] after[r] == before[r]
    &&& forall|r: int| before.len() <= r < after.len() ==> !leased(#[trigger] after[r], lease)
}

/// The pool stays in agreement with a job table in which nothing has
/// happened to the jobs that are `Started` under its lease.
pub proof fn lemma_kept_leases_keep_agreement(st: ExecutorState, before: Seq<Job>, after: Seq<Job>)
    requires
        st.agrees(before),
        table_wf(after),
        leases_kept(before, after, st.lease),
    ensures
        st.agrees(after),
{
    assert(st.slots_hold_leases(after)) by {
        assert forall|i: int|
            0 <= i < st.slots.len() && slot_job(#[trigger] st.slots[i]).is_some() implies has_job(
            after,
            slot_job(st.slots[i]).unwrap(),
        ) && leased(after[index_of(after, slot_job(st.slots[i]).unwrap())], st.lease) by {
            let j = slot_job(st.slots[i]).unwrap();
            lemma_slot_row(st, before, i);
            let r = index_of(before, j);
            assert(after[r] == before[r]);
            assert(is_job(after, r, j));
            lemma_index_of(after, r);
        }
    }
    assert(st.leases_have_slots(after)) by {
        assert forall|r: int|
            0 <= r < after.len() && leased(#[trigger] after[r], st.lease) implies held_by(
            st.slots,
            after[r].id,
        ) by {
            assert(r < before.len());
            assert(after[r] == before[r]);
            assert(leased(before[r], st.lease));
        }
    }
}

/// A transaction that leaves alone what the executor has claimed keeps the
/// pool and the job table in agreement: other executors may share the
/// table, and jobs may be submitted while slots are busy.
pub proof fn lemma_other_transactions_keep_agreement(
    st: ExecutorState,
    before: Seq<Job>,
    t: Transition,
    after: Seq<Job>,
)
    requires
        table_wf(before),
        st.agrees(before),
        transition(before, t, after),
        leaves_alone(t, st, before),
    ensures
        table_wf(after),
        st.agrees(after),
{
    lemma_transition_keeps_wf(before, t, after);
    match t {
        Transition::Submit { id, kind, deps, max_retries, now } => {
            let pushed = before.push(Job::fresh(id, kind, deps, max_retries, now));
            assert forall|r: int| 0 <= r < after.len() implies (r < before.len() ==> (
            #[trigger] after[r]).id == before[r].id && (leased(before[r], st.lease) || leased(
                after[r],
                st.lease,
            ) ==> after[r] == before[r])) && (r >= before.len() ==> !leased(
                after[r],
                st.lease,
            )) by {
                lemma_propagation_rows(pushed, after, now, r);
            }
        },
        Transition::Propagate { now } => {
            assert forall|r: int| 0 <= r < before.len() implies (#[trigger] after[r]).id
                == before[r].id && (leased(before[r], st.lease) || leased(after[r], st.lease)
                ==> after[r] == before[r]) by {
                lemma_propagation_rows(before, after, now, r);
            }
        },
        Transition::Claim { id, lease, now } => {
            let c = index_of(before, id);
            assert(is_job(before, c, id));
        },
        Transition::Finish { id, outcome, now, backoff_base } => {
            let c = index_of(before, id);
            assert(is_job(before, c, id));
            lemma_index_of(before, c);
            let target = before[c].after_attempt(outcome, now, backoff_base);
            let mid = before.update(c, target);
            lemma_attempt_row_settled(before, c, target, after, now);
            assert forall|r: int| 0 <= r < before.len() implies (#[trigger] after[r]).id
                == before[r].id && (leased(before[r], st.lease) || leased(after[r], st.lease)
                ==> after[r] == before[r]) by {
                lemma_propagation_rows(mid, after, now, r);
            }
        },
        Transition::Release { id } => {
            let c = index_of(before, id);
            assert(is_job(before, c, id));
        },
        Transition::Cleanup { lease } => {
            assert forall|r: int| 0 <= r < before.len() implies (#[trigger] after[r]).id
                == before[r].id && (leased(before[r], st.lease) || leased(after[r], st.lease)
                ==> after[r] == before[r]) by {
                assert(after[r] == recovered(before[r], lease));
                if leased(before[r], st.lease) && lease == st.lease {
                    assert(held_by(st.slots, before[r].id));
                    let i = choose|i: int|
                        0 <= i < st.slots.len() && slot_job(#[trigger] st.slots[i]) == Some(
                            before[r].id,
                        );
                    assert(slot_job(st.slots[i]).is_none());
                }
            }
        },
    }
    lemma_kept_leases_keep_agreement(st, before, after);
}

} // verus!
