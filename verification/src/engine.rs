//! The lifecycle of the engine: what a process sets up before it takes work.

use crate::deltas::{DeltaGenerator, WorkerConnection};
use crate::deltas::state::GeneratorState;
use crate::executor::{JobExecutor, SlotState};
use crate::executor::state::slot_job;
use crate::executor::laws::lemma_other_transactions_keep_agreement;
use crate::job::{Job, JobKind, JobStatus};
use crate::store::laws::{transition, Transition};
use crate::store::{submit_refusal, StoreError};
use crate::protocol::DeltaRequest;
use crate::shutdown::{ShutdownCoordinator, ShutdownPhase};
use crate::store::JobStore;
use crate::store::table::{
    ids_below, is_propagation, leased, lemma_propagation_rows, recovered, status_of, table_wf,
};
use vstd::prelude::*;

verus! {

/// The settings of the engine.
#[derive(Clone, Copy, Debug, PartialEq, Eq)]
pub struct EngineConfig {
    /// The number of execution slots.
    pub concurrency: usize,
    /// The name under which this process claims jobs.
    pub lease: u64,
    /// The delay before the first retry of a job; it doubles with every
    /// further retry.
    pub backoff_base: u64,
    /// How many delta requests may wait for a worker.
    pub delta_queue_capacity: usize,
    /// How long a delta request may be with a worker.
    pub delta_timeout: u64,
    /// Whether deltas are computed in this process while no worker is
    /// connected.
    pub local_delta_fallback: bool,
    /// The bound, in milliseconds, on each drain of a graceful shutdown.
    pub drain_millis: u32,
    /// The fixed wait, in milliseconds, before the process ends.
    pub quiescence_millis: u32,
}

/// Why the engine did not start.
#[derive(Clone, Copy, Debug, PartialEq, Eq, Structural)]
pub enum StartError {
    /// The settings name no execution slot.
    NoSlots,
    /// The rows read from the store do not make a well-formed table.
    MalformedTable,
}

/// The parts of a running engine.
pub struct Engine {
    pub store: JobStore,
    pub executor: JobExecutor,
    pub delta_generator: DeltaGenerator,
    pub shutdown: ShutdownCoordinator,
}

impl Engine {
    /// Every part is well formed, and the executor and the job table agree
    /// on what the executor has claimed.
    pub open spec fn wf(&self) -> bool {
        &&& self.store.wf()
        &&& self.executor@.wf()
        &&& self.executor@.agrees(self.store@)
        &&& self.delta_generator@.wf()
    }

    /// Inserts a job, as `JobStore::submit` does, and returns its
    /// identifier. What the slots are doing is not touched.
    pub fn submit(&mut self, kind: JobKind, deps: Vec<u64>, max_retries: u32, now: u64) -> (r:
        Result<u64, StoreError>)
        requires
            old(self).wf(),
        ensures
            final(self).wf(),
            final(self).executor@ == old(self).executor@,
            final(self).delta_generator@ == old(self).delta_generator@,
            final(self).shutdown == old(self).shutdown,
            match r {
                Ok(id) => {
                    &&& submit_refusal(
                        old(self).store@,
                        old(self).store.next_id_spec(),
                        deps@,
                    ).is_none()
                    &&& id == old(self).store.next_id_spec()
                    &&& final(self).store.next_id_spec() == id + 1
                    &&& transition(
                        old(self).store@,
                        Transition::Submit { id, kind, deps, max_retries, now },
                        final(self).store@,
                    )
                },
                Err(e) => {
                    &&& submit_refusal(old(self).store@, old(self).store.next_id_spec(), deps@)
                        == Some(e)
                    &&& final(self).store@ == old(self).store@
                    &&& final(self).store.next_id_spec() == old(self).store.next_id_spec()
                },
            },
    {
        let r = self.store.submit(kind, deps, max_retries, now);
        proof {
            if r is Ok {
                lemma_other_transactions_keep_agreement(
                    self.executor@,
                    old(self).store@,
                    Transition::Submit { id: r->Ok_0, kind, deps, max_retries, now },
                    self.store@,
                );
            }
        }
        r
    }

    /// The status of the job `id`.
    pub fn status(&self, id: u64) -> (r: Option<JobStatus>)
        requires
            self.wf(),
        ensures
            r == status_of(self.store@, id),
    {
        self.store.status(id)
    }
}

/// `after` is `jobs` after the startup recovery of the executor `lease` at
/// `now`: every job that was `Started` under the lease is `New` again, and
/// after that failures have been propagated along the dependencies.
pub open spec fn is_recovery(jobs: Seq<Job>, lease: u64, after: Seq<Job>, now: u64) -> bool {
    is_propagation(Seq::new(jobs.len(), |i: int| recovered(jobs[i], lease)), after, now)
}

/// The delta generator of a process that starts: no worker, no request.
pub fn start_delta_generator(config: &EngineConfig) -> (r: DeltaGenerator)
    ensures
        r@.wf(),
        r@ == (GeneratorState {
            pending: Seq::<DeltaRequest>::empty(),
            workers: Seq::<WorkerConnection>::empty(),
            next_seq: 0,
            stopping: false,
            capacity: config.delta_queue_capacity,
            timeout: config.delta_timeout,
            local_fallback: config.local_delta_fallback,
        }),
{
    DeltaGenerator::new(
        config.delta_queue_capacity,
        config.delta_timeout,
        config.local_delta_fallback,
    )
}

/// The job executor of a process that starts. Before any slot may claim,
/// the jobs that a previous incarnation of the process left `Started` under
/// its lease are reset to `New`, and failures are propagated along the
/// dependencies.
pub fn start_job_queue(config: &EngineConfig, store: &mut JobStore, now: u64) -> (r: JobExecutor)
    requires
        old(store).wf(),
    ensures
        final(store).wf(),
        final(store).next_id_spec() == old(store).next_id_spec(),
        is_recovery(old(store)@, config.lease, final(store)@, now),
        forall|i: int|
            0 <= i < final(store)@.len() ==> !leased(#[trigger] final(store)@[i], config.lease),
        r@.wf(),
        r@.agrees(final(store)@),
        r@.lease == config.lease,
        r@.backoff_base == config.backoff_base,
        !r@.stopping,
        r@.slots.len() == config.concurrency,
        forall|i: int| 0 <= i < config.concurrency ==> #[trigger] r@.slots[i] == SlotState::Idle,
{
    let _ = store.cleanup_started_jobs(config.lease);
    let ghost cleaned = store@;
    store.propagate_failures(now);
    let executor = JobExecutor::new(config.concurrency, config.lease, config.backoff_base);
    proof {
        assert(cleaned =~= Seq::new(
            old(store)@.len(),
            |i: int|
                recovered(old(store)@[i], config.lease),
        ));
        assert forall|i: int| 0 <= i < store@.len() implies !leased(
            #[trigger] store@[i],
            config.lease,
        ) by {
            lemma_propagation_rows(cleaned, store@, now, i);
        }
        assert(executor@.agrees(store@)) by {
            assert forall|i: int|
                0 <= i < executor@.slots.len() implies slot_job(
                #[trigger] executor@.slots[i],
            ).is_none() by {
                assert(executor@.slots[i] == SlotState::Idle);
            }
        }
    }
    executor
}

/// Starts the engine on the rows `jobs` read from the persistent store.
///
/// The rows must make a well-formed table and the settings must name at
/// least one execution slot. The engine that comes back has gone through
/// startup recovery: no job is `Started` under its lease, every slot is
/// idle, the delta generator has neither workers nor requests, and the
/// shutdown coordinator is running.
pub fn start(config: &EngineConfig, jobs: Vec<Job>, now: u64) -> (r: Result<Engine, StartError>)
    ensures
        match r {
            Ok(engine) => {
                &&& config.concurrency > 0
                &&& table_wf(jobs@)
                &&& ids_below(jobs@, u64::MAX)
                &&& engine.wf()
                &&& is_recovery(jobs@, config.lease, engine.store@, now)
                &&& forall|i: int|
                    0 <= i < engine.store@.len() ==> !leased(
                        #[trigger] engine.store@[i],
                        config.lease,
                    )
                &&& engine.executor@.lease == config.lease
                &&& engine.executor@.backoff_base == config.backoff_base
                &&& !engine.executor@.stopping
                &&& engine.executor@.slots.len() == config.concurrency
                &&& forall|i: int|
                    0 <= i < config.concurrency ==> #[trigger] engine.executor@.slots[i]
                        == SlotState::Idle
                &&& engine.delta_generator@ == (GeneratorState {
                    pending: Seq::<DeltaRequest>::empty(),
                    workers: Seq::<WorkerConnection>::empty(),
                    next_seq: 0,
                    stopping: false,
                    capacity: config.delta_queue_capacity,
                    timeout: config.delta_timeout,
                    local_fallback: config.local_delta_fallback,
                })
                &&& engine.shutdown.phase_spec() == ShutdownPhase::Running
                &&& engine.shutdown.drain_spec() == config.drain_millis
                &&& engine.shutdown.quiescence_spec() == config.quiescence_millis
            },
            Err(e) => e == if config.concurrency == 0 {
                StartError::NoSlots
            } else {
                StartError::MalformedTable
            } && (config.concurrency == 0 || !(table_wf(jobs@) && ids_below(jobs@, u64::MAX))),
        },
{
    if config.concurrency == 0 {
        return Err(StartError::NoSlots);
    }
    let mut store = match JobStore::from_jobs(jobs) {
        Ok(store) => store,
        Err(_) => {
            return Err(StartError::MalformedTable);
        },
    };
    let delta_generator = start_delta_generator(config);
    let executor = start_job_queue(config, &mut store, now);
    let shutdown = ShutdownCoordinator::new(config.drain_millis, config.quiescence_millis);
    Ok(Engine { store, executor, delta_generator, shutdown })
}

} // verus!
