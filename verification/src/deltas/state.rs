//! The state of the delta generator and what each event makes of it.

use crate::deltas::{DeltaEffect, InFlight, WorkerConnection};
use crate::errors::DeltaGenerationError;
use crate::protocol::{request_message, DeltaRequest, RemoteServerMessage};
use vstd::prelude::*;

verus! {

/// The state of the generator.
pub struct GeneratorState {
    /// The requests that wait for a worker, the oldest first.
    pub pending: Seq<DeltaRequest>,
    /// The connected workers in the order in which they connected.
    pub workers: Seq<WorkerConnection>,
    /// The sequence number of the next request that is sent.
    pub next_seq: u64,
    /// Whether the generator has been told to stop.
    pub stopping: bool,
    /// How many requests may wait before a new one is turned away.
    pub capacity: usize,
    /// How long a request may be with a worker.
    pub timeout: u64,
    /// Whether deltas are computed in this process while no worker is
    /// connected.
    pub local_fallback: bool,
}

/// The worker has no request.
pub open spec fn idle(w: WorkerConnection) -> bool {
    w.in_flight.is_none()
}

/// Some worker has no request.
pub open spec fn has_idle(workers: Seq<WorkerConnection>) -> bool {
    exists|i: int| 0 <= i < workers.len() && idle(#[trigger] workers[i])
}

/// The worker at `i` is the first that has no request.
pub open spec fn is_first_idle(workers: Seq<WorkerConnection>, i: int) -> bool {
    &&& 0 <= i < workers.len()
    &&& idle(workers[i])
    &&& forall|j: int| 0 <= j < i ==> !idle(#[trigger] workers[j])
}

/// No two workers are without a request.
pub open spec fn at_most_one_idle(workers: Seq<WorkerConnection>) -> bool {
    forall|a: int, b: int|
        0 <= a < workers.len() && 0 <= b < workers.len() && idle(#[trigger] workers[a]) && idle(
            #[trigger] workers[b],
        ) ==> a == b
}

/// The place of the first worker that has no request.
pub open spec fn first_idle(workers: Seq<WorkerConnection>) -> int {
    choose|i: int| is_first_idle(workers, i)
}

/// The worker at `i` has the connection `conn`.
pub open spec fn is_worker(workers: Seq<WorkerConnection>, i: int, conn: u64) -> bool {
    0 <= i < workers.len() && workers[i].id == conn
}

/// The connection `conn` is registered.
pub open spec fn has_worker(workers: Seq<WorkerConnection>, conn: u64) -> bool {
    exists|i: int| is_worker(workers, i, conn)
}

/// The place of the worker with the connection `conn`.
pub open spec fn worker_index(workers: Seq<WorkerConnection>, conn: u64) -> int {
    choose|i: int| is_worker(workers, i, conn)
}

/// No connection is registered twice.
pub open spec fn distinct_connections(workers: Seq<WorkerConnection>) -> bool {
    forall|i: int, j: int| 0 <= i < j < workers.len() ==> workers[i].id != workers[j].id
}

/// The request has been with its worker for longer than `timeout`.
pub open spec fn overdue(w: WorkerConnection, now: u64, timeout: u64) -> bool {
    match w.in_flight {
        Some(f) => now > f.sent_at && now - f.sent_at > timeout,
        None => false,
    }
}

/// The workers whose requests are not overdue, in their order.
pub open spec fn surviving(workers: Seq<WorkerConnection>, now: u64, timeout: u64) -> Seq<
    WorkerConnection,
>
    decreases workers.len(),
{
    if workers.len() == 0 {
        Seq::<WorkerConnection>::empty()
    } else if overdue(workers.last(), now, timeout) {
        surviving(workers.drop_last(), now, timeout)
    } else {
        surviving(workers.drop_last(), now, timeout).push(workers.last())
    }
}

/// For every worker whose request is overdue, in their order: the request
/// fails with a timeout and the connection is closed.
pub open spec fn expiry_effects(workers: Seq<WorkerConnection>, now: u64, timeout: u64) -> Seq<
    DeltaEffect,
>
    decreases workers.len(),
{
    if workers.len() == 0 {
        Seq::<DeltaEffect>::empty()
    } else if overdue(workers.last(), now, timeout) {
        expiry_effects(workers.drop_last(), now, timeout).push(
            DeltaEffect::Completed {
                job: workers.last().in_flight.unwrap().request.job,
                result: Err(DeltaGenerationError::Timeout),
            },
        ).push(DeltaEffect::Close { conn: workers.last().id })
    } else {
        expiry_effects(workers.drop_last(), now, timeout)
    }
}

/// For every worker, in their order: its request, if it has one, is
/// abandoned, and the connection is closed.
pub open spec fn dismissal_effects(workers: Seq<WorkerConnection>) -> Seq<DeltaEffect>
    decreases workers.len(),
{
    if workers.len() == 0 {
        Seq::<DeltaEffect>::empty()
    } else {
        match workers.last().in_flight {
            Some(f) => dismissal_effects(workers.drop_last()).push(
                DeltaEffect::Abandoned { job: f.request.job },
            ).push(DeltaEffect::Close { conn: workers.last().id }),
            None => dismissal_effects(workers.drop_last()).push(
                DeltaEffect::Close { conn: workers.last().id },
            ),
        }
    }
}

/// Every waiting request, the oldest first, is abandoned.
pub open spec fn abandon_effects(pending: Seq<DeltaRequest>) -> Seq<DeltaEffect> {
    Seq::new(pending.len(), |i: int| DeltaEffect::Abandoned { job: pending[i].job })
}

impl GeneratorState {
    /// What must hold of the generator between events.
    pub open spec fn wf(self) -> bool {
        &&& distinct_connections(self.workers)
        &&& forall|i: int|
            0 <= i < self.workers.len() && (#[trigger] self.workers[i]).in_flight.is_some()
                ==> self.workers[i].in_flight.unwrap().seq < self.next_seq
        &&& self.stopping ==> self.pending.len() == 0 && self.workers.len() == 0
        &&& self.can_send() && self.pending.len() > 0 ==> !has_idle(self.workers)
        &&& self.computes_locally() ==> self.pending.len() == 0
    }

    /// The generator may still send requests to workers: it has not been
    /// told to stop and has a sequence number left.
    pub open spec fn can_send(self) -> bool {
        !self.stopping && self.next_seq < u64::MAX
    }

    /// The head of the queue can go to a worker now.
    pub open spec fn can_assign(self) -> bool {
        self.can_send() && self.pending.len() > 0 && has_idle(self.workers)
    }

    /// The state after the head of the queue has gone to the first idle
    /// worker, where that can be done.
    pub open spec fn assign(self, now: u64) -> GeneratorState {
        if self.can_assign() {
            let i = first_idle(self.workers);
            GeneratorState {
                pending: self.pending.drop_first(),
                workers: self.workers.update(
                    i,
                    WorkerConnection {
                        id: self.workers[i].id,
                        in_flight: Some(
                            InFlight { seq: self.next_seq, sent_at: now, request: self.pending[0] },
                        ),
                    },
                ),
                next_seq: (self.next_seq + 1) as u64,
                ..self
            }
        } else {
            self
        }
    }

    /// The message that goes out when the head of the queue goes to the
    /// first idle worker.
    pub open spec fn assign_effects(self) -> Seq<DeltaEffect> {
        if self.can_assign() {
            seq![
                DeltaEffect::Send {
                    conn: self.workers[first_idle(self.workers)].id,
                    message: request_message(self.next_seq, self.pending[0]),
                },
            ]
        } else {
            Seq::<DeltaEffect>::empty()
        }
    }

    /// The request is computed in this process: the generator may still
    /// take requests, no worker is connected, and the fallback is on.
    pub open spec fn computes_locally(self) -> bool {
        !self.stopping && self.workers.len() == 0 && self.local_fallback
    }

    /// The request is turned away: the generator has been told to stop, or
    /// no worker can take the request now and the queue is full.
    pub open spec fn turns_away(self) -> bool {
        self.stopping || (!self.computes_locally() && self.pending.len() >= self.capacity && !(
        self.can_send() && has_idle(self.workers)))
    }

    /// The state with `request` at the end of the queue.
    pub open spec fn enqueue(self, request: DeltaRequest) -> GeneratorState {
        GeneratorState { pending: self.pending.push(request), ..self }
    }

    /// The state after `request` has come in at `now`.
    pub open spec fn on_request(self, request: DeltaRequest, now: u64) -> GeneratorState {
        if self.turns_away() || self.computes_locally() {
            self
        } else {
            self.enqueue(request).assign(now)
        }
    }

    /// What comes of the request: an error if it is turned away, and else
    /// what is to be done for it at once.
    pub open spec fn request_result(self, request: DeltaRequest) -> Result<
        Seq<DeltaEffect>,
        DeltaGenerationError,
    > {
        if self.turns_away() {
            Err(DeltaGenerationError::WorkerUnavailable)
        } else if self.computes_locally() {
            Ok(seq![DeltaEffect::ComputeLocally { request }])
        } else {
            Ok(self.enqueue(request).assign_effects())
        }
    }

    /// The state with a new idle worker on the connection `conn`.
    pub open spec fn register(self, conn: u64) -> GeneratorState {
        GeneratorState {
            workers: self.workers.push(WorkerConnection { id: conn, in_flight: None }),
            ..self
        }
    }

    /// The state after a worker has connected on `conn` at `now`. A
    /// generator that has been told to stop takes no worker, and a
    /// connection that is registered already is not registered again.
    pub open spec fn on_connect(self, conn: u64, now: u64) -> GeneratorState {
        if self.stopping || has_worker(self.workers, conn) {
            self
        } else {
            self.register(conn).assign(now)
        }
    }

    pub open spec fn connect_effects(self, conn: u64) -> Seq<DeltaEffect> {
        if self.stopping {
            seq![DeltaEffect::Close { conn }]
        } else if has_worker(self.workers, conn) {
            Seq::<DeltaEffect>::empty()
        } else {
            self.register(conn).assign_effects()
        }
    }

    /// The state without the worker on `conn`; the request that it had, if
    /// any, stands at the head of the queue again.
    pub open spec fn unregister(self, conn: u64) -> GeneratorState {
        let i = worker_index(self.workers, conn);
        GeneratorState {
            workers: self.workers.remove(i),
            pending: match self.workers[i].in_flight {
                Some(f) => self.pending.insert(0, f.request),
                None => self.pending,
            },
            ..self
        }
    }

    /// The state after the waiting requests have been handed over to be
    /// computed in this process, where that is how requests are served.
    pub open spec fn fall_back(self) -> GeneratorState {
        if self.computes_locally() {
            GeneratorState { pending: Seq::<DeltaRequest>::empty(), ..self }
        } else {
            self
        }
    }

    /// The waiting requests, the oldest first, handed over to be computed
    /// in this process, where that is how requests are served.
    pub open spec fn fall_back_effects(self) -> Seq<DeltaEffect> {
        if self.computes_locally() {
            Seq::new(
                self.pending.len(),
                |i: int| DeltaEffect::ComputeLocally { request: self.pending[i] },
            )
        } else {
            Seq::<DeltaEffect>::empty()
        }
    }

    /// The state after the worker on `conn` has unregistered or its
    /// connection has broken at `now`. Where it was the last worker and the
    /// local fallback is on, the requests that wait are computed in this
    /// process; where a worker is left, the head of the queue goes to the
    /// first idle one.
    pub open spec fn on_disconnect(self, conn: u64, now: u64) -> GeneratorState {
        if has_worker(self.workers, conn) {
            if self.unregister(conn).computes_locally() {
                self.unregister(conn).fall_back()
            } else {
                self.unregister(conn).assign(now)
            }
        } else {
            self
        }
    }

    pub open spec fn disconnect_effects(self, conn: u64) -> Seq<DeltaEffect> {
        if has_worker(self.workers, conn) {
            if self.unregister(conn).computes_locally() {
                self.unregister(conn).fall_back_effects()
            } else {
                self.unregister(conn).assign_effects()
            }
        } else {
            Seq::<DeltaEffect>::empty()
        }
    }

    /// The message answers the request that the worker on `conn` has: the
    /// connection is registered, it has a request, and the message refers
    /// to the sequence number of that request.
    pub open spec fn matches_in_flight(self, conn: u64, message: RemoteServerMessage) -> bool {
        &&& has_worker(self.workers, conn)
        &&& self.workers[worker_index(self.workers, conn)].in_flight.is_some()
        &&& self.workers[worker_index(self.workers, conn)].in_flight.unwrap().seq
            == message.seq_spec()
    }

    /// The state with the worker on `conn` idle.
    pub open spec fn settle(self, conn: u64) -> GeneratorState {
        let i = worker_index(self.workers, conn);
        GeneratorState {
            workers: self.workers.update(i, WorkerConnection { id: conn, in_flight: None }),
            ..self
        }
    }

    /// The state after `message` has come in on `conn` at `now`. A message
    /// that answers no request of that worker changes nothing.
    pub open spec fn on_message(
        self,
        conn: u64,
        message: RemoteServerMessage,
        now: u64,
    ) -> GeneratorState {
        if self.matches_in_flight(conn, message) {
            self.settle(conn).assign(now)
        } else {
            self
        }
    }

    pub open spec fn message_effects(self, conn: u64, message: RemoteServerMessage) -> Seq<
        DeltaEffect,
    > {
        if self.matches_in_flight(conn, message) {
            seq![
                DeltaEffect::Completed {
                    job: self.workers[worker_index(
                        self.workers,
                        conn,
                    )].in_flight.unwrap().request.job,
                    result: message->outcome.result_spec(),
                },
            ] + self.settle(conn).assign_effects()
        } else {
            Seq::<DeltaEffect>::empty()
        }
    }

    /// The state with the workers dropped whose requests are overdue at
    /// `now`.
    pub open spec fn drop_overdue(self, now: u64) -> GeneratorState {
        GeneratorState { workers: surviving(self.workers, now, self.timeout), ..self }
    }

    /// The state after the requests that are overdue at `now` have been
    /// failed and their workers dropped. Where no worker is left and the
    /// local fallback is on, the requests that wait are computed in this
    /// process.
    pub open spec fn on_expire(self, now: u64) -> GeneratorState {
        self.drop_overdue(now).fall_back()
    }

    pub open spec fn expire_effects(self, now: u64) -> Seq<DeltaEffect> {
        expiry_effects(self.workers, now, self.timeout) + self.drop_overdue(
            now,
        ).fall_back_effects()
    }

    /// The state after the order to stop: nothing waits, no worker is
    /// left, and nothing is taken any more.
    pub open spec fn on_stop(self) -> GeneratorState {
        GeneratorState {
            pending: Seq::<DeltaRequest>::empty(),
            workers: Seq::<WorkerConnection>::empty(),
            stopping: true,
            ..self
        }
    }

    pub open spec fn stop_effects(self) -> Seq<DeltaEffect> {
        dismissal_effects(self.workers) + abandon_effects(self.pending)
    }
}

/// The first idle worker is the only one that is first.
pub proof fn lemma_first_idle(workers: Seq<WorkerConnection>, i: int)
    requires
        is_first_idle(workers, i),
    ensures
        has_idle(workers),
        first_idle(workers) == i,
{
    let c = first_idle(workers);
    assert(is_first_idle(workers, c));
    if c < i {
        assert(!idle(workers[c]));
    } else if i < c {
        assert(!idle(workers[i]));
    }
}

/// Among distinct connections a connection stands in one place only.
pub proof fn lemma_worker_index(workers: Seq<WorkerConnection>, i: int)
    requires
        distinct_connections(workers),
        0 <= i < workers.len(),
    ensures
        has_worker(workers, workers[i].id),
        worker_index(workers, workers[i].id) == i,
{
    assert(is_worker(workers, i, workers[i].id));
    let c = worker_index(workers, workers[i].id);
    assert(is_worker(workers, c, workers[i].id));
}

/// The workers that survive an expiry are workers that were there, none of
/// them overdue, none of them there twice; and no idle worker is lost.
pub proof fn lemma_surviving(workers: Seq<WorkerConnection>, now: u64, timeout: u64)
    ensures
        surviving(workers, now, timeout).len() <= workers.len(),
        forall|k: int|
            0 <= k < surviving(workers, now, timeout).len() ==> exists|i: int|
                0 <= i < workers.len() && workers[i] == #[trigger] surviving(
                    workers,
                    now,
                    timeout,
                )[k],
        forall|k: int|
            0 <= k < surviving(workers, now, timeout).len() ==> !overdue(
                #[trigger] surviving(workers, now, timeout)[k],
                now,
                timeout,
            ),
        distinct_connections(workers) ==> distinct_connections(surviving(workers, now, timeout)),
        has_idle(surviving(workers, now, timeout)) == has_idle(workers),
    decreases workers.len(),
{
    let s = surviving(workers, now, timeout);
    if workers.len() > 0 {
        let init = workers.drop_last();
        let si = surviving(init, now, timeout);
        lemma_surviving(init, now, timeout);
        assert forall|k: int| 0 <= k < s.len() implies exists|i: int|
            0 <= i < workers.len() && workers[i] == #[trigger] s[k] by {
            if k < si.len() {
                assert(s[k] == si[k]);
                let i = choose|i: int| 0 <= i < init.len() && init[i] == si[k];
                assert(workers[i] == s[k]);
            } else {
                assert(workers[workers.len() - 1] == s[k]);
            }
        }
        if distinct_connections(workers) {
            assert(distinct_connections(init)) by {
                assert forall|a: int, b: int| 0 <= a < b < init.len() implies init[a].id
                    != init[b].id by {
                    assert(workers[a].id != workers[b].id);
                }
            }
            assert forall|a: int, b: int| 0 <= a < b < s.len() implies s[a].id != s[b].id by {
                if b < si.len() {
                    assert(si[a].id != si[b].id);
                } else {
                    let i = choose|i: int| 0 <= i < init.len() && init[i] == si[a];
                    assert(workers[i].id != workers[workers.len() - 1].id);
                }
            }
        }
        if has_idle(workers) {
            let i = choose|i: int| 0 <= i < workers.len() && idle(#[trigger] workers[i]);
            if i < init.len() {
                assert(idle(init[i]));
                let k = choose|k: int| 0 <= k < si.len() && idle(#[trigger] si[k]);
                assert(idle(s[k]));
            } else {
                assert(idle(s[s.len() - 1]));
            }
        }
        if has_idle(s) {
            let k = choose|k: int| 0 <= k < s.len() && idle(#[trigger] s[k]);
            let i = choose|i: int| 0 <= i < workers.len() && workers[i] == s[k];
            assert(idle(workers[i]));
        }
    }
}

/// Where a worker is idle, one of them is the first.
pub proof fn lemma_has_first_idle(workers: Seq<WorkerConnection>, k: int)
    requires
        0 <= k < workers.len(),
        idle(workers[k]),
    ensures
        exists|i: int| is_first_idle(workers, i),
    decreases k,
{
    if exists|j: int| 0 <= j < k && idle(#[trigger] workers[j]) {
        let j = choose|j: int| 0 <= j < k && idle(#[trigger] workers[j]);
        lemma_has_first_idle(workers, j);
    } else {
        assert(is_first_idle(workers, k));
    }
}

/// Handing the head of the queue to a worker leaves every connection in
/// its place and every worker that had a request with that request; the
/// request handed out goes under the next sequence number.
pub proof fn lemma_assign_workers(s: GeneratorState, now: u64)
    ensures
        s.assign(now).workers.len() == s.workers.len(),
        s.can_assign() ==> is_first_idle(s.workers, first_idle(s.workers)),
        forall|k: int|
            0 <= k < s.workers.len() ==> (#[trigger] s.assign(now).workers[k]).id
                == s.workers[k].id,
        forall|k: int|
            0 <= k < s.workers.len() && (#[trigger] s.assign(now).workers[k]).in_flight.is_some()
                ==> s.assign(now).workers[k] == s.workers[k] || s.assign(
                now,
            ).workers[k].in_flight.unwrap().seq == s.next_seq,
{
    if s.can_assign() {
        let k = choose|k: int| 0 <= k < s.workers.len() && idle(#[trigger] s.workers[k]);
        lemma_has_first_idle(s.workers, k);
        assert(is_first_idle(s.workers, first_idle(s.workers)));
    }
}

} // verus!
