//! The delta generator: a queue of pending delta requests and a pool of
//! remote workers, each of which works on one request at a time.
//!
//! The generator is one state machine. Every event it is told of (a request,
//! a worker that connects or goes away, a message from a worker, the passing
//! of time, the order to stop) changes its state and yields the effects that
//! the surrounding program is to carry out.

pub mod laws;
pub mod state;

use crate::deltas::state::{
    abandon_effects, at_most_one_idle, dismissal_effects, distinct_connections, expiry_effects,
    first_idle, has_idle, has_worker, idle, is_first_idle, is_worker, lemma_first_idle,
    lemma_surviving, lemma_worker_index, surviving, worker_index, GeneratorState,
};
use crate::errors::DeltaGenerationError;
use crate::protocol::{DeltaRequest, DeltaResult, RemoteClientMessage, RemoteServerMessage};
use vstd::prelude::*;

verus! {

/// A request that has been sent to a worker and not been answered yet.
#[derive(Clone, Debug, PartialEq, Eq)]
pub struct InFlight {
    /// The sequence number that the answer must refer to.
    pub seq: u64,
    /// When the request was sent.
    pub sent_at: u64,
    pub request: DeltaRequest,
}

/// A live channel to one remote worker.
#[derive(Clone, Debug, PartialEq, Eq)]
pub struct WorkerConnection {
    /// The identity of the connection.
    pub id: u64,
    /// The request that the worker is working on; an idle worker has none.
    pub in_flight: Option<InFlight>,
}

/// What the surrounding program is to do for the generator.
#[derive(Debug, PartialEq, Eq)]
pub enum DeltaEffect {
    /// Send `message` on the connection `conn`.
    Send { conn: u64, message: RemoteClientMessage },
    /// Tell the job executor how the request of `job` has ended.
    Completed { job: u64, result: DeltaResult },
    /// Compute the delta with the repository backend of this process.
    ComputeLocally { request: DeltaRequest },
    /// The request of `job` is lost because the generator stops: the job is
    /// to be given back, so that it can be taken up again.
    Abandoned { job: u64 },
    /// Close the connection `conn`.
    Close { conn: u64 },
}

/// The delta generator.
pub struct DeltaGenerator {
    pending: Vec<DeltaRequest>,
    workers: Vec<WorkerConnection>,
    next_seq: u64,
    stopping: bool,
    capacity: usize,
    timeout: u64,
    local_fallback: bool,
}

impl View for DeltaGenerator {
    type V = GeneratorState;

    closed spec fn view(&self) -> GeneratorState {
        GeneratorState {
            pending: self.pending@,
            workers: self.workers@,
            next_seq: self.next_seq,
            stopping: self.stopping,
            capacity: self.capacity,
            timeout: self.timeout,
            local_fallback: self.local_fallback,
        }
    }
}

impl DeltaGenerator {
    /// A generator without workers and requests. At most `capacity`
    /// requests wait at a time, a request may be with a worker for
    /// `timeout`, and with `local_fallback` deltas are computed in this
    /// process while no worker is connected.
    pub fn new(capacity: usize, timeout: u64, local_fallback: bool) -> (r: Self)
        ensures
            r@.wf(),
            r@ == (GeneratorState {
                pending: Seq::<DeltaRequest>::empty(),
                workers: Seq::<WorkerConnection>::empty(),
                next_seq: 0,
                stopping: false,
                capacity,
                timeout,
                local_fallback,
            }),
    {
        DeltaGenerator {
            pending: Vec::new(),
            workers: Vec::new(),
            next_seq: 0,
            stopping: false,
            capacity,
            timeout,
            local_fallback,
        }
    }

    /// The number of requests that wait for a worker.
    pub fn pending_len(&self) -> (r: usize)
        ensures
            r == self@.pending.len(),
    {
        self.pending.len()
    }

    /// The number of connected workers.
    pub fn worker_count(&self) -> (r: usize)
        ensures
            r == self@.workers.len(),
    {
        self.workers.len()
    }

    /// Whether the generator has been told to stop.
    pub fn is_stopping(&self) -> (r: bool)
        ensures
            r == self@.stopping,
    {
        self.stopping
    }

    /// The place of the worker on the connection `conn`.
    fn find_worker(&self, conn: u64) -> (r: Option<usize>)
        requires
            self@.wf(),
        ensures
            match r {
                Some(i) => is_worker(self@.workers, i as int, conn) && worker_index(
                    self@.workers,
                    conn,
                ) == i,
                None => !has_worker(self@.workers, conn),
            },
    {
        let mut i: usize = 0;
        while i < self.workers.len()
            invariant
                self@.wf(),
                i <= self.workers.len(),
                forall|j: int| 0 <= j < i ==> !is_worker(self@.workers, j, conn),
            decreases self.workers.len() - i,
        {
            if self.workers[i].id == conn {
                proof {
                    lemma_worker_index(self@.workers, i as int);
                }
                return Some(i);
            }
            i += 1;
        }
        None
    }

    /// The place of the first worker that has no request.
    fn find_idle(&self) -> (r: Option<usize>)
        ensures
            match r {
                Some(i) => is_first_idle(self@.workers, i as int) && first_idle(self@.workers)
                    == i,
                None => !has_idle(self@.workers),
            },
    {
        let mut i: usize = 0;
        while i < self.workers.len()
            invariant
                i <= self.workers.len(),
                forall|j: int| 0 <= j < i ==> !idle(#[trigger] self@.workers[j]),
            decreases self.workers.len() - i,
        {
            if self.workers[i].in_flight.is_none() {
                proof {
                    lemma_first_idle(self@.workers, i as int);
                }
                return Some(i);
            }
            i += 1;
        }
        None
    }

    /// The request that the worker on `conn` is working on.
    pub fn in_flight(&self, conn: u64) -> (r: Option<&InFlight>)
        requires
            self@.wf(),
        ensures
            match r {
                Some(f) => has_worker(self@.workers, conn) && self@.workers[worker_index(
                    self@.workers,
                    conn,
                )].in_flight == Some(*f),
                None => !has_worker(self@.workers, conn) || self@.workers[worker_index(
                    self@.workers,
                    conn,
                )].in_flight.is_none(),
            },
    {
        match self.find_worker(conn) {
            Some(i) => self.workers[i].in_flight.as_ref(),
            None => None,
        }
    }

    /// Sends the head of the queue to the first idle worker, where that can
    /// be done, and adds the message to `effects`.
    fn assign(&mut self, now: u64, effects: &mut Vec<DeltaEffect>)
        requires
            distinct_connections(old(self)@.workers),
            forall|i: int|
                0 <= i < old(self)@.workers.len() && (#[trigger] old(
                    self,
                )@.workers[i]).in_flight.is_some() ==> old(self)@.workers[i].in_flight.unwrap().seq
                    < old(self)@.next_seq,
            old(self)@.stopping ==> old(self)@.pending.len() == 0 && old(self)@.workers.len() == 0,
            old(self)@.pending.len() > 1 && old(self)@.can_send() ==> at_most_one_idle(
                old(self)@.workers,
            ),
            !old(self)@.computes_locally(),
        ensures
            final(self)@ == old(self)@.assign(now),
            final(effects)@ == old(effects)@ + old(self)@.assign_effects(),
            final(self)@.wf(),
    {
        if self.stopping || self.next_seq == u64::MAX || self.pending.len() == 0 {
            assert(effects@ + Seq::<DeltaEffect>::empty() =~= effects@);
            return ;
        }
        match self.find_idle() {
            None => {
                assert(effects@ + Seq::<DeltaEffect>::empty() =~= effects@);
            },
            Some(i) => {
                let seq = self.next_seq;
                let request = self.pending.remove(0);
                let message = RemoteClientMessage::compute(seq, &request);
                let conn = self.workers[i].id;
                self.workers[i].in_flight = Some(InFlight { seq, sent_at: now, request });
                self.next_seq = seq + 1;
                effects.push(DeltaEffect::Send { conn, message });
                proof {
                    let before = old(self)@;
                    assert(self@.pending =~= before.pending.drop_first());
                    assert(self@.workers =~= before.assign(now).workers);
                    assert(effects@ =~= old(effects)@ + before.assign_effects());
                    assert forall|a: int, b: int|
                        0 <= a < b < self@.workers.len() implies self@.workers[a].id
                        != self@.workers[b].id by {
                        assert(before.workers[a].id != before.workers[b].id);
                    }
                    if self@.pending.len() > 0 && has_idle(self@.workers) {
                        let k = choose|k: int|
                            0 <= k < self@.workers.len() && idle(#[trigger] self@.workers[k]);
                        assert(idle(before.workers[k]));
                        assert(idle(before.workers[i as int]));
                    }
                }
            },
        }
    }

    /// Hands the waiting requests over to be computed in this process,
    /// where that is how requests are served, and adds them to `effects`.
    fn fall_back(&mut self, effects: &mut Vec<DeltaEffect>)
        ensures
            final(self)@ == old(self)@.fall_back(),
            final(effects)@ == old(effects)@ + old(self)@.fall_back_effects(),
    {
        if self.stopping || self.workers.len() > 0 || !self.local_fallback {
            assert(effects@ + Seq::<DeltaEffect>::empty() =~= effects@);
            return ;
        }
        let ghost waiting = self@.pending;
        let ghost done: int = 0;
        while self.pending.len() > 0
            invariant
                0 <= done <= waiting.len(),
                waiting == old(self)@.pending,
                self@.pending == waiting.skip(done),
                self@ == (GeneratorState { pending: self@.pending, ..old(self)@ }),
                effects@ == old(effects)@ + Seq::new(
                    done as nat,
                    |i: int| DeltaEffect::ComputeLocally { request: waiting[i] },
                ),
            decreases self@.pending.len(),
        {
            let request = self.pending.remove(0);
            effects.push(DeltaEffect::ComputeLocally { request });
            proof {
                assert(request == waiting[done]);
                assert(self@.pending =~= waiting.skip(done + 1));
                assert(effects@ =~= old(effects)@ + Seq::new(
                    (done + 1) as nat,
                    |i: int| DeltaEffect::ComputeLocally { request: waiting[i] },
                ));
                done = done + 1;
            }
        }
        proof {
            assert(self@.pending =~= Seq::<DeltaRequest>::empty());
            assert(done == waiting.len());
        }
    }

    /// Takes a request for a delta.
    ///
    /// The request is turned away with `WorkerUnavailable` when the
    /// generator has been told to stop, or when no worker can take it now
    /// and the queue is full. While no worker is connected and the local
    /// fallback is on, it is handed back to be computed in this process.
    /// Otherwise it joins the queue, and the head of the queue goes to the
    /// first idle worker if there is one.
    pub fn request_delta(&mut self, request: DeltaRequest, now: u64) -> (r: Result<
        Vec<DeltaEffect>,
        DeltaGenerationError,
    >)
        requires
            old(self)@.wf(),
        ensures
            final(self)@.wf(),
            final(self)@ == old(self)@.on_request(request, now),
            match r {
                Ok(effects) => old(self)@.request_result(request) == Ok::<
                    Seq<DeltaEffect>,
                    DeltaGenerationError,
                >(effects@),
                Err(e) => old(self)@.request_result(request) == Err::<
                    Seq<DeltaEffect>,
                    DeltaGenerationError,
                >(e),
            },
    {
        if self.stopping {
            return Err(DeltaGenerationError::WorkerUnavailable);
        }
        let mut effects: Vec<DeltaEffect> = Vec::new();
        if self.workers.len() == 0 && self.local_fallback {
            effects.push(DeltaEffect::ComputeLocally { request });
            assert(effects@ =~= seq![DeltaEffect::ComputeLocally { request }]);
            return Ok(effects);
        }
        if self.pending.len() >= self.capacity {
            let can_send = self.next_seq < u64::MAX;
            if !can_send || self.find_idle().is_none() {
                return Err(DeltaGenerationError::WorkerUnavailable);
            }
        }
        self.pending.push(request);
        proof {
            assert(self@ == old(self)@.enqueue(request));
        }
        self.assign(now, &mut effects);
        assert(effects@ =~= old(self)@.enqueue(request).assign_effects());
        Ok(effects)
    }

    /// Registers the worker that has connected on `conn`, and sends it the
    /// head of the queue if a request waits. A generator that has been told
    /// to stop has the connection closed; a connection that is registered
    /// already is left as it is.
    pub fn worker_connected(&mut self, conn: u64, now: u64) -> (r: Vec<DeltaEffect>)
        requires
            old(self)@.wf(),
        ensures
            final(self)@.wf(),
            final(self)@ == old(self)@.on_connect(conn, now),
            r@ == old(self)@.connect_effects(conn),
    {
        let mut effects: Vec<DeltaEffect> = Vec::new();
        if self.stopping {
            effects.push(DeltaEffect::Close { conn });
            assert(effects@ =~= seq![DeltaEffect::Close { conn }]);
            return effects;
        }
        if self.find_worker(conn).is_some() {
            return effects;
        }
        self.workers.push(WorkerConnection { id: conn, in_flight: None });
        proof {
            let before = old(self)@;
            assert(self@ == before.register(conn));
            assert forall|a: int, b: int|
                0 <= a < b < self@.workers.len() implies self@.workers[a].id
                != self@.workers[b].id by {
                if b < before.workers.len() {
                    assert(before.workers[a].id != before.workers[b].id);
                } else {
                    assert(!is_worker(before.workers, a, conn));
                }
            }
            assert forall|i: int|
                0 <= i < self@.workers.len() && (
                #[trigger] self@.workers[i]).in_flight.is_some()
                implies self@.workers[i].in_flight.unwrap().seq
                < self@.next_seq by {
                assert(self@.workers[i] == before.workers[i]);
            }
            if before.can_send() && before.pending.len() > 1 {
                assert(!has_idle(before.workers));
                assert forall|a: int, b: int|
                    0 <= a < self@.workers.len() && 0 <= b < self@.workers.len() && idle(
                        #[trigger] self@.workers[a],
                    ) && idle(#[trigger] self@.workers[b]) implies a == b by {
                    if a < before.workers.len() {
                        assert(idle(before.workers[a]));
                    }
                    if b < before.workers.len() {
                        assert(idle(before.workers[b]));
                    }
                }
            }
        }
        self.assign(now, &mut effects);
        assert(effects@ =~= old(self)@.register(conn).assign_effects());
        effects
    }

    /// Forgets the worker on `conn`, which has unregistered or whose
    /// connection has broken. The request that it had, if any, goes back to
    /// the head of the queue, from where it goes to the first idle worker if
    /// there is one. The job that waits for the request is told nothing.
    /// Where no worker is left and the local fallback is on, the requests
    /// that wait are handed over to be computed in this process.
    pub fn worker_disconnected(&mut self, conn: u64, now: u64) -> (r: Vec<DeltaEffect>)
        requires
            old(self)@.wf(),
        ensures
            final(self)@.wf(),
            final(self)@ == old(self)@.on_disconnect(conn, now),
            r@ == old(self)@.disconnect_effects(conn),
    {
        let mut effects: Vec<DeltaEffect> = Vec::new();
        let i = match self.find_worker(conn) {
            Some(i) => i,
            None => {
                return effects;
            },
        };
        let worker = self.workers.remove(i);
        match worker.in_flight {
            Some(f) => {
                self.pending.insert(0, f.request);
            },
            None => {},
        }
        proof {
            let before = old(self)@;
            assert(self@.workers =~= before.unregister(conn).workers);
            assert(self@.pending =~= before.unregister(conn).pending);
            assert(self@ == before.unregister(conn));
            assert forall|a: int, b: int|
                0 <= a < b < self@.workers.len() implies self@.workers[a].id
                != self@.workers[b].id by {
                let a0 = if a < i {
                    a
                } else {
                    a + 1
                };
                let b0 = if b < i {
                    b
                } else {
                    b + 1
                };
                assert(before.workers[a0].id != before.workers[b0].id);
            }
            assert forall|k: int|
                0 <= k < self@.workers.len() && (
                #[trigger] self@.workers[k]).in_flight.is_some()
                implies self@.workers[k].in_flight.unwrap().seq
                < self@.next_seq by {
                let k0 = if k < i {
                    k
                } else {
                    k + 1
                };
                assert(self@.workers[k] == before.workers[k0]);
            }
            if before.can_send() && self@.pending.len() > 1 && has_idle(self@.workers) {
                let k = choose|k: int|
                    0 <= k < self@.workers.len() && idle(#[trigger] self@.workers[k]);
                let k0 = if k < i {
                    k
                } else {
                    k + 1
                };
                assert(idle(before.workers[k0]));
                assert(false);
            }
        }
        if self.workers.len() == 0 && self.local_fallback && !self.stopping {
            self.fall_back(&mut effects);
            proof {
                assert(effects@ =~= old(self)@.unregister(conn).fall_back_effects());
                assert(!has_idle(self@.workers));
            }
        } else {
            self.assign(now, &mut effects);
            assert(effects@ =~= old(self)@.unregister(conn).assign_effects());
        }
        effects
    }

    /// Takes a message from the worker on `conn`.
    ///
    /// A response that refers to the sequence number of the request that
    /// this worker has ends the request: the job executor is told the
    /// result, the worker is idle, and the head of the queue goes to it if
    /// a request waits. Any other message (from a connection that is not
    /// registered, to a worker that has no request, under another sequence
    /// number) is dropped.
    pub fn worker_message(&mut self, conn: u64, message: RemoteServerMessage, now: u64) -> (r: Vec<
        DeltaEffect,
    >)
        requires
            old(self)@.wf(),
        ensures
            final(self)@.wf(),
            final(self)@ == old(self)@.on_message(conn, message, now),
            r@ == old(self)@.message_effects(conn, message),
    {
        let mut effects: Vec<DeltaEffect> = Vec::new();
        let i = match self.find_worker(conn) {
            Some(i) => i,
            None => {
                return effects;
            },
        };
        let job = match &self.workers[i].in_flight {
            Some(f) => {
                if f.seq != message.seq() {
                    return effects;
                }
                f.request.job
            },
            None => {
                return effects;
            },
        };
        let outcome = match message {
            RemoteServerMessage::ComputeDeltaResponse { seq: _, outcome } => outcome,
        };
        self.workers[i].in_flight = None;
        effects.push(DeltaEffect::Completed { job, result: outcome.into_result() });
        proof {
            let before = old(self)@;
            assert(self@.workers =~= before.settle(conn).workers);
            assert(self@ == before.settle(conn));
            assert forall|a: int, b: int|
                0 <= a < b < self@.workers.len() implies self@.workers[a].id
                != self@.workers[b].id by {
                assert(before.workers[a].id != before.workers[b].id);
            }
            if before.can_send() && before.pending.len() > 0 {
                assert(!has_idle(before.workers));
                assert forall|a: int, b: int|
                    0 <= a < self@.workers.len() && 0 <= b < self@.workers.len() && idle(
                        #[trigger] self@.workers[a],
                    ) && idle(#[trigger] self@.workers[b]) implies a == b by {
                    if a != i {
                        assert(idle(before.workers[a]));
                    }
                    if b != i {
                        assert(idle(before.workers[b]));
                    }
                }
            }
        }
        self.assign(now, &mut effects);
        assert(effects@ =~= old(self)@.message_effects(conn, message));
        effects
    }

    /// Fails the requests that have been with their workers for longer
    /// than the timeout at `now`. Such a worker is taken to be wedged: its
    /// connection is closed and it is forgotten. Where no worker is left
    /// and the local fallback is on, the requests that wait are handed over
    /// to be computed in this process.
    pub fn expire(&mut self, now: u64) -> (r: Vec<DeltaEffect>)
        requires
            old(self)@.wf(),
        ensures
            final(self)@.wf(),
            final(self)@ == old(self)@.on_expire(now),
            r@ == old(self)@.expire_effects(now),
    {
        let mut effects: Vec<DeltaEffect> = Vec::new();
        let mut i: usize = 0;
        let ghost all = self@.workers;
        let ghost seen: int = 0;
        let timeout = self.timeout;
        while i < self.workers.len()
            invariant
                0 <= seen <= all.len(),
                all == old(self)@.workers,
                timeout == old(self)@.timeout,
                i == surviving(all.take(seen), now, timeout).len(),
                self@.workers == surviving(all.take(seen), now, timeout) + all.skip(seen),
                effects@ == expiry_effects(all.take(seen), now, timeout),
                self@ == (GeneratorState { workers: self@.workers, ..old(self)@ }),
            decreases all.len() - seen,
        {
            proof {
                assert(all.take(seen + 1).drop_last() =~= all.take(seen));
                assert(self@.workers[i as int] == all[seen]);
                assert(all.take(seen + 1).last() == all[seen]);
            }
            let late = match &self.workers[i].in_flight {
                Some(f) => now > f.sent_at && now - f.sent_at > timeout,
                None => false,
            };
            if late {
                let worker = self.workers.remove(i);
                match worker.in_flight {
                    Some(f) => {
                        effects.push(
                            DeltaEffect::Completed {
                                job: f.request.job,
                                result: Err(DeltaGenerationError::Timeout),
                            },
                        );
                    },
                    None => {},
                }
                effects.push(DeltaEffect::Close { conn: worker.id });
                proof {
                    assert(self@.workers =~= surviving(all.take(seen + 1), now, timeout) + all.skip(
                        seen + 1,
                    ));
                }
            } else {
                i += 1;
                proof {
                    assert(self@.workers =~= surviving(all.take(seen + 1), now, timeout) + all.skip(
                        seen + 1,
                    ));
                }
            }
            proof {
                seen = seen + 1;
            }
        }
        proof {
            lemma_surviving(all.take(seen), now, timeout);
            assert(seen == all.len()) by {
                assert(self@.workers.len() == i + all.skip(seen).len());
            }
            assert(all.take(seen) =~= all);
            assert(self@.workers =~= surviving(all, now, timeout));
            lemma_surviving(all, now, timeout);
            let s = self@.workers;
            assert forall|k: int|
                0 <= k < s.len() && (#[trigger] s[k]).in_flight.is_some()
                implies s[k].in_flight.unwrap().seq
                < self@.next_seq by {
                let j = choose|j: int| 0 <= j < all.len() && all[j] == s[k];
                assert(all[j].in_flight.is_some());
            }
            assert(self@ == old(self)@.drop_overdue(now));
        }
        self.fall_back(&mut effects);
        proof {
            assert(!self@.computes_locally() ==> self@ == old(self)@.drop_overdue(now));
            if self@.pending.len() > 0 && has_idle(self@.workers) {
                assert(has_idle(old(self)@.workers));
            }
        }
        effects
    }

    /// Stops the generator: every request that waits or is with a worker
    /// is abandoned, every connection is closed, and from now on requests
    /// are turned away and workers are not taken.
    pub fn stop(&mut self) -> (r: Vec<DeltaEffect>)
        requires
            old(self)@.wf(),
        ensures
            final(self)@.wf(),
            final(self)@ == old(self)@.on_stop(),
            r@ == old(self)@.stop_effects(),
    {
        let mut effects: Vec<DeltaEffect> = Vec::new();
        let mut i: usize = 0;
        while i < self.workers.len()
            invariant
                *self == *old(self),
                i <= self.workers.len(),
                effects@ == dismissal_effects(self@.workers.take(i as int)),
            decreases self.workers.len() - i,
        {
            proof {
                assert(self@.workers.take(i + 1).drop_last() =~= self@.workers.take(i as int));
            }
            match &self.workers[i].in_flight {
                Some(f) => {
                    effects.push(DeltaEffect::Abandoned { job: f.request.job });
                },
                None => {},
            }
            effects.push(DeltaEffect::Close { conn: self.workers[i].id });
            i += 1;
        }
        proof {
            assert(self@.workers.take(i as int) =~= self@.workers);
        }
        let ghost dismissed = effects@;
        let mut k: usize = 0;
        while k < self.pending.len()
            invariant
                *self == *old(self),
                k <= self.pending.len(),
                effects@ == dismissed + abandon_effects(self@.pending.take(k as int)),
            decreases self.pending.len() - k,
        {
            effects.push(DeltaEffect::Abandoned { job: self.pending[k].job });
            proof {
                assert(effects@ =~= dismissed + abandon_effects(self@.pending.take(k + 1)));
            }
            k += 1;
        }
        proof {
            assert(self@.pending.take(k as int) =~= self@.pending);
        }
        self.pending = Vec::new();
        self.workers = Vec::new();
        self.stopping = true;
        proof {
            assert(self@.pending =~= Seq::<DeltaRequest>::empty());
            assert(self@.workers =~= Seq::<WorkerConnection>::empty());
            assert(!has_idle(self@.workers));
        }
        effects
    }
}

} // verus!
