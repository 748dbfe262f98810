//! What holds of the requests that the delta generator holds: none is
//! lost, none is doubled, and none is completed twice.

use crate::deltas::{DeltaEffect, InFlight, WorkerConnection};
use crate::deltas::state::{
    distinct_connections, first_idle, has_worker, idle, is_first_idle, is_worker,
    lemma_assign_workers, lemma_has_first_idle, lemma_worker_index, worker_index, GeneratorState,
};
use crate::protocol::{DeltaRequest, RemoteServerMessage};
use vstd::prelude::*;

verus! {

/// The number of workers that are working on `request`.
pub open spec fn busy_with(workers: Seq<WorkerConnection>, request: DeltaRequest) -> int
    decreases workers.len(),
{
    if workers.len() == 0 {
        0
    } else {
        busy_with(workers.drop_last(), request) + if works_on(workers.last(), request) {
            1int
        } else {
            0int
        }
    }
}

/// The worker is working on `request`.
pub open spec fn works_on(w: WorkerConnection, request: DeltaRequest) -> bool {
    match w.in_flight {
        Some(f) => f.request == request,
        None => false,
    }
}

/// How often the generator holds `request`, waiting or with a worker.
pub open spec fn occurrences(s: GeneratorState, request: DeltaRequest) -> int {
    s.pending.to_multiset().count(request) + busy_with(s.workers, request)
}

/// Whether the effect tells the job executor of the end of a request.
pub open spec fn is_completion(e: DeltaEffect) -> bool {
    e is Completed
}

proof fn lemma_busy_with_update(
    workers: Seq<WorkerConnection>,
    i: int,
    w: WorkerConnection,
    request: DeltaRequest,
)
    requires
        0 <= i < workers.len(),
    ensures
        busy_with(workers.update(i, w), request) == busy_with(workers, request) - (if works_on(
            workers[i],
            request,
        ) {
            1int
        } else {
            0int
        }) + (if works_on(w, request) {
            1int
        } else {
            0int
        }),
    decreases workers.len(),
{
    let after = workers.update(i, w);
    if i == workers.len() - 1 {
        assert(after.drop_last() =~= workers.drop_last());
    } else {
        assert(after.drop_last() =~= workers.drop_last().update(i, w));
        lemma_busy_with_update(workers.drop_last(), i, w, request);
    }
}

proof fn lemma_busy_with_remove(workers: Seq<WorkerConnection>, i: int, request: DeltaRequest)
    requires
        0 <= i < workers.len(),
    ensures
        busy_with(workers.remove(i), request) == busy_with(workers, request) - (if works_on(
            workers[i],
            request,
        ) {
            1int
        } else {
            0int
        }),
    decreases workers.len(),
{
    let after = workers.remove(i);
    if i == workers.len() - 1 {
        assert(after =~= workers.drop_last());
    } else {
        assert(after.drop_last() =~= workers.drop_last().remove(i));
        assert(after.last() == workers.last());
        lemma_busy_with_remove(workers.drop_last(), i, request);
    }
}

/// Handing the head of the queue to a worker neither loses nor doubles a
/// request, and the worker that gets it had none.
pub proof fn lemma_assign_keeps_requests(s: GeneratorState, now: u64, request: DeltaRequest)
    ensures
        occurrences(s.assign(now), request) == occurrences(s, request),
        s.can_assign() ==> idle(s.workers[first_idle(s.workers)]),
{
    broadcast use vstd::multiset::group_multiset_axioms;

    if s.can_assign() {
        let i = first_idle(s.workers);
        let k = choose|k: int| 0 <= k < s.workers.len() && idle(#[trigger] s.workers[k]);
        lemma_has_first_idle(s.workers, k);
        assert(is_first_idle(s.workers, i));
        let w = WorkerConnection {
            id: s.workers[i].id,
            in_flight: Some(InFlight { seq: s.next_seq, sent_at: now, request: s.pending[0] }),
        };
        lemma_busy_with_update(s.workers, i, w, request);
        assert(s.pending.drop_first() =~= s.pending.remove(0));
        vstd::seq_lib::to_multiset_remove(s.pending, 0);
        s.pending.to_multiset_ensures();
    }
}

/// A worker that goes away while it has a request causes exactly one
/// re-queue: the generator holds every request as often as before, the
/// worker is forgotten, and the job executor is told nothing. (Where the
/// last worker goes away and the local fallback is on, the requests leave
/// the generator to be computed in this process instead.)
pub proof fn lemma_disconnect_requeues_once(
    s: GeneratorState,
    conn: u64,
    now: u64,
    request: DeltaRequest,
)
    requires
        s.wf(),
        !(s.local_fallback && s.workers.len() == 1),
    ensures
        occurrences(s.on_disconnect(conn, now), request) == occurrences(s, request),
        !has_worker(s.on_disconnect(conn, now).workers, conn),
        forall|k: int|
            0 <= k < s.disconnect_effects(conn).len() ==> !is_completion(
                #[trigger] s.disconnect_effects(conn)[k],
            ),
{
    broadcast use vstd::multiset::group_multiset_axioms;

    if has_worker(s.workers, conn) {
        let i = worker_index(s.workers, conn);
        assert(is_worker(s.workers, i, conn));
        let u = s.unregister(conn);
        lemma_busy_with_remove(s.workers, i, request);
        match s.workers[i].in_flight {
            Some(f) => {
                vstd::seq_lib::to_multiset_insert(s.pending, 0, f.request);
            },
            None => {},
        }
        assert(occurrences(u, request) == occurrences(s, request));
        lemma_assign_keeps_requests(u, now, request);
        let t = u.assign(now);
        assert(!has_worker(u.workers, conn)) by {
            if has_worker(u.workers, conn) {
                let k = worker_index(u.workers, conn);
                assert(is_worker(u.workers, k, conn));
                let k0 = if k < i {
                    k
                } else {
                    k + 1
                };
                assert(s.workers[k0].id == conn);
            }
        }
        assert(!has_worker(t.workers, conn)) by {
            lemma_assign_workers(u, now);
            if has_worker(t.workers, conn) {
                let k = worker_index(t.workers, conn);
                assert(is_worker(t.workers, k, conn));
                assert(t.workers[k].id == u.workers[k].id);
                assert(is_worker(u.workers, k, conn));
            }
        }
    } else {
        let t = s.on_disconnect(conn, now);
        assert(t == s);
    }
}

/// A response that matches ends exactly one request, the one that the
/// worker had, and the job executor is told of it once.
pub proof fn lemma_message_completes_once(
    s: GeneratorState,
    conn: u64,
    message: RemoteServerMessage,
    now: u64,
    request: DeltaRequest,
)
    requires
        s.wf(),
        s.matches_in_flight(conn, message),
    ensures
        occurrences(s.on_message(conn, message, now), request) == occurrences(s, request) - (
        if s.workers[worker_index(s.workers, conn)].in_flight.unwrap().request == request {
            1int
        } else {
            0int
        }),
        s.message_effects(conn, message).len() >= 1,
        s.message_effects(conn, message)[0] == (DeltaEffect::Completed {
            job: s.workers[worker_index(s.workers, conn)].in_flight.unwrap().request.job,
            result: message->outcome.result_spec(),
        }),
        forall|k: int|
            1 <= k < s.message_effects(conn, message).len() ==> !is_completion(
                #[trigger] s.message_effects(conn, message)[k],
            ),
{
    let i = worker_index(s.workers, conn);
    assert(is_worker(s.workers, i, conn));
    let u = s.settle(conn);
    lemma_busy_with_update(s.workers, i, WorkerConnection { id: conn, in_flight: None }, request);
    lemma_assign_keeps_requests(u, now, request);
}

/// A response is never counted twice: once a message has been taken, the
/// same message matches nothing and changes nothing, at any later time.
pub proof fn lemma_duplicate_message_dropped(
    s: GeneratorState,
    conn: u64,
    message: RemoteServerMessage,
    now: u64,
    later: u64,
)
    requires
        s.wf(),
    ensures
        !s.on_message(conn, message, now).matches_in_flight(conn, message),
        s.on_message(conn, message, now).message_effects(conn, message).len() == 0,
        s.on_message(conn, message, now).on_message(conn, message, later) == s.on_message(
            conn,
            message,
            now,
        ),
{
    if s.matches_in_flight(conn, message) {
        let i = worker_index(s.workers, conn);
        assert(is_worker(s.workers, i, conn));
        let u = s.settle(conn);
        let t = u.assign(now);
        lemma_assign_workers(u, now);
        assert(distinct_connections(t.workers)) by {
            assert forall|a: int, b: int| 0 <= a < b < t.workers.len() implies t.workers[a].id
                != t.workers[b].id by {
                assert(t.workers[a].id == u.workers[a].id);
                assert(t.workers[b].id == u.workers[b].id);
                assert(s.workers[a].id != s.workers[b].id);
            }
        }
        assert(t.workers[i].id == u.workers[i].id);
        lemma_worker_index(t.workers, i);
        assert(t.workers[i].in_flight.is_some() ==> t.workers[i].in_flight.unwrap().seq
            == s.next_seq);
    }
}

} // verus!
