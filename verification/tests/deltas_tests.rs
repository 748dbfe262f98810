use job_engine::deltas::{DeltaEffect, DeltaGenerator};
use job_engine::errors::{DeltaGenerationError, ErrorClass};
use job_engine::protocol::{
    DeltaOutcome, DeltaRequest, RemoteClientMessage, RemoteServerMessage,
};

fn req(job: u64) -> DeltaRequest {
    DeltaRequest { job, repo: 1, source: format!("src{}", job), target: format!("dst{}", job) }
}

fn send(conn: u64, seq: u64, job: u64) -> DeltaEffect {
    DeltaEffect::Send {
        conn,
        message: RemoteClientMessage::ComputeDeltaRequest {
            seq,
            source: format!("src{}", job),
            target: format!("dst{}", job),
        },
    }
}

fn ok(seq: u64) -> RemoteServerMessage {
    RemoteServerMessage::ComputeDeltaResponse {
        seq,
        outcome: DeltaOutcome::Success { metadata: "42 bytes".to_string() },
    }
}

#[test]
fn request_goes_to_the_first_idle_worker() {
    let mut g = DeltaGenerator::new(4, 60, false);
    assert_eq!(g.worker_connected(10, 0), vec![]);
    assert_eq!(g.worker_connected(11, 0), vec![]);
    assert_eq!(g.worker_count(), 2);
    assert_eq!(g.request_delta(req(1), 5), Ok(vec![send(10, 0, 1)]));
    assert_eq!(g.request_delta(req(2), 6), Ok(vec![send(11, 1, 2)]));
    assert_eq!(g.pending_len(), 0);
    assert_eq!(g.in_flight(10).unwrap().request, req(1));
    assert_eq!(g.in_flight(10).unwrap().seq, 0);
    assert_eq!(g.in_flight(10).unwrap().sent_at, 5);
    assert_eq!(g.in_flight(11).unwrap().seq, 1);
    assert!(g.in_flight(12).is_none());
}

#[test]
fn requests_wait_in_order_while_every_worker_is_busy() {
    let mut g = DeltaGenerator::new(4, 60, false);
    g.worker_connected(10, 0);
    assert_eq!(g.request_delta(req(1), 1), Ok(vec![send(10, 0, 1)]));
    assert_eq!(g.request_delta(req(2), 2), Ok(vec![]));
    assert_eq!(g.request_delta(req(3), 3), Ok(vec![]));
    assert_eq!(g.pending_len(), 2);
    let effects = g.worker_message(10, ok(0), 4);
    assert_eq!(
        effects,
        vec![DeltaEffect::Completed { job: 1, result: Ok("42 bytes".to_string()) }, send(10, 1, 2)]
    );
    let effects = g.worker_message(10, ok(1), 5);
    assert_eq!(
        effects,
        vec![DeltaEffect::Completed { job: 2, result: Ok("42 bytes".to_string()) }, send(10, 2, 3)]
    );
    assert_eq!(g.pending_len(), 0);
}

#[test]
fn a_worker_that_connects_takes_the_head_of_the_queue() {
    let mut g = DeltaGenerator::new(4, 60, false);
    assert_eq!(g.request_delta(req(1), 1), Ok(vec![]));
    assert_eq!(g.request_delta(req(2), 2), Ok(vec![]));
    assert_eq!(g.worker_connected(10, 3), vec![send(10, 0, 1)]);
    assert_eq!(g.worker_connected(11, 4), vec![send(11, 1, 2)]);
    assert_eq!(g.worker_connected(11, 5), vec![]);
    assert_eq!(g.worker_count(), 2);
}

#[test]
fn a_full_queue_turns_requests_away() {
    let mut g = DeltaGenerator::new(1, 60, false);
    assert_eq!(g.request_delta(req(1), 1), Ok(vec![]));
    assert_eq!(g.request_delta(req(2), 2), Err(DeltaGenerationError::WorkerUnavailable));
    assert_eq!(g.pending_len(), 1);
    let mut none = DeltaGenerator::new(0, 60, false);
    assert_eq!(none.request_delta(req(1), 1), Err(DeltaGenerationError::WorkerUnavailable));
    none.worker_connected(10, 1);
    assert_eq!(none.request_delta(req(1), 2), Ok(vec![send(10, 0, 1)]));
    assert_eq!(none.request_delta(req(2), 3), Err(DeltaGenerationError::WorkerUnavailable));
}

#[test]
fn local_fallback_serves_while_no_worker_is_connected() {
    let mut g = DeltaGenerator::new(4, 60, true);
    assert_eq!(
        g.request_delta(req(1), 1),
        Ok(vec![DeltaEffect::ComputeLocally { request: req(1) }])
    );
    assert_eq!(g.pending_len(), 0);
    g.worker_connected(10, 2);
    assert_eq!(g.request_delta(req(2), 3), Ok(vec![send(10, 0, 2)]));
    assert_eq!(g.request_delta(req(3), 4), Ok(vec![]));
}

#[test]
fn a_disconnect_requeues_the_request_once() {
    let mut g = DeltaGenerator::new(4, 60, false);
    g.worker_connected(10, 0);
    assert_eq!(g.request_delta(req(1), 1), Ok(vec![send(10, 0, 1)]));
    assert_eq!(g.request_delta(req(2), 2), Ok(vec![]));
    assert_eq!(g.worker_disconnected(10, 3), vec![]);
    assert_eq!(g.worker_count(), 0);
    assert_eq!(g.pending_len(), 2);
    assert_eq!(g.worker_disconnected(10, 4), vec![]);
    assert_eq!(g.pending_len(), 2);
    // the request that was in flight is served first, under a new number
    assert_eq!(g.worker_connected(11, 5), vec![send(11, 1, 1)]);
    assert_eq!(g.pending_len(), 1);
    // the answer to the old number is stale
    assert_eq!(g.worker_message(11, ok(0), 6), vec![]);
    assert_eq!(
        g.worker_message(11, ok(1), 7),
        vec![DeltaEffect::Completed { job: 1, result: Ok("42 bytes".to_string()) }, send(11, 2, 2)]
    );
}

#[test]
fn a_disconnect_hands_the_request_to_an_idle_worker() {
    let mut g = DeltaGenerator::new(4, 60, false);
    g.worker_connected(10, 0);
    g.worker_connected(11, 0);
    assert_eq!(g.request_delta(req(1), 1), Ok(vec![send(10, 0, 1)]));
    assert_eq!(g.worker_disconnected(10, 2), vec![send(11, 1, 1)]);
    assert_eq!(g.pending_len(), 0);
    assert_eq!(g.worker_count(), 1);
    assert_eq!(g.worker_disconnected(11, 3), vec![]);
    assert_eq!(g.pending_len(), 1);
}

#[test]
fn a_response_is_counted_once() {
    let mut g = DeltaGenerator::new(4, 60, false);
    g.worker_connected(10, 0);
    g.request_delta(req(1), 1).unwrap();
    assert_eq!(g.worker_message(10, ok(0), 2).len(), 1);
    assert_eq!(g.worker_message(10, ok(0), 3), vec![]);
    assert_eq!(g.worker_message(99, ok(0), 3), vec![]);
    assert!(g.in_flight(10).is_none());
}

#[test]
fn a_failure_report_carries_the_detail() {
    let mut g = DeltaGenerator::new(4, 60, false);
    g.worker_connected(10, 0);
    g.request_delta(req(1), 1).unwrap();
    let msg = RemoteServerMessage::ComputeDeltaResponse {
        seq: 0,
        outcome: DeltaOutcome::Failure { detail: "missing object".to_string(), retryable: false },
    };
    let expected = DeltaGenerationError::ComputationFailed {
        detail: "missing object".to_string(),
        retryable: false,
    };
    assert_eq!(expected.class(), ErrorClass::Permanent);
    assert_eq!(
        g.worker_message(10, msg, 2),
        vec![DeltaEffect::Completed { job: 1, result: Err(expected) }]
    );
}

#[test]
fn overdue_requests_fail_and_their_workers_are_dropped() {
    let mut g = DeltaGenerator::new(4, 60, false);
    g.worker_connected(10, 0);
    g.worker_connected(11, 0);
    g.worker_connected(12, 0);
    g.request_delta(req(1), 100).unwrap();
    g.request_delta(req(2), 130).unwrap();
    assert_eq!(g.expire(160), vec![]);
    assert_eq!(
        g.expire(161),
        vec![
            DeltaEffect::Completed { job: 1, result: Err(DeltaGenerationError::Timeout) },
            DeltaEffect::Close { conn: 10 },
        ]
    );
    assert_eq!(g.worker_count(), 2);
    assert!(g.in_flight(11).is_some());
    assert_eq!(g.worker_message(10, ok(0), 162), vec![]);
    assert_eq!(g.expire(50), vec![]);
    assert_eq!(
        g.expire(1000),
        vec![
            DeltaEffect::Completed { job: 2, result: Err(DeltaGenerationError::Timeout) },
            DeltaEffect::Close { conn: 11 },
        ]
    );
    assert_eq!(g.worker_count(), 1);
}

#[test]
fn stop_abandons_everything() {
    let mut g = DeltaGenerator::new(4, 60, true);
    g.worker_connected(10, 0);
    g.worker_connected(11, 0);
    g.request_delta(req(1), 1).unwrap();
    g.worker_disconnected(11, 2);
    g.request_delta(req(2), 3).unwrap();
    g.request_delta(req(3), 4).unwrap();
    g.worker_connected(12, 5);
    // worker 10 has request 1, worker 12 has request 2, request 3 waits
    assert_eq!(
        g.stop(),
        vec![
            DeltaEffect::Abandoned { job: 1 },
            DeltaEffect::Close { conn: 10 },
            DeltaEffect::Abandoned { job: 2 },
            DeltaEffect::Close { conn: 12 },
            DeltaEffect::Abandoned { job: 3 },
        ]
    );
    assert!(g.is_stopping());
    assert_eq!(g.worker_count(), 0);
    assert_eq!(g.pending_len(), 0);
    assert_eq!(g.request_delta(req(4), 6), Err(DeltaGenerationError::WorkerUnavailable));
    assert_eq!(g.worker_connected(13, 7), vec![DeltaEffect::Close { conn: 13 }]);
    assert_eq!(g.worker_count(), 0);
    assert_eq!(g.stop(), vec![]);
}

#[test]
fn delta_errors_are_classified() {
    assert_eq!(DeltaGenerationError::WorkerUnavailable.class(), ErrorClass::Transient);
    assert_eq!(DeltaGenerationError::Timeout.class(), ErrorClass::Transient);
    let retry =
        DeltaGenerationError::ComputationFailed { detail: "busy".to_string(), retryable: true };
    assert_eq!(retry.class(), ErrorClass::Transient);
    assert!(ErrorClass::Transient.is_retryable());
    assert!(!ErrorClass::Permanent.is_retryable());
    assert!(!ErrorClass::Broken.is_retryable());
    assert!(!ErrorClass::Internal.is_retryable());
}

#[test]
fn messages_are_matched_by_sequence_number() {
    let request = RemoteClientMessage::compute(7, &req(1));
    assert_eq!(
        request,
        RemoteClientMessage::ComputeDeltaRequest {
            seq: 7,
            source: "src1".to_string(),
            target: "dst1".to_string()
        }
    );
    assert_eq!(request.seq(), 7);
    assert!(ok(7).answers(&request));
    assert!(!ok(8).answers(&request));
    assert_eq!(ok(8).seq(), 8);
    assert_eq!(req(1).duplicate(), req(1));
}

#[test]
fn waiting_requests_fall_back_when_the_last_worker_leaves() {
    let mut g = DeltaGenerator::new(4, 60, true);
    g.worker_connected(10, 0);
    g.worker_connected(11, 0);
    g.request_delta(req(1), 1).unwrap();
    g.request_delta(req(2), 2).unwrap();
    assert_eq!(g.request_delta(req(3), 3), Ok(vec![]));
    // one worker is left: the request of the other waits at the head
    assert_eq!(g.worker_disconnected(10, 4), vec![]);
    assert_eq!(g.pending_len(), 2);
    // no worker is left: everything is computed here, the oldest first
    assert_eq!(
        g.worker_disconnected(11, 5),
        vec![
            DeltaEffect::ComputeLocally { request: req(2) },
            DeltaEffect::ComputeLocally { request: req(1) },
            DeltaEffect::ComputeLocally { request: req(3) },
        ]
    );
    assert_eq!(g.pending_len(), 0);
    assert_eq!(g.worker_count(), 0);
}

#[test]
fn waiting_requests_fall_back_when_the_last_worker_is_dropped() {
    let mut g = DeltaGenerator::new(4, 60, true);
    g.worker_connected(10, 0);
    g.request_delta(req(1), 100).unwrap();
    g.request_delta(req(2), 101).unwrap();
    assert_eq!(
        g.expire(200),
        vec![
            DeltaEffect::Completed { job: 1, result: Err(DeltaGenerationError::Timeout) },
            DeltaEffect::Close { conn: 10 },
            DeltaEffect::ComputeLocally { request: req(2) },
        ]
    );
    assert_eq!(g.pending_len(), 0);
    assert_eq!(g.worker_count(), 0);
}
