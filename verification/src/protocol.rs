//! The messages between the delta generator and its remote workers.
//!
//! The transport is a duplex channel per worker and is not this crate's
//! concern, nor is the encoding of a message. What is fixed here is what a
//! message holds and how a response is matched to the request it answers.

use crate::errors::DeltaGenerationError;
use vstd::prelude::*;

verus! {

/// The computation of one delta, asked for by a job.
#[derive(Clone, Debug, PartialEq, Eq)]
pub struct DeltaRequest {
    /// The job that waits for the delta.
    pub job: u64,
    /// The repository that the delta is for.
    pub repo: u64,
    /// The object that the delta starts from.
    pub source: String,
    /// The object that the delta leads to.
    pub target: String,
}

impl DeltaRequest {
    /// A copy of the request.
    pub fn duplicate(&self) -> (r: DeltaRequest)
        ensures
            r == *self,
    {
        DeltaRequest {
            job: self.job,
            repo: self.repo,
            source: self.source.clone(),
            target: self.target.clone(),
        }
    }
}

/// What a worker reports of a request.
#[derive(Clone, Debug, PartialEq, Eq)]
pub enum DeltaOutcome {
    /// The delta was computed; `metadata` describes it.
    Success { metadata: String },
    /// The backend reported an error on the objects. It is final unless the
    /// backend marked it as worth another attempt.
    Failure { detail: String, retryable: bool },
}

/// What the requester of a delta is told in the end.
pub type DeltaResult = Result<String, DeltaGenerationError>;

impl DeltaOutcome {
    /// The outcome as the requester of the delta sees it.
    pub open spec fn result_spec(self) -> DeltaResult {
        match self {
            DeltaOutcome::Success { metadata } => Ok(metadata),
            DeltaOutcome::Failure { detail, retryable } => Err(
                DeltaGenerationError::ComputationFailed { detail, retryable },
            ),
        }
    }

    pub fn into_result(self) -> (r: DeltaResult)
        ensures
            r == self.result_spec(),
    {
        match self {
            DeltaOutcome::Success { metadata } => Ok(metadata),
            DeltaOutcome::Failure { detail, retryable } => Err(
                DeltaGenerationError::ComputationFailed { detail, retryable },
            ),
        }
    }
}

/// A message from the delta generator to a worker.
#[derive(Clone, Debug, PartialEq, Eq)]
pub enum RemoteClientMessage {
    /// Compute the delta from `source` to `target` and answer under `seq`.
    ComputeDeltaRequest { seq: u64, source: String, target: String },
}

/// A message from a worker to the delta generator.
#[derive(Clone, Debug, PartialEq, Eq)]
pub enum RemoteServerMessage {
    /// The request sent under `seq` has ended with `outcome`.
    ComputeDeltaResponse { seq: u64, outcome: DeltaOutcome },
}

/// The message that asks a worker for `request` under the sequence number
/// `seq`.
pub open spec fn request_message(seq: u64, request: DeltaRequest) -> RemoteClientMessage {
    RemoteClientMessage::ComputeDeltaRequest {
        seq,
        source: request.source,
        target: request.target,
    }
}

impl RemoteClientMessage {
    /// The message that asks a worker for `request` under `seq`.
    pub fn compute(seq: u64, request: &DeltaRequest) -> (r: RemoteClientMessage)
        ensures
            r == request_message(seq, *request),
    {
        RemoteClientMessage::ComputeDeltaRequest {
            seq,
            source: request.source.clone(),
            target: request.target.clone(),
        }
    }

    pub open spec fn seq_spec(self) -> u64 {
        match self {
            RemoteClientMessage::ComputeDeltaRequest { seq, source, target } => seq,
        }
    }

    /// The sequence number under which the answer is expected.
    pub fn seq(&self) -> (r: u64)
        ensures
            r == self.seq_spec(),
    {
        match self {
            RemoteClientMessage::ComputeDeltaRequest { seq, source: _, target: _ } => *seq,
        }
    }
}

impl RemoteServerMessage {
    pub open spec fn seq_spec(self) -> u64 {
        match self {
            RemoteServerMessage::ComputeDeltaResponse { seq, outcome } => seq,
        }
    }

    /// Whether this message answers `request`: it does if it refers to the
    /// sequence number that the request was sent under.
    pub open spec fn answers_spec(self, request: RemoteClientMessage) -> bool {
        self.seq_spec() == request.seq_spec()
    }

    /// The sequence number of the request that this message answers.
    pub fn seq(&self) -> (r: u64)
        ensures
            r == self.seq_spec(),
    {
        match self {
            RemoteServerMessage::ComputeDeltaResponse { seq, outcome: _ } => *seq,
        }
    }

    pub fn answers(&self, request: &RemoteClientMessage) -> (r: bool)
        ensures
            r == self.answers_spec(*request),
    {
        self.seq() == request.seq()
    }
}

} // verus!
