//! The failure taxonomy shared by the delta generator and the job executor.

use vstd::prelude::*;

verus! {

/// How the job executor treats a failure.
#[derive(Clone, Copy, Debug, PartialEq, Eq, Structural)]
pub enum ErrorClass {
    /// Worth another attempt: a worker or the network was unavailable, or a
    /// lock could not be had in time.
    Transient,
    /// Another attempt would fail the same way.
    Permanent,
    /// The job can never run: its stored parameters are invalid.
    Broken,
    /// The store or the backend itself was out of reach; the job's status
    /// was never changed, so the operation is repeated, not the job.
    Internal,
}

/// Why the delta generator gave up on a request.
#[derive(Clone, Debug, PartialEq, Eq)]
pub enum DeltaGenerationError {
    /// No worker could take the request, or the one that had it went away
    /// and the generator is no longer dispatching.
    WorkerUnavailable,
    /// The repository backend reported an error on the objects themselves.
    ComputationFailed { detail: String, retryable: bool },
    /// The request was outstanding for longer than the configured bound.
    Timeout,
}

impl DeltaGenerationError {
    /// The class under which the job executor sees this failure.
    pub open spec fn class_spec(self) -> ErrorClass {
        match self {
            DeltaGenerationError::WorkerUnavailable => ErrorClass::Transient,
            DeltaGenerationError::ComputationFailed { detail, retryable } => if retryable {
                ErrorClass::Transient
            } else {
                ErrorClass::Permanent
            },
            DeltaGenerationError::Timeout => ErrorClass::Transient,
        }
    }

    /// Classifies the failure for the job executor, which never looks at
    /// protocol-level detail. A computation failure is permanent unless the
    /// backend marked it retryable; a lost worker or a timeout is transient.
    pub fn class(&self) -> (r: ErrorClass)
        ensures
            r == self.class_spec(),
    {
        match self {
            DeltaGenerationError::WorkerUnavailable => ErrorClass::Transient,
            DeltaGenerationError::ComputationFailed { detail: _, retryable } => {
                if *retryable {
                    ErrorClass::Transient
                } else {
                    ErrorClass::Permanent
                }
            },
            DeltaGenerationError::Timeout => ErrorClass::Transient,
        }
    }
}

impl ErrorClass {
    /// Whether a failure of this class may send the job back to be retried.
    pub open spec fn retryable_spec(self) -> bool {
        self == ErrorClass::Transient
    }

    pub fn is_retryable(self) -> (r: bool)
        ensures
            r == self.retryable_spec(),
    {
        match self {
            ErrorClass::Transient => true,
            _ => false,
        }
    }
}

} // verus!
