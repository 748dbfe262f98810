//! Durable job execution engine of a repository publishing service.
//!
//! The crate holds the decisions of the engine as verified state machines:
//! the job table and its transitions, the executor's slot pool, the delta
//! generator that hands work to remote workers, and the shutdown
//! coordinator. Whatever waits, sleeps or talks to the outside lives in the
//! program around it, which performs the actions these machines return and
//! feeds the outcomes back as events.

pub mod deltas;
pub mod engine;
pub mod errors;
pub mod executor;
pub mod job;
pub mod protocol;
pub mod shutdown;
pub mod store;

pub use engine::start;
pub use errors::DeltaGenerationError;
pub use protocol::{RemoteClientMessage, RemoteServerMessage};
