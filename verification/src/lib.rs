//! Coordination core of a cross-chain message relayer.
//!
//! Messages observed on a source ledger are validated, queued, and advanced
//! through a bounded set of lifecycle states until they are submitted to a
//! destination ledger or given up on. This crate holds the parts with real
//! state and failure-handling logic: the in-memory message queue and the
//! decision logic of the relayer's two background loops. The chain adapters
//! that listen for events, verify proofs, and submit transactions are outside
//! collaborators; their outcomes are handed to this crate as plain values.

pub mod error;
pub mod queue;
pub mod service;
pub mod types;

pub use error::RelayerError;
pub use queue::MessageQueue;
pub use service::RelayerService;
pub use types::ChainId;
pub use types::FrostMessage;
pub use types::MessageEvent;
pub use types::MessageStatus;
pub use types::QueuedMessage;
pub use types::RelayerConfig;
