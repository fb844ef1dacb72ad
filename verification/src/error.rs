//! Error taxonomy of the relayer core.
//!
//! Failures coming from the chain adapters reach this crate only as
//! displayable text, so the adapter-related variants carry the formatted
//! description rather than the adapter's own error value.

use vstd::prelude::*;

verus! {

/// Everything that can go wrong inside the relayer core.
#[derive(Debug, PartialEq, Eq)]
pub enum RelayerError {
    /// No queued message exists under the given id.
    MessageNotFound(u128),
    /// A chain adapter call failed; carries its description.
    ChainAdapter(String),
    /// Proof generation failed.
    Prover(String),
    /// The service was misused, e.g. started while already running.
    Configuration(String),
    /// The message queue itself failed.
    Queue(String),
    /// A message was structurally invalid and refused.
    ValidationError(String),
    /// An operation exceeded its time budget.
    Timeout { operation: String, seconds: u64 },
    /// A failure with no more precise classification.
    Unknown(String),
    /// A wrapped foreign failure, carried as its description.
    Other(String),
}

} // verus!
