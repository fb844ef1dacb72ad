//! Shared data model: chain identifiers, relayed messages, queue records and
//! the relayer's static configuration.

use vstd::prelude::*;

verus! {

/// Identifier of a ledger that a message can originate from or be sent to.
/// `Unknown` is the sentinel for an unrecognized chain; a message naming it
/// on either end is rejected by validation.
#[derive(Clone, Copy, Debug, PartialEq, Eq, Structural)]
pub enum ChainId {
    Unknown,
    Ethereum,
    Polkadot,
    Solana,
}

/// A cross-chain message as observed on the source ledger: where it came
/// from, where it is going, its payload bytes, and an optional proof blob.
pub struct FrostMessage {
    pub from_chain: ChainId,
    pub to_chain: ChainId,
    pub payload: Vec<u8>,
    pub proof: Option<Vec<u8>>,
}

/// Mathematical value of a [`FrostMessage`].
pub struct FrostMessageView {
    pub from_chain: ChainId,
    pub to_chain: ChainId,
    pub payload: Seq<u8>,
    pub proof: Option<Seq<u8>>,
}

impl View for FrostMessage {
    type V = FrostMessageView;

    open spec fn view(&self) -> FrostMessageView {
        FrostMessageView {
            from_chain: self.from_chain,
            to_chain: self.to_chain,
            payload: self.payload.deep_view(),
            proof: self.proof.deep_view(),
        }
    }
}

impl FrostMessage {
    /// Whether the message carries a proof that must be verified before
    /// submission.
    pub fn has_proof(&self) -> (r: bool)
        ensures
            r == self@.proof.is_some(),
    {
        self.proof.is_some()
    }
}

impl Clone for FrostMessage {
    fn clone(&self) -> (r: Self)
        ensures
            r@ == self@,
    {
        let payload_copy = vstd::slice::slice_to_vec(self.payload.as_slice());
        let proof_copy = match &self.proof {
            Some(p) => Some(vstd::slice::slice_to_vec(p.as_slice())),
            None => None,
        };
        FrostMessage {
            from_chain: self.from_chain,
            to_chain: self.to_chain,
            payload: payload_copy,
            proof: proof_copy,
        }
    }
}

/// An event reported by the source chain adapter, carrying one observed
/// message.
pub struct MessageEvent {
    pub message: FrostMessage,
}

/// Lifecycle state of a queued message.
#[derive(Debug, PartialEq, Eq)]
pub enum MessageStatus {
    /// Received and waiting to be processed.
    Pending,
    /// A proof is being produced for the message.
    Proving,
    /// Proven (or proof-free) and ready to be submitted.
    ReadyForSubmission,
    /// Submitted to the destination chain.
    Submitted,
    /// Finalized on the destination chain.
    Finalized,
    /// Processing failed, with the reason.
    Failed(String),
}

/// Mathematical value of a [`MessageStatus`].
pub enum MessageStatusView {
    Pending,
    Proving,
    ReadyForSubmission,
    Submitted,
    Finalized,
    Failed(Seq<char>),
}

impl View for MessageStatus {
    type V = MessageStatusView;

    open spec fn view(&self) -> MessageStatusView {
        match self {
            MessageStatus::Pending => MessageStatusView::Pending,
            MessageStatus::Proving => MessageStatusView::Proving,
            MessageStatus::ReadyForSubmission => MessageStatusView::ReadyForSubmission,
            MessageStatus::Submitted => MessageStatusView::Submitted,
            MessageStatus::Finalized => MessageStatusView::Finalized,
            MessageStatus::Failed(s) => MessageStatusView::Failed(s@),
        }
    }
}

impl MessageStatusView {
    /// A status under which the record is protected from pruning: the
    /// message is still in flight.
    pub open spec fn is_in_flight(self) -> bool {
        self is Pending || self is Proving
    }
}

impl MessageStatus {
    pub fn is_pending(&self) -> (r: bool)
        ensures
            r == (self@ is Pending),
    {
        matches!(self, MessageStatus::Pending)
    }

    pub fn is_failed(&self) -> (r: bool)
        ensures
            r == (self@ is Failed),
    {
        matches!(self, MessageStatus::Failed(_))
    }

    /// Whether the record is protected from pruning under this status.
    pub fn is_in_flight(&self) -> (r: bool)
        ensures
            r == self@.is_in_flight(),
    {
        matches!(self, MessageStatus::Pending | MessageStatus::Proving)
    }
}

impl Clone for MessageStatus {
    fn clone(&self) -> (r: Self)
        ensures
            r@ == self@,
    {
        match self {
            MessageStatus::Pending => MessageStatus::Pending,
            MessageStatus::Proving => MessageStatus::Proving,
            MessageStatus::ReadyForSubmission => MessageStatus::ReadyForSubmission,
            MessageStatus::Submitted => MessageStatus::Submitted,
            MessageStatus::Finalized => MessageStatus::Finalized,
            MessageStatus::Failed(s) => MessageStatus::Failed(s.clone()),
        }
    }
}

/// One tracked relay attempt: the message, its identity, lifecycle state and
/// retry bookkeeping.
pub struct QueuedMessage {
    /// Process-unique identifier, assigned when the message is queued;
    /// the sole lookup key.
    pub id: u128,
    /// The message being relayed, immutable once queued.
    pub message: FrostMessage,
    /// Current lifecycle state.
    pub status: MessageStatus,
    /// When the message was queued, in seconds since the Unix epoch;
    /// used only for pruning.
    pub queued_at: u64,
    /// Number of failed processing cycles.
    pub attempts: u32,
    /// Most recent failure description, if any.
    pub last_error: Option<String>,
}

/// Mathematical value of a [`QueuedMessage`].
pub struct QueuedMessageView {
    pub id: u128,
    pub message: FrostMessageView,
    pub status: MessageStatusView,
    pub queued_at: u64,
    pub attempts: u32,
    pub last_error: Option<Seq<char>>,
}

impl View for QueuedMessage {
    type V = QueuedMessageView;

    open spec fn view(&self) -> QueuedMessageView {
        QueuedMessageView {
            id: self.id,
            message: self.message@,
            status: self.status@,
            queued_at: self.queued_at,
            attempts: self.attempts,
            last_error: self.last_error.deep_view(),
        }
    }
}

impl Clone for QueuedMessage {
    fn clone(&self) -> (r: Self)
        ensures
            r@ == self@,
    {
        QueuedMessage {
            id: self.id,
            message: self.message.clone(),
            status: self.status.clone(),
            queued_at: self.queued_at,
            attempts: self.attempts,
            last_error: match &self.last_error {
                Some(s) => Some(s.clone()),
                None => None,
            },
        }
    }
}

/// Static tunables of the relayer service, read-only after construction.
#[derive(Clone, Copy, Debug, PartialEq, Eq, Structural)]
pub struct RelayerConfig {
    /// Upper bound on concurrently processed messages. Declared for future
    /// parallel processing; the current single-drain loop does not consult it.
    pub max_concurrent_messages: usize,
    /// Maximum number of retry attempts per message.
    pub max_retry_attempts: u32,
    /// Base delay between retries in seconds. Declared; the fixed-rate poll
    /// does not consult it.
    pub retry_delay_secs: u64,
    /// Whether the processor loop prunes old records after each iteration.
    pub enable_auto_pruning: bool,
    /// How long pruned-eligible records are kept, in hours.
    pub message_history_hours: u64,
}

} // verus!
