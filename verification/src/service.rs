//! The relayer service: lifecycle flag, message validation, event ingestion
//! and the decision logic of the message processor loop.
//!
//! The two background loops themselves (fixed-rate polling, adapter calls,
//! task spawning) live outside this crate; they drive the functions here and
//! hand every adapter outcome in as a plain value. One processor iteration
//! is: [`RelayerService::next_actionable`], then — only when it returned a
//! message — proof verification and submission through the adapters, with
//! [`RelayerService::record_proof_failure`],
//! [`RelayerService::mark_ready_for_submission`] and
//! [`RelayerService::record_submission_result`] recording the outcomes, and
//! finally [`RelayerService::maybe_prune`].

use vstd::prelude::*;
use crate::error::RelayerError;
use crate::queue::first_pending;
use crate::queue::now_unix_secs;
use crate::queue::pruned_with;
use crate::queue::updated_record;
use crate::queue::MessageQueue;
use crate::types::ChainId;
use crate::types::FrostMessage;
use crate::types::FrostMessageView;
use crate::types::MessageEvent;
use crate::types::MessageStatus;
use crate::types::MessageStatusView;
use crate::types::QueuedMessage;
use crate::types::QueuedMessageView;
use crate::types::RelayerConfig;

verus! {

/// Relies on uuid::Uuid::new_v4 for a fresh random 128-bit identifier.
/// Nothing is assumed of the value: distinct calls may in principle return
/// the same id, and the queue's contracts cover that case.
#[verifier::external_body]
fn fresh_message_id() -> u128 {
    uuid::Uuid::new_v4().as_u128()
}

/// Why a message with an unrecognized source chain is refused.
pub open spec fn source_unknown_reason() -> Seq<char> {
    "Source chain is unknown"@
}

/// Why a message with an unrecognized destination chain is refused.
pub open spec fn target_unknown_reason() -> Seq<char> {
    "Target chain is unknown"@
}

/// Why a message without payload bytes is refused.
pub open spec fn empty_payload_reason() -> Seq<char> {
    "Payload is empty"@
}

/// The failure text recorded when a message has exhausted its retries.
pub open spec fn max_retry_reason() -> Seq<char> {
    "Max retry attempts exceeded"@
}

/// The failure text recorded when proof verification fails.
pub open spec fn proof_failure_reason() -> Seq<char> {
    "Proof verification failed"@
}

/// The failure text recorded when submission to the destination fails.
pub open spec fn submission_failure_reason() -> Seq<char> {
    "Destination chain submission failed"@
}

/// The error text of a second `start` without an intervening `stop`.
pub open spec fn already_running_reason() -> Seq<char> {
    "Service already running"@
}

/// A structurally acceptable message: both chain ends are recognized and
/// the payload is non-empty.
pub open spec fn valid_message(m: FrostMessageView) -> bool {
    &&& m.from_chain != ChainId::Unknown
    &&& m.to_chain != ChainId::Unknown
    &&& m.payload.len() > 0
}

/// The record a freshly ingested message is stored as: `Pending`, no
/// attempts, no error.
pub open spec fn fresh_record(id: u128, m: FrostMessageView, queued_at: u64) -> QueuedMessageView {
    QueuedMessageView {
        id,
        message: m,
        status: MessageStatusView::Pending,
        queued_at,
        attempts: 0,
        last_error: None,
    }
}

/// How many events of `s` carry a structurally valid message.
pub open spec fn count_valid(s: Seq<MessageEvent>) -> int
    decreases s.len(),
{
    if s.len() == 0 {
        0
    } else {
        (if valid_message(s[0].message@) {
            1int
        } else {
            0int
        }) + count_valid(s.skip(1))
    }
}

/// The lookup map after ingesting `events` in order, where the k-th event
/// was given id `ids[k]` and timestamp `stamps[k]`: each valid message is
/// inserted as a fresh record, each invalid one changes nothing.
pub open spec fn replayed_msgs(
    m: Map<u128, QueuedMessageView>,
    events: Seq<MessageEvent>,
    ids: Seq<u128>,
    stamps: Seq<u64>,
) -> Map<u128, QueuedMessageView>
    decreases events.len(),
{
    if events.len() == 0 {
        m
    } else {
        let after_first = if valid_message(events[0].message@) {
            m.insert(ids[0], fresh_record(ids[0], events[0].message@, stamps[0]))
        } else {
            m
        };
        replayed_msgs(after_first, events.skip(1), ids.skip(1), stamps.skip(1))
    }
}

/// The ids appended to the ordering sequence by ingesting `events` in
/// order with ids `ids`: one per valid message, in event order.
pub open spec fn added_ids(events: Seq<MessageEvent>, ids: Seq<u128>) -> Seq<u128>
    decreases events.len(),
{
    if events.len() == 0 {
        Seq::empty()
    } else {
        let rest = added_ids(events.skip(1), ids.skip(1));
        if valid_message(events[0].message@) {
            seq![ids[0]] + rest
        } else {
            rest
        }
    }
}

proof fn lemma_replay_snoc(
    m: Map<u128, QueuedMessageView>,
    events: Seq<MessageEvent>,
    ids: Seq<u128>,
    stamps: Seq<u64>,
    e: MessageEvent,
    x: u128,
    t: u64,
)
    requires
        ids.len() == events.len(),
        stamps.len() == events.len(),
    ensures
        replayed_msgs(m, events.push(e), ids.push(x), stamps.push(t)) == (if valid_message(
            e.message@,
        ) {
            replayed_msgs(m, events, ids, stamps).insert(x, fresh_record(x, e.message@, t))
        } else {
            replayed_msgs(m, events, ids, stamps)
        }),
        added_ids(events.push(e), ids.push(x)) == (if valid_message(e.message@) {
            added_ids(events, ids).push(x)
        } else {
            added_ids(events, ids)
        }),
    decreases events.len(),
{
    if events.len() == 0 {
        reveal_with_fuel(replayed_msgs, 2);
        reveal_with_fuel(added_ids, 2);
        assert(events.push(e)[0] == e);
        assert(ids.push(x)[0] == x);
        assert(stamps.push(t)[0] == t);
        assert(events.push(e).skip(1) =~= Seq::<MessageEvent>::empty());
        assert(ids.push(x).skip(1) =~= Seq::<u128>::empty());
        assert(stamps.push(t).skip(1) =~= Seq::<u64>::empty());
        if valid_message(e.message@) {
            assert(added_ids(events.push(e), ids.push(x)) =~= added_ids(events, ids).push(x));
        }
    } else {
        assert(events.push(e)[0] == events[0]);
        assert(ids.push(x)[0] == ids[0]);
        assert(stamps.push(t)[0] == stamps[0]);
        assert(events.push(e).skip(1) =~= events.skip(1).push(e));
        assert(ids.push(x).skip(1) =~= ids.skip(1).push(x));
        assert(stamps.push(t).skip(1) =~= stamps.skip(1).push(t));
        let after_first = if valid_message(events[0].message@) {
            m.insert(ids[0], fresh_record(ids[0], events[0].message@, stamps[0]))
        } else {
            m
        };
        lemma_replay_snoc(after_first, events.skip(1), ids.skip(1), stamps.skip(1), e, x, t);
        assert(replayed_msgs(m, events.push(e), ids.push(x), stamps.push(t)) == replayed_msgs(
            after_first,
            events.skip(1).push(e),
            ids.skip(1).push(x),
            stamps.skip(1).push(t),
        ));
        assert(replayed_msgs(m, events, ids, stamps) == replayed_msgs(
            after_first,
            events.skip(1),
            ids.skip(1),
            stamps.skip(1),
        ));
        if valid_message(events[0].message@) {
            assert(seq![ids[0]] + added_ids(events.skip(1), ids.skip(1)).push(x) =~= (seq![ids[0]]
                + added_ids(events.skip(1), ids.skip(1))).push(x));
        }
    }
}

/// Owns the message queue, the static configuration and the running flag.
pub struct RelayerService {
    /// The in-flight message store shared between the two loops.
    pub queue: MessageQueue,
    /// Static tunables, read-only after construction.
    pub config: RelayerConfig,
    /// Whether the background loops are (cooperatively) running.
    pub running: bool,
}

impl RelayerService {
    /// Creates a stopped service with an empty queue.
    pub fn new(config: RelayerConfig) -> (s: Self)
        ensures
            s.queue.wf(),
            s.queue.order() == Seq::<u128>::empty(),
            s.queue.msgs() == Map::<u128, QueuedMessageView>::empty(),
            s.config == config,
            !s.running,
    {
        RelayerService { queue: MessageQueue::new(), config, running: false }
    }

    /// Reads the configuration back.
    pub fn configuration(&self) -> (c: RelayerConfig)
        ensures
            c == self.config,
    {
        self.config
    }

    /// Reads the running flag; the loops poll this between iterations.
    pub fn running(&self) -> (r: bool)
        ensures
            r == self.running,
    {
        self.running
    }

    /// Marks the service as running. Fails with a `Configuration` error if
    /// it is already running; the queue is untouched either way.
    pub fn start(&mut self) -> (r: Result<(), RelayerError>)
        ensures
            final(self).queue == old(self).queue,
            final(self).config == old(self).config,
            final(self).running,
            r is Ok <==> !old(self).running,
            old(self).running ==> (r matches Err(e) && e matches RelayerError::Configuration(s)
                && s@ == already_running_reason()),
    {
        if self.running {
            return Err(RelayerError::Configuration("Service already running".to_owned()));
        }
        self.running = true;
        Ok(())
    }

    /// Clears the running flag; the loops observe it and wind down
    /// cooperatively.
    pub fn stop(&mut self)
        ensures
            final(self).queue == old(self).queue,
            final(self).config == old(self).config,
            !final(self).running,
    {
        self.running = false;
    }

    /// Checks a message structurally: both chain ends must be recognized
    /// and the payload must be non-empty. Each violation is reported with
    /// its own reason; no adapter is consulted.
    pub fn validate_message(message: &FrostMessage) -> (r: Result<(), RelayerError>)
        ensures
            r is Ok <==> valid_message(message@),
            message@.from_chain == ChainId::Unknown ==> (r matches Err(e) && e
                matches RelayerError::ValidationError(s) && s@ == source_unknown_reason()),
            message@.from_chain != ChainId::Unknown && message@.to_chain == ChainId::Unknown ==> (r
                matches Err(e) && e matches RelayerError::ValidationError(s) && s@
                == target_unknown_reason()),
            message@.from_chain != ChainId::Unknown && message@.to_chain != ChainId::Unknown
                && message@.payload.len() == 0 ==> (r matches Err(e) && e
                matches RelayerError::ValidationError(s) && s@ == empty_payload_reason()),
    {
        if message.from_chain == ChainId::Unknown {
            return Err(RelayerError::ValidationError("Source chain is unknown".to_owned()));
        }
        if message.to_chain == ChainId::Unknown {
            return Err(RelayerError::ValidationError("Target chain is unknown".to_owned()));
        }
        if message.payload.is_empty() {
            return Err(RelayerError::ValidationError("Payload is empty".to_owned()));
        }
        Ok(())
    }

    /// Handles one event from the source chain: validates the embedded
    /// message and, when acceptable, stores it under a fresh id as a
    /// `Pending` record stamped with the current time.
    pub fn handle_chain_event(queue: &mut MessageQueue, event: MessageEvent) -> (r: Result<
        (),
        RelayerError,
    >)
        requires
            old(queue).wf(),
        ensures
            final(queue).wf(),
            valid_message(event.message@) ==> (r is Ok && (exists|id: u128, t: u64|
                final(queue).order() == old(queue).order().push(id) && final(queue).msgs() == old(
                    queue,
                ).msgs().insert(id, fresh_record(id, event.message@, t)))),
            !valid_message(event.message@) ==> (r matches Err(e) && e
                matches RelayerError::ValidationError(_) && *final(queue) == *old(queue)),
    {
        match Self::validate_message(&event.message) {
            Err(e) => Err(e),
            Ok(()) => {
                let id = fresh_message_id();
                let now = now_unix_secs();
                let ghost mview = event.message@;
                let queued = QueuedMessage {
                    id,
                    message: event.message,
                    status: MessageStatus::Pending,
                    queued_at: now,
                    attempts: 0,
                    last_error: None,
                };
                proof {
                    assert(queued@ == fresh_record(id, mview, now));
                }
                queue.enqueue(queued);
                Ok(())
            }
        }
    }

    /// Ingests a batch of events in order: each valid message is queued
    /// under a fresh id with the current timestamp, each invalid one is
    /// skipped without affecting the rest of the batch.
    pub fn ingest_events(queue: &mut MessageQueue, events: Vec<MessageEvent>)
        requires
            old(queue).wf(),
        ensures
            final(queue).wf(),
            final(queue).order().len() == old(queue).order().len() + count_valid(events@),
            exists|ids: Seq<u128>, stamps: Seq<u64>|
                {
                    &&& ids.len() == events@.len()
                    &&& stamps.len() == events@.len()
                    &&& final(queue).msgs() == replayed_msgs(
                        old(queue).msgs(),
                        events@,
                        ids,
                        stamps,
                    )
                    &&& final(queue).order() == old(queue).order() + added_ids(events@, ids)
                },
    {
        let mut evs = events;
        let ghost all = evs@;
        let ghost mut ids_acc: Seq<u128> = Seq::empty();
        let ghost mut stamps_acc: Seq<u64> = Seq::empty();
        while evs.len() > 0
            invariant
                queue.wf(),
                ids_acc.len() == all.len() - evs@.len(),
                stamps_acc.len() == all.len() - evs@.len(),
                evs@ == all.skip(ids_acc.len() as int),
                queue.msgs() == replayed_msgs(
                    old(queue).msgs(),
                    all.take(ids_acc.len() as int),
                    ids_acc,
                    stamps_acc,
                ),
                queue.order() == old(queue).order() + added_ids(
                    all.take(ids_acc.len() as int),
                    ids_acc,
                ),
                queue.order().len() == old(queue).order().len() + count_valid(all) - count_valid(
                    evs@,
                ),
            decreases evs.len(),
        {
            let ghost i = ids_acc.len() as int;
            let ghost evs_before = evs@;
            let ghost order_before = queue.order();
            let ghost msgs_before = queue.msgs();
            let e = evs.remove(0);
            proof {
                assert(evs@ =~= evs_before.skip(1));
                assert(evs_before[0] == all[i]);
                assert(evs@ =~= all.skip(i + 1));
                assert(count_valid(evs_before) == (if valid_message(evs_before[0].message@) {
                    1int
                } else {
                    0int
                }) + count_valid(evs_before.skip(1)));
            }
            let ghost eview = e.message@;
            let _ = Self::handle_chain_event(queue, e);
            proof {
                assert(all.take(i + 1) =~= all.take(i).push(all[i]));
                if valid_message(eview) {
                    let (id, t): (u128, u64) = choose|id: u128, t: u64|
                        queue.order() == order_before.push(id) && queue.msgs()
                            == msgs_before.insert(id, fresh_record(id, eview, t));
                    lemma_replay_snoc(
                        old(queue).msgs(),
                        all.take(i),
                        ids_acc,
                        stamps_acc,
                        all[i],
                        id,
                        t,
                    );
                    ids_acc = ids_acc.push(id);
                    stamps_acc = stamps_acc.push(t);
                    assert(queue.order() =~= old(queue).order() + added_ids(
                        all.take(i + 1),
                        ids_acc,
                    ));
                } else {
                    lemma_replay_snoc(
                        old(queue).msgs(),
                        all.take(i),
                        ids_acc,
                        stamps_acc,
                        all[i],
                        0u128,
                        0u64,
                    );
                    ids_acc = ids_acc.push(0u128);
                    stamps_acc = stamps_acc.push(0u64);
                }
            }
        }
        proof {
            assert(count_valid(evs@) == 0);
            assert(all.take(ids_acc.len() as int) =~= all);
        }
    }

    /// The processor's selection step: dequeues the next still-pending
    /// message. A message that has already exhausted its retry budget is
    /// transitioned straight to `Failed` and not handed out, so no adapter
    /// is consulted for it; otherwise the message is returned for
    /// verification and submission.
    pub fn next_actionable(queue: &mut MessageQueue, config: &RelayerConfig) -> (r: Option<
        QueuedMessage,
    >)
        requires
            old(queue).wf(),
            forall|id: u128|
                old(queue).msgs().contains_key(id) ==> (#[trigger] old(queue).msgs()[id]).attempts
                    < u32::MAX,
        ensures
            final(queue).wf(),
            first_pending(*old(queue)) is None ==> (r is None && final(queue).msgs() == old(
                queue,
            ).msgs() && final(queue).order() == Seq::<u128>::empty()),
            first_pending(*old(queue)) matches Some(j) ==> {
                let id = old(queue).order()[j];
                let m = old(queue).msgs()[id];
                &&& final(queue).order() == old(queue).order().skip(j + 1)
                &&& (m.attempts >= config.max_retry_attempts ==> (r is None && final(queue).msgs()
                    == old(queue).msgs().insert(
                    id,
                    updated_record(m, MessageStatusView::Failed(max_retry_reason()), None),
                )))
                &&& (m.attempts < config.max_retry_attempts ==> ((r matches Some(msg) && msg@ == m)
                    && final(queue).msgs() == old(queue).msgs()))
            },
    {
        let ghost pre = *old(queue);
        match queue.dequeue() {
            Some(msg) => {
                proof {
                    crate::queue::lemma_first_pending_props(pre);
                    let j = choose|j: int| first_pending(pre) == Some(j);
                    assert(pre.msgs().contains_key(pre.order()[j]));
                    crate::queue::lemma_msgs_key_id(pre, pre.order()[j]);
                    assert(msg@ == pre.msgs()[pre.order()[j]]);
                    assert(msg.id == pre.order()[j]);
                }
                if msg.attempts >= config.max_retry_attempts {
                    queue.update_status(
                        msg.id,
                        MessageStatus::Failed("Max retry attempts exceeded".to_owned()),
                        None,
                    );
                    None
                } else {
                    Some(msg)
                }
            }
            None => None,
        }
    }

    /// Records that proof verification failed for the message under `id`:
    /// the record becomes `Failed` with the adapter's description as its
    /// error text, counting one more attempt.
    pub fn record_proof_failure(queue: &mut MessageQueue, id: u128, adapter_error: String)
        requires
            old(queue).wf(),
            old(queue).msgs().contains_key(id) ==> old(queue).msgs()[id].attempts < u32::MAX,
        ensures
            final(queue).wf(),
            final(queue).order() == old(queue).order(),
            old(queue).msgs().contains_key(id) ==> final(queue).msgs() == old(queue).msgs().insert(
                id,
                updated_record(
                    old(queue).msgs()[id],
                    MessageStatusView::Failed(proof_failure_reason()),
                    Some(adapter_error@),
                ),
            ),
            !old(queue).msgs().contains_key(id) ==> final(queue).msgs() == old(queue).msgs(),
    {
        queue.update_status(
            id,
            MessageStatus::Failed("Proof verification failed".to_owned()),
            Some(adapter_error),
        );
    }

    /// Records that the message under `id` is ready to be submitted.
    pub fn mark_ready_for_submission(queue: &mut MessageQueue, id: u128)
        requires
            old(queue).wf(),
        ensures
            final(queue).wf(),
            final(queue).order() == old(queue).order(),
            old(queue).msgs().contains_key(id) ==> final(queue).msgs() == old(queue).msgs().insert(
                id,
                updated_record(
                    old(queue).msgs()[id],
                    MessageStatusView::ReadyForSubmission,
                    None,
                ),
            ),
            !old(queue).msgs().contains_key(id) ==> final(queue).msgs() == old(queue).msgs(),
    {
        queue.update_status(id, MessageStatus::ReadyForSubmission, None);
    }

    /// Records the destination chain's answer for the message under `id`:
    /// success makes it `Submitted` with no error text, failure makes it
    /// `Failed` with the adapter's description, counting one more attempt.
    pub fn record_submission_result(
        queue: &mut MessageQueue,
        id: u128,
        outcome: Result<(), String>,
    )
        requires
            old(queue).wf(),
            old(queue).msgs().contains_key(id) && outcome is Err ==> old(queue).msgs()[id].attempts
                < u32::MAX,
        ensures
            final(queue).wf(),
            final(queue).order() == old(queue).order(),
            old(queue).msgs().contains_key(id) && outcome is Ok ==> final(queue).msgs() == old(
                queue,
            ).msgs().insert(
                id,
                updated_record(old(queue).msgs()[id], MessageStatusView::Submitted, None),
            ),
            old(queue).msgs().contains_key(id) ==> (outcome matches Err(e) ==> final(queue).msgs()
                == old(queue).msgs().insert(
                id,
                updated_record(
                    old(queue).msgs()[id],
                    MessageStatusView::Failed(submission_failure_reason()),
                    Some(e@),
                ),
            )),
            !old(queue).msgs().contains_key(id) ==> final(queue).msgs() == old(queue).msgs(),
    {
        match outcome {
            Ok(()) => {
                queue.update_status(id, MessageStatus::Submitted, None);
            }
            Err(e) => {
                queue.update_status(
                    id,
                    MessageStatus::Failed("Destination chain submission failed".to_owned()),
                    Some(e),
                );
            }
        }
    }

    /// The processor's closing step: one pruning pass with the configured
    /// retention window, if auto-pruning is enabled.
    pub fn maybe_prune(queue: &mut MessageQueue, config: &RelayerConfig)
        requires
            old(queue).wf(),
            config.enable_auto_pruning ==> config.message_history_hours * 3600 <= u64::MAX,
        ensures
            final(queue).wf(),
            config.enable_auto_pruning ==> (exists|now: u64|
                pruned_with(*old(queue), *final(queue), config.message_history_hours, now)),
            !config.enable_auto_pruning ==> *final(queue) == *old(queue),
    {
        if config.enable_auto_pruning {
            queue.prune_old_messages(config.message_history_hours);
        }
    }
}

} // verus!
