//! Behavior of the message queue: FIFO dequeueing, status updates, retry
//! bookkeeping and pruning.

use frost_relayer::ChainId;
use frost_relayer::FrostMessage;
use frost_relayer::MessageQueue;
use frost_relayer::MessageStatus;
use frost_relayer::QueuedMessage;

fn message(payload: Vec<u8>, proof: Option<Vec<u8>>) -> FrostMessage {
    FrostMessage {
        from_chain: ChainId::Ethereum,
        to_chain: ChainId::Polkadot,
        payload,
        proof,
    }
}

fn record(id: u128, status: MessageStatus, queued_at: u64) -> QueuedMessage {
    QueuedMessage {
        id,
        message: message(vec![1, 2, 3], None),
        status,
        queued_at,
        attempts: 0,
        last_error: None,
    }
}

#[test]
fn dequeue_is_fifo() {
    let mut q = MessageQueue::new();
    q.enqueue(record(1, MessageStatus::Pending, 0));
    q.enqueue(record(2, MessageStatus::Pending, 0));
    q.enqueue(record(3, MessageStatus::Pending, 0));

    let first = q.dequeue().expect("a pending message");
    assert_eq!(first.id, 1);
    let second = q.dequeue().expect("a pending message");
    assert_eq!(second.id, 2);
    let third = q.dequeue().expect("a pending message");
    assert_eq!(third.id, 3);
    assert!(q.dequeue().is_none());
}

#[test]
fn dequeue_skips_and_discards_non_pending() {
    let mut q = MessageQueue::new();
    q.enqueue(record(1, MessageStatus::Pending, 0));
    q.enqueue(record(2, MessageStatus::Pending, 0));
    q.enqueue(record(3, MessageStatus::Pending, 0));
    q.update_status(1, MessageStatus::Proving, None);

    // Id 1 is no longer pending: it is skipped and permanently discarded
    // from the ordering sequence; id 2 comes out first.
    let got = q.dequeue().expect("a pending message");
    assert_eq!(got.id, 2);
    // Id 1 was discarded, not re-queued: only id 3 remains.
    let got = q.dequeue().expect("a pending message");
    assert_eq!(got.id, 3);
    assert!(q.dequeue().is_none());
    // The skipped record itself is still tracked in the lookup map.
    assert!(q.get_message(&1).is_some());
}

#[test]
fn dequeue_is_a_destructive_peek() {
    let mut q = MessageQueue::new();
    q.enqueue(record(7, MessageStatus::Pending, 0));
    let got = q.dequeue().expect("a pending message");
    assert_eq!(got.id, 7);
    // The record stays in the lookup map with unchanged status ...
    let stored = q.get_message(&7).expect("still tracked");
    assert_eq!(stored.status, MessageStatus::Pending);
    // ... but it is no longer in the ordering sequence.
    assert!(q.dequeue().is_none());
}

#[test]
fn failed_update_increments_attempts_once() {
    let mut q = MessageQueue::new();
    q.enqueue(record(1, MessageStatus::Pending, 0));

    q.update_status(1, MessageStatus::Failed("boom".to_string()), Some("boom".to_string()));
    let m = q.get_message(&1).expect("tracked");
    assert_eq!(m.attempts, 1);
    assert_eq!(m.status, MessageStatus::Failed("boom".to_string()));
    assert_eq!(m.last_error, Some("boom".to_string()));

    // A transition into any other status leaves attempts unchanged.
    q.update_status(1, MessageStatus::Submitted, None);
    let m = q.get_message(&1).expect("tracked");
    assert_eq!(m.attempts, 1);
    assert_eq!(m.last_error, None);

    // A second failure counts a second attempt.
    q.update_status(1, MessageStatus::Failed("again".to_string()), None);
    let m = q.get_message(&1).expect("tracked");
    assert_eq!(m.attempts, 2);
}

#[test]
fn update_status_of_unknown_id_is_a_noop() {
    let mut q = MessageQueue::new();
    q.enqueue(record(1, MessageStatus::Pending, 0));
    q.update_status(99, MessageStatus::Submitted, None);
    assert!(q.get_message(&99).is_none());
    let m = q.get_message(&1).expect("tracked");
    assert_eq!(m.status, MessageStatus::Pending);
}

#[test]
fn get_message_returns_a_copy() {
    let mut q = MessageQueue::new();
    q.enqueue(record(5, MessageStatus::Pending, 40));
    let m = q.get_message(&5).expect("tracked");
    assert_eq!(m.id, 5);
    assert_eq!(m.queued_at, 40);
    assert_eq!(m.message.payload, vec![1, 2, 3]);
    assert!(q.get_message(&6).is_none());
}

#[test]
fn prune_spares_in_flight_and_removes_aged_terminal() {
    let mut q = MessageQueue::new();
    let now: u64 = 10 * 3600;
    // All five records are two hours old at `now`.
    let stamp = now - 2 * 3600;
    q.enqueue(record(1, MessageStatus::Pending, stamp));
    q.enqueue(record(2, MessageStatus::Proving, stamp));
    q.enqueue(record(3, MessageStatus::Submitted, stamp));
    q.enqueue(record(4, MessageStatus::Finalized, stamp));
    q.enqueue(record(5, MessageStatus::Failed("e".to_string()), stamp));

    q.prune_at(1, now);

    // Pending and Proving are protected regardless of age.
    assert!(q.get_message(&1).is_some());
    assert!(q.get_message(&2).is_some());
    // Terminal records older than the window are removed.
    assert!(q.get_message(&3).is_none());
    assert!(q.get_message(&4).is_none());
    assert!(q.get_message(&5).is_none());
}

#[test]
fn prune_keeps_young_terminal_records() {
    let mut q = MessageQueue::new();
    let now: u64 = 10 * 3600;
    // Half an hour old: inside a one-hour window.
    let stamp = now - 1800;
    q.enqueue(record(1, MessageStatus::Submitted, stamp));
    q.prune_at(1, now);
    assert!(q.get_message(&1).is_some());
}

#[test]
fn prune_removes_a_record_exactly_at_the_threshold() {
    let mut q = MessageQueue::new();
    let now: u64 = 10 * 3600;
    // Exactly one hour old: the age has reached a one-hour window.
    q.enqueue(record(1, MessageStatus::Submitted, now - 3600));
    // One second younger: still inside the window.
    q.enqueue(record(2, MessageStatus::Submitted, now - 3599));
    q.prune_at(1, now);
    assert!(q.get_message(&1).is_none());
    assert!(q.get_message(&2).is_some());
}

#[test]
fn prune_strips_the_ordering_sequence() {
    let mut q = MessageQueue::new();
    let now: u64 = 10 * 3600;
    let old_stamp = now - 2 * 3600;
    // A stale record that was reset to Pending keeps its slot; a stale
    // Submitted record in front of a fresh Pending one is stripped so it
    // can never be dequeued again.
    q.enqueue(record(1, MessageStatus::Submitted, old_stamp));
    q.enqueue(record(2, MessageStatus::Pending, now));
    q.prune_at(1, now);

    let got = q.dequeue().expect("the fresh record");
    assert_eq!(got.id, 2);
    assert!(q.dequeue().is_none());
    assert!(q.get_message(&1).is_none());
}

#[test]
fn enqueue_with_same_id_overwrites_the_record() {
    let mut q = MessageQueue::new();
    q.enqueue(record(1, MessageStatus::Submitted, 0));
    let mut replacement = record(1, MessageStatus::Pending, 9);
    replacement.attempts = 0;
    q.enqueue(replacement);
    let m = q.get_message(&1).expect("tracked");
    assert_eq!(m.status, MessageStatus::Pending);
    assert_eq!(m.queued_at, 9);
}
