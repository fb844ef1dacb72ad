//! Behavior of the relayer service: validation, event ingestion, the
//! processor's decision steps and the start/stop lifecycle.

use frost_relayer::ChainId;
use frost_relayer::FrostMessage;
use frost_relayer::MessageEvent;
use frost_relayer::MessageStatus;
use frost_relayer::RelayerConfig;
use frost_relayer::RelayerError;
use frost_relayer::RelayerService;

fn config() -> RelayerConfig {
    RelayerConfig {
        max_concurrent_messages: 4,
        max_retry_attempts: 3,
        retry_delay_secs: 1,
        enable_auto_pruning: false,
        message_history_hours: 24,
    }
}

fn message(from: ChainId, to: ChainId, payload: Vec<u8>, proof: Option<Vec<u8>>) -> FrostMessage {
    FrostMessage { from_chain: from, to_chain: to, payload, proof }
}

fn validation_reason(r: Result<(), RelayerError>) -> String {
    match r {
        Err(RelayerError::ValidationError(s)) => s,
        other => panic!("expected a validation error, got {:?}", other),
    }
}

#[test]
fn validation_rejects_each_defect_with_its_own_reason() {
    let unknown_source = message(ChainId::Unknown, ChainId::Polkadot, vec![1], None);
    let unknown_target = message(ChainId::Ethereum, ChainId::Unknown, vec![1], None);
    let empty_payload = message(ChainId::Ethereum, ChainId::Polkadot, vec![], None);

    let r1 = validation_reason(RelayerService::validate_message(&unknown_source));
    let r2 = validation_reason(RelayerService::validate_message(&unknown_target));
    let r3 = validation_reason(RelayerService::validate_message(&empty_payload));

    assert_eq!(r1, "Source chain is unknown");
    assert_eq!(r2, "Target chain is unknown");
    assert_eq!(r3, "Payload is empty");
    assert_ne!(r1, r2);
    assert_ne!(r1, r3);
    assert_ne!(r2, r3);
}

#[test]
fn validation_accepts_a_well_formed_message() {
    let good = message(ChainId::Ethereum, ChainId::Polkadot, vec![1, 2, 3], None);
    assert!(RelayerService::validate_message(&good).is_ok());
}

#[test]
fn handle_chain_event_queues_a_valid_message_as_pending() {
    let mut s = RelayerService::new(config());
    let event = MessageEvent { message: message(ChainId::Ethereum, ChainId::Solana, vec![9], None) };
    RelayerService::handle_chain_event(&mut s.queue, event).expect("valid message accepted");

    let m = s.queue.dequeue().expect("one pending message");
    assert_eq!(m.status, MessageStatus::Pending);
    assert_eq!(m.attempts, 0);
    assert_eq!(m.last_error, None);
    assert_eq!(m.message.payload, vec![9]);
}

#[test]
fn handle_chain_event_refuses_an_invalid_message() {
    let mut s = RelayerService::new(config());
    let event = MessageEvent { message: message(ChainId::Unknown, ChainId::Solana, vec![9], None) };
    let r = RelayerService::handle_chain_event(&mut s.queue, event);
    assert!(matches!(r, Err(RelayerError::ValidationError(_))));
    assert!(s.queue.dequeue().is_none());
}

#[test]
fn ingest_events_skips_invalid_events_without_losing_the_rest() {
    let mut s = RelayerService::new(config());
    let events = vec![
        MessageEvent { message: message(ChainId::Ethereum, ChainId::Polkadot, vec![1], None) },
        MessageEvent { message: message(ChainId::Unknown, ChainId::Polkadot, vec![2], None) },
        MessageEvent { message: message(ChainId::Solana, ChainId::Ethereum, vec![3], None) },
    ];
    RelayerService::ingest_events(&mut s.queue, events);

    let first = s.queue.dequeue().expect("first valid message");
    assert_eq!(first.message.payload, vec![1]);
    let second = s.queue.dequeue().expect("second valid message");
    assert_eq!(second.message.payload, vec![3]);
    assert!(s.queue.dequeue().is_none());
}

#[test]
fn processor_submits_a_proof_free_message() {
    let mut s = RelayerService::new(config());
    let cfg = s.configuration();
    let event = MessageEvent { message: message(ChainId::Ethereum, ChainId::Polkadot, vec![5], None) };
    RelayerService::handle_chain_event(&mut s.queue, event).expect("accepted");

    // One processor iteration against a destination that accepts the
    // submission: select, mark ready, record the success.
    let msg = RelayerService::next_actionable(&mut s.queue, &cfg).expect("actionable");
    assert!(!msg.message.has_proof());
    RelayerService::mark_ready_for_submission(&mut s.queue, msg.id);
    RelayerService::record_submission_result(&mut s.queue, msg.id, Ok(()));

    let stored = s.queue.get_message(&msg.id).expect("tracked");
    assert_eq!(stored.status, MessageStatus::Submitted);
    assert_eq!(stored.last_error, None);
    assert_eq!(stored.attempts, 0);
}

#[test]
fn processor_records_a_proof_verification_failure() {
    let mut s = RelayerService::new(config());
    let cfg = s.configuration();
    let event = MessageEvent {
        message: message(ChainId::Ethereum, ChainId::Polkadot, vec![5], Some(vec![0xAA])),
    };
    RelayerService::handle_chain_event(&mut s.queue, event).expect("accepted");

    // One processor iteration against a source whose proof verification
    // always fails.
    let msg = RelayerService::next_actionable(&mut s.queue, &cfg).expect("actionable");
    assert!(msg.message.has_proof());
    RelayerService::record_proof_failure(&mut s.queue, msg.id, "bad proof".to_string());

    let stored = s.queue.get_message(&msg.id).expect("tracked");
    assert_eq!(stored.status, MessageStatus::Failed("Proof verification failed".to_string()));
    assert_eq!(stored.last_error, Some("bad proof".to_string()));
    assert_eq!(stored.attempts, 1);
}

#[test]
fn processor_fails_an_exhausted_message_without_handing_it_out() {
    let mut cfg = config();
    cfg.max_retry_attempts = 2;
    let mut s = RelayerService::new(cfg);
    let cfg = s.configuration();
    let exhausted = frost_relayer::QueuedMessage {
        id: 42,
        message: message(ChainId::Ethereum, ChainId::Polkadot, vec![5], None),
        status: MessageStatus::Pending,
        queued_at: 0,
        attempts: 2,
        last_error: None,
    };
    s.queue.enqueue(exhausted);

    // The retry budget is already exhausted: the message is not handed out,
    // so the caller has nothing to run the adapters on.
    assert!(RelayerService::next_actionable(&mut s.queue, &cfg).is_none());

    // It was transitioned straight to Failed, with the attempt counted.
    let stored = s.queue.get_message(&42).expect("tracked");
    assert_eq!(stored.status, MessageStatus::Failed("Max retry attempts exceeded".to_string()));
    assert_eq!(stored.attempts, 3);
    assert!(s.queue.dequeue().is_none());
}

#[test]
fn start_twice_is_a_configuration_error() {
    let mut s = RelayerService::new(config());
    assert!(s.start().is_ok());
    assert!(s.running());
    match s.start() {
        Err(RelayerError::Configuration(reason)) => {
            assert_eq!(reason, "Service already running");
        }
        other => panic!("expected a configuration error, got {:?}", other),
    }
    s.stop();
    assert!(!s.running());
    assert!(s.start().is_ok());
}

#[test]
fn maybe_prune_respects_the_auto_pruning_flag() {
    let mut cfg = config();
    cfg.enable_auto_pruning = true;
    cfg.message_history_hours = 1;
    let mut s = RelayerService::new(cfg);
    let cfg = s.configuration();

    // A stale Submitted record, planted directly with an ancient stamp.
    let event = MessageEvent { message: message(ChainId::Ethereum, ChainId::Polkadot, vec![1], None) };
    RelayerService::handle_chain_event(&mut s.queue, event).expect("accepted");
    let msg = s.queue.dequeue().expect("pending");
    let mut stale = msg.clone();
    stale.queued_at = 0;
    stale.status = MessageStatus::Submitted;
    s.queue.enqueue(stale);

    RelayerService::maybe_prune(&mut s.queue, &cfg);
    assert!(s.queue.get_message(&msg.id).is_none());
}
