use slatewallet::WalletError;
use slatewallet::orchestrator::{
    BASE_FEE, ExchangeOutcome, cancel_tx, cancel_tx_str, complete_send_tx, exchange, finalize_tx,
    init_send_tx, initiate, parse_strategy, post_tx, tx_lock_outputs, tx_retrieve_str,
};
use slatewallet::receiver::receive_tx;
use slatewallet::store::{OutputStatus, SelectionStrategy, TxState, WalletStore};
use slatewallet::listener::{ListenerAction, ListenerEvent, ListenerState, listener_step};

const GRIN: u64 = 1_000_000_000;

fn funded_store(values: &[u64]) -> WalletStore {
    let mut w = WalletStore::new();
    for v in values {
        w.add_output(*v).unwrap();
    }
    w
}

#[test]
fn initiate_builds_draft_with_one_contribution() {
    let mut w = funded_store(&[10 * GRIN]);
    let slate = initiate(&mut w, 7, GRIN, "smallest", None, None, 11, 22).unwrap();
    assert_eq!(slate.id, 7);
    assert_eq!(slate.amount, GRIN);
    assert_eq!(slate.fee, BASE_FEE);
    assert_eq!(slate.version, 2);
    assert_eq!(slate.participants.len(), 1);
    assert_eq!(slate.participants[0].id, 0);
    assert_eq!(slate.participants[0].commit, 11);
    assert!(!slate.participants[0].has_sig);
    let rec = w.get_transaction(7).unwrap();
    assert_eq!(rec.state, TxState::Draft);
    // The draft holds no reservation yet.
    assert_eq!(w.outputs[0].status, OutputStatus::Unspent);
}

#[test]
fn scenario_single_output_send_locks_reservation() {
    let mut w = funded_store(&[10 * GRIN]);
    let slate = init_send_tx(&mut w, 42, GRIN, "smallest", Some(2), None, 11, 22).unwrap();
    assert_eq!(slate.participants.len(), 1);
    let rec = w.get_transaction(42).unwrap();
    assert_eq!(rec.state, TxState::Locked);
    assert_eq!(rec.inputs, vec![0]);
    assert_eq!(w.outputs[0].status, OutputStatus::Locked);
    assert_eq!(w.outputs[0].claim, Some(42));
}

#[test]
fn initiate_rejects_bad_strategy_and_version() {
    let mut w = funded_store(&[10 * GRIN]);
    assert_eq!(
        initiate(&mut w, 1, GRIN, "largest", None, None, 1, 2).unwrap_err(),
        WalletError::ConfigError
    );
    assert_eq!(
        initiate(&mut w, 1, GRIN, "smallest", Some(9), None, 1, 2).unwrap_err(),
        WalletError::ConfigError
    );
    assert!(w.records.is_empty());
}

#[test]
fn initiate_rejects_duplicate_identifier() {
    let mut w = funded_store(&[10 * GRIN, 10 * GRIN]);
    init_send_tx(&mut w, 5, GRIN, "smallest", None, None, 1, 2).unwrap();
    assert_eq!(
        initiate(&mut w, 5, GRIN, "smallest", None, None, 1, 2).unwrap_err(),
        WalletError::StateError
    );
}

#[test]
fn initiate_reports_insufficient_funds() {
    let mut w = funded_store(&[GRIN / 2]);
    assert_eq!(
        init_send_tx(&mut w, 5, GRIN, "smallest", None, None, 1, 2).unwrap_err(),
        WalletError::InsufficientFunds
    );
    assert!(w.records.is_empty());
    assert_eq!(w.outputs[0].status, OutputStatus::Unspent);
}

#[test]
fn scenario_refused_connection_releases_reservation() {
    let mut w = funded_store(&[10 * GRIN]);
    let slate = init_send_tx(&mut w, 42, GRIN, "smallest", None, None, 11, 22).unwrap();
    assert_eq!(w.outputs[0].status, OutputStatus::Locked);
    let err = exchange(&mut w, &slate, ExchangeOutcome::Failed).unwrap_err();
    assert_eq!(err, WalletError::TransportError);
    assert_eq!(w.outputs[0].status, OutputStatus::Unspent);
    assert_eq!(w.outputs[0].claim, None);
    assert_eq!(w.get_transaction(42).unwrap().state, TxState::Cancelled);
}

#[test]
fn malformed_reply_is_a_transport_error() {
    let mut w = funded_store(&[10 * GRIN]);
    let slate = init_send_tx(&mut w, 42, GRIN, "smallest", None, None, 11, 22).unwrap();
    // A reply carrying a different transaction identifier is malformed.
    let mut bad = receive_tx(slate.duplicate(), None, 33, 44, 55).unwrap();
    bad.id = 43;
    let err = exchange(&mut w, &slate, ExchangeOutcome::Reply(bad)).unwrap_err();
    assert_eq!(err, WalletError::TransportError);
    assert_eq!(w.get_transaction(42).unwrap().state, TxState::Cancelled);
    assert_eq!(w.outputs[0].status, OutputStatus::Unspent);
}

#[test]
fn full_send_reaches_posted_and_consumes_outputs() {
    let mut w = funded_store(&[10 * GRIN]);
    let sent = init_send_tx(&mut w, 42, GRIN, "smallest", None, None, 11, 22).unwrap();
    let reply = receive_tx(sent.duplicate(), None, 33, 44, 55).unwrap();
    let finalized =
        complete_send_tx(&mut w, &sent, ExchangeOutcome::Reply(reply), true, 66, true).unwrap();
    assert_eq!(finalized.id, 42);
    assert_eq!(finalized.participants.len(), 2);
    assert!(finalized.participants[0].has_sig);
    assert!(finalized.participants[1].has_sig);
    assert_eq!(finalized.participants[0].sig, 66);
    let rec = w.get_transaction(42).unwrap();
    assert_eq!(rec.state, TxState::Posted);
    assert_eq!(w.outputs[0].status, OutputStatus::Spent);
    assert_eq!(w.outputs[0].claim, Some(42));
}

#[test]
fn scenario_tampered_reply_cancels_then_second_cancel_errors() {
    let mut w = funded_store(&[10 * GRIN]);
    let sent = init_send_tx(&mut w, 42, GRIN, "smallest", None, None, 11, 22).unwrap();
    let reply = receive_tx(sent.duplicate(), None, 33, 44, 55).unwrap();
    // The keychain collaborator reports the message signatures as tampered.
    let err = complete_send_tx(&mut w, &sent, ExchangeOutcome::Reply(reply), false, 66, true)
        .unwrap_err();
    assert_eq!(err, WalletError::ValidationError);
    assert_eq!(w.get_transaction(42).unwrap().state, TxState::Cancelled);
    assert_eq!(w.outputs[0].status, OutputStatus::Unspent);
    // A subsequent cancel on the same identifier is refused and releases
    // nothing further.
    assert_eq!(cancel_tx(&mut w, 42).unwrap_err(), WalletError::StateError);
    assert_eq!(w.get_transaction(42).unwrap().state, TxState::Cancelled);
}

#[test]
fn node_rejection_is_a_broadcast_error_and_releases() {
    let mut w = funded_store(&[10 * GRIN]);
    let sent = init_send_tx(&mut w, 42, GRIN, "smallest", None, None, 11, 22).unwrap();
    let reply = receive_tx(sent.duplicate(), None, 33, 44, 55).unwrap();
    let err = complete_send_tx(&mut w, &sent, ExchangeOutcome::Reply(reply), true, 66, false)
        .unwrap_err();
    assert_eq!(err, WalletError::BroadcastError);
    assert_eq!(w.get_transaction(42).unwrap().state, TxState::Cancelled);
    assert_eq!(w.outputs[0].status, OutputStatus::Unspent);
}

#[test]
fn post_is_refused_once_posted() {
    let mut w = funded_store(&[10 * GRIN]);
    let sent = init_send_tx(&mut w, 42, GRIN, "smallest", None, None, 11, 22).unwrap();
    let reply = receive_tx(sent.duplicate(), None, 33, 44, 55).unwrap();
    complete_send_tx(&mut w, &sent, ExchangeOutcome::Reply(reply), true, 66, true).unwrap();
    // Re-broadcasting an already-posted transaction is refused, and so is
    // cancelling it.
    assert_eq!(post_tx(&mut w, 42, true).unwrap_err(), WalletError::StateError);
    assert_eq!(cancel_tx(&mut w, 42).unwrap_err(), WalletError::StateError);
    assert_eq!(w.outputs[0].status, OutputStatus::Spent);
}

#[test]
fn scenario_overlapping_sends_reserve_exactly_once() {
    // One fat output both sends would want, plus a small disjoint one.
    let mut w = funded_store(&[10 * GRIN, 3 * GRIN]);
    let first = init_send_tx(&mut w, 1, 5 * GRIN, "smallest", None, None, 11, 22).unwrap();
    assert_eq!(w.get_transaction(first.id).unwrap().inputs, vec![0]);
    assert_eq!(w.outputs[0].status, OutputStatus::Locked);
    // The second send can no longer see output 0: it selects the disjoint
    // small output.
    let second = init_send_tx(&mut w, 2, GRIN, "smallest", None, None, 11, 22).unwrap();
    assert_eq!(w.get_transaction(second.id).unwrap().inputs, vec![1]);
    assert_eq!(w.outputs[1].claim, Some(2));
    // A third send needing more than the remainder fails outright.
    assert_eq!(
        init_send_tx(&mut w, 3, 5 * GRIN, "smallest", None, None, 11, 22).unwrap_err(),
        WalletError::InsufficientFunds
    );
}

#[test]
fn lock_fails_on_missing_or_non_draft_records() {
    let mut w = funded_store(&[10 * GRIN]);
    let slate = init_send_tx(&mut w, 9, GRIN, "smallest", None, None, 1, 2).unwrap();
    // Already locked: a second lock is refused.
    assert_eq!(tx_lock_outputs(&mut w, &slate).unwrap_err(), WalletError::StateError);
}

#[test]
fn finalize_requires_a_returned_record() {
    let mut w = funded_store(&[10 * GRIN]);
    let sent = init_send_tx(&mut w, 42, GRIN, "smallest", None, None, 11, 22).unwrap();
    let reply = receive_tx(sent.duplicate(), None, 33, 44, 55).unwrap();
    // The record is Locked, not Returned: finalize is refused and nothing
    // is released.
    assert_eq!(
        finalize_tx(&mut w, reply, true, 66).unwrap_err(),
        WalletError::StateError
    );
    assert_eq!(w.outputs[0].status, OutputStatus::Locked);
}

#[test]
fn strategy_names_parse_exactly() {
    assert_eq!(parse_strategy("all").unwrap(), SelectionStrategy::UseAll);
    assert_eq!(parse_strategy("smallest").unwrap(), SelectionStrategy::Smallest);
    assert_eq!(parse_strategy("ALL").unwrap_err(), WalletError::ConfigError);
    assert_eq!(parse_strategy("").unwrap_err(), WalletError::ConfigError);
}

#[test]
fn use_all_strategy_consumes_every_unspent_output() {
    let mut w = funded_store(&[2 * GRIN, 3 * GRIN, 4 * GRIN]);
    let slate = init_send_tx(&mut w, 8, GRIN, "all", None, None, 1, 2).unwrap();
    assert_eq!(slate.amount, GRIN);
    assert_eq!(w.get_transaction(8).unwrap().inputs, vec![0, 1, 2]);
    for o in &w.outputs {
        assert_eq!(o.status, OutputStatus::Locked);
    }
}

#[test]
fn smallest_strategy_takes_shortest_prefix() {
    let mut w = funded_store(&[2 * GRIN, 3 * GRIN, 4 * GRIN]);
    // 2 + 3 covers 4 GRIN + fee; output 2 stays free.
    let _ = init_send_tx(&mut w, 8, 4 * GRIN, "smallest", None, None, 1, 2).unwrap();
    assert_eq!(w.get_transaction(8).unwrap().inputs, vec![0, 1]);
    assert_eq!(w.outputs[2].status, OutputStatus::Unspent);
}

#[test]
fn balance_reflects_reservations() {
    let mut w = funded_store(&[2 * GRIN, 3 * GRIN]);
    assert_eq!(w.balance(), 5 * GRIN as u128);
    init_send_tx(&mut w, 8, GRIN, "smallest", None, None, 1, 2).unwrap();
    assert_eq!(w.balance(), 3 * GRIN as u128);
}

#[test]
fn cancel_by_text_identifier_round_trips() {
    let mut w = funded_store(&[10 * GRIN]);
    let sid: u128 = 0xa1a2a3a4b1b2c1c2d1d2d3d4d5d6d7d8;
    init_send_tx(&mut w, sid, GRIN, "smallest", None, None, 11, 22).unwrap();
    let text = slatewallet::ids::slate_id_text(sid);
    assert_eq!(text, "a1a2a3a4-b1b2-c1c2-d1d2-d3d4d5d6d7d8");
    cancel_tx_str(&mut w, &text).unwrap();
    assert_eq!(w.get_transaction(sid).unwrap().state, TxState::Cancelled);
    assert_eq!(
        cancel_tx_str(&mut w, "not-a-uuid").unwrap_err(),
        WalletError::ConfigError
    );
}

#[test]
fn retrieve_by_text_identifier() {
    let mut w = funded_store(&[10 * GRIN]);
    let sid: u128 = 0xa1a2a3a4b1b2c1c2d1d2d3d4d5d6d7d8;
    init_send_tx(&mut w, sid, GRIN, "smallest", None, None, 11, 22).unwrap();
    let rec = tx_retrieve_str(&w, "a1a2a3a4-b1b2-c1c2-d1d2-d3d4d5d6d7d8").unwrap();
    assert_eq!(rec.slate_id, sid);
    assert_eq!(rec.amount, GRIN);
    assert_eq!(
        tx_retrieve_str(&w, "a1a2a3a4-b1b2-c1c2-d1d2-000000000000").unwrap_err(),
        WalletError::StateError
    );
    assert_eq!(tx_retrieve_str(&w, "junk").unwrap_err(), WalletError::ConfigError);
}

#[test]
fn error_messages_are_structured() {
    assert_eq!(WalletError::InsufficientFunds.describe(), "insufficient funds");
    assert_eq!(
        WalletError::StateError.describe(),
        "transaction is in an incompatible state"
    );
}

#[test]
fn relay_scenario_reaches_posted_with_listener_served_reply() {
    // Sender side: build and lock.
    let mut sender = funded_store(&[10 * GRIN]);
    let sent = init_send_tx(&mut sender, 77, GRIN, "smallest", None, None, 11, 22).unwrap();
    // Receiver side: the listener serves the inbound slate within the
    // settle window and dispatches a countersigned reply to the origin.
    let mut st = ListenerState::new();
    let action = listener_step(&mut st, ListenerEvent::Inbound {
        origin: String::from("gn1sender"),
        slate: sent.duplicate(),
        messages_valid: true,
        message: None,
        commit: 33,
        nonce: 44,
        sig: 55,
    });
    let reply = match action {
        ListenerAction::PublishReply { origin, reply } => {
            assert_eq!(origin, "gn1sender");
            reply
        },
        _ => panic!("listener should have countersigned"),
    };
    assert_eq!(st.served, 1);
    // Sender side again: the correlated reply finalizes and posts.
    let finalized =
        complete_send_tx(&mut sender, &sent, ExchangeOutcome::Reply(reply), true, 66, true)
            .unwrap();
    assert_eq!(finalized.id, 77);
    assert_eq!(sender.get_transaction(77).unwrap().state, TxState::Posted);
}

#[test]
fn confirmation_is_recorded_only_once_posted() {
    let mut w = funded_store(&[10 * GRIN]);
    let sent = init_send_tx(&mut w, 42, GRIN, "smallest", None, None, 11, 22).unwrap();
    // Not posted yet: the node's confirmation report is refused.
    assert_eq!(w.confirm(42).unwrap_err(), WalletError::StateError);
    let reply = receive_tx(sent.duplicate(), None, 33, 44, 55).unwrap();
    complete_send_tx(&mut w, &sent, ExchangeOutcome::Reply(reply), true, 66, true).unwrap();
    w.confirm(42).unwrap();
    assert!(w.get_transaction(42).unwrap().confirmed);
    assert_eq!(w.confirm(99).unwrap_err(), WalletError::StateError);
}

#[test]
fn terminal_records_resolve_reservations_exactly_one_way() {
    // A posted transaction: its inputs are consumed, none released.
    let mut w = funded_store(&[10 * GRIN]);
    let sent = init_send_tx(&mut w, 1, GRIN, "smallest", None, None, 11, 22).unwrap();
    let reply = receive_tx(sent.duplicate(), None, 33, 44, 55).unwrap();
    complete_send_tx(&mut w, &sent, ExchangeOutcome::Reply(reply), true, 66, true).unwrap();
    let consumed = w.outputs.iter().filter(|o| o.claim == Some(1)).count();
    let spent = w
        .outputs
        .iter()
        .filter(|o| o.claim == Some(1) && o.status == OutputStatus::Spent)
        .count();
    assert_eq!(consumed, 1);
    assert_eq!(spent, consumed);
    // A cancelled transaction: nothing claims it at all.
    let mut w2 = funded_store(&[10 * GRIN]);
    let sent2 = init_send_tx(&mut w2, 2, GRIN, "smallest", None, None, 11, 22).unwrap();
    exchange(&mut w2, &sent2, ExchangeOutcome::Failed).unwrap_err();
    assert!(w2.outputs.iter().all(|o| o.claim != Some(2)));
}

#[test]
fn outputs_for_projects_a_slates_funding() {
    let mut w = funded_store(&[2 * GRIN, 3 * GRIN, 4 * GRIN]);
    init_send_tx(&mut w, 6, 4 * GRIN, "smallest", None, None, 1, 2).unwrap();
    let reserved = w.outputs_for(6);
    assert_eq!(reserved.len(), 2);
    assert_eq!(reserved[0].value, 2 * GRIN);
    assert_eq!(reserved[1].value, 3 * GRIN);
    assert!(reserved.iter().all(|o| o.status == OutputStatus::Locked));
    assert!(w.outputs_for(999).is_empty());
}

#[test]
fn amount_tampered_reply_fails_finalize_and_cancels() {
    let mut w = funded_store(&[10 * GRIN]);
    let sent = init_send_tx(&mut w, 42, GRIN, "smallest", None, None, 11, 22).unwrap();
    let mut reply = receive_tx(sent.duplicate(), None, 33, 44, 55).unwrap();
    // The counterparty claims a different amount: the exchange already
    // refuses it as a malformed reply and releases the reservation.
    reply.amount = 2 * GRIN;
    let err = complete_send_tx(&mut w, &sent, ExchangeOutcome::Reply(reply), true, 66, true)
        .unwrap_err();
    assert_eq!(err, WalletError::TransportError);
    assert_eq!(w.get_transaction(42).unwrap().state, TxState::Cancelled);
    assert_eq!(w.outputs[0].status, OutputStatus::Unspent);

    // On the offline path the reply file reaches finalize directly; a
    // tampered amount there fails verification against the record and the
    // reservation is released before the error surfaces.
    let mut w2 = funded_store(&[10 * GRIN]);
    let sent2 = init_send_tx(&mut w2, 7, GRIN, "smallest", None, None, 11, 22).unwrap();
    let good = receive_tx(sent2.duplicate(), None, 33, 44, 55).unwrap();
    exchange(&mut w2, &sent2, ExchangeOutcome::Reply(good)).unwrap();
    let mut tampered = receive_tx(sent2.duplicate(), None, 33, 44, 55).unwrap();
    tampered.amount = 2 * GRIN;
    assert_eq!(
        finalize_tx(&mut w2, tampered, true, 66).unwrap_err(),
        WalletError::ValidationError
    );
    assert_eq!(w2.get_transaction(7).unwrap().state, TxState::Cancelled);
    assert_eq!(w2.outputs[0].status, OutputStatus::Unspent);
}
