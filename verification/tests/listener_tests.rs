use slatewallet::WalletError;
use slatewallet::listener::{ListenerAction, ListenerEvent, ListenerState, listener_step};
use slatewallet::receiver::{receive_tx, verify_slate};
use slatewallet::slate::{ParticipantData, Slate};

fn inbound_slate() -> Slate {
    let mut s = Slate::new(9, 2, 1_000_000_000, 8_000_000, None);
    s.add_participant(ParticipantData { id: 0, commit: 11, nonce: 22, has_sig: false, sig: 0 });
    s
}

fn inbound_event(slate: Slate, messages_valid: bool) -> ListenerEvent {
    ListenerEvent::Inbound {
        origin: String::from("gn1counterparty"),
        slate,
        messages_valid,
        message: None,
        commit: 33,
        nonce: 44,
        sig: 55,
    }
}

#[test]
fn scenario_relay_listener_serves_and_replies_to_origin() {
    let mut st = ListenerState::new();
    let action = listener_step(&mut st, inbound_event(inbound_slate(), true));
    match action {
        ListenerAction::PublishReply { origin, reply } => {
            assert_eq!(origin, "gn1counterparty");
            assert_eq!(reply.id, 9);
            assert_eq!(reply.participants.len(), 2);
            assert_eq!(reply.participants[1].id, 1);
            assert!(reply.participants[1].has_sig);
        },
        _ => panic!("expected a reply dispatched back to the origin"),
    }
    assert!(st.running);
    assert_eq!(st.served, 1);
    assert_eq!(st.failed, 0);
}

#[test]
fn per_message_failures_do_not_stop_the_listener() {
    let mut st = ListenerState::new();
    // Tampered message signatures: reported, loop goes on.
    let action = listener_step(&mut st, inbound_event(inbound_slate(), false));
    assert!(matches!(action, ListenerAction::Report { error: WalletError::ValidationError }));
    assert!(st.running);
    assert_eq!(st.failed, 1);
    // An already-countersigned slate: reported, loop goes on.
    let countersigned = receive_tx(inbound_slate(), None, 1, 2, 3).unwrap();
    let action = listener_step(&mut st, inbound_event(countersigned, true));
    assert!(matches!(action, ListenerAction::Report { error: WalletError::StateError }));
    assert!(st.running);
    assert_eq!(st.failed, 2);
    // The next good message is served normally.
    let action = listener_step(&mut st, inbound_event(inbound_slate(), true));
    assert!(matches!(action, ListenerAction::PublishReply { .. }));
    assert_eq!(st.served, 1);
}

#[test]
fn empty_ticks_wait_and_teardown_stops() {
    let mut st = ListenerState::new();
    assert!(matches!(listener_step(&mut st, ListenerEvent::Empty), ListenerAction::Wait));
    assert!(st.running);
    assert!(matches!(
        listener_step(&mut st, ListenerEvent::Disconnected),
        ListenerAction::Stop
    ));
    assert!(!st.running);
    // A stopped listener does not restart.
    assert!(matches!(
        listener_step(&mut st, inbound_event(inbound_slate(), true)),
        ListenerAction::Stop
    ));
    assert_eq!(st.served, 0);
}

#[test]
fn verify_slate_checks_structure_and_signature_verdict() {
    let s = inbound_slate();
    assert!(verify_slate(&s, true).is_ok());
    assert_eq!(verify_slate(&s, false).unwrap_err(), WalletError::ValidationError);
    // Contributions out of order are malformed.
    let mut bad = Slate::new(9, 2, 1, 1, None);
    bad.participants.push(ParticipantData { id: 1, commit: 1, nonce: 2, has_sig: false, sig: 0 });
    bad.participants.push(ParticipantData { id: 0, commit: 3, nonce: 4, has_sig: false, sig: 0 });
    assert_eq!(verify_slate(&bad, true).unwrap_err(), WalletError::ValidationError);
}

#[test]
fn receive_attaches_message_and_grows_by_one_hop() {
    let s = inbound_slate();
    let before = s.participants.len();
    let out = receive_tx(s, Some(String::from("thanks")), 33, 44, 55).unwrap();
    assert_eq!(out.participants.len(), before + 1);
    assert_eq!(out.participants[0].id, 0);
    assert_eq!(out.message, Some(String::from("thanks")));
}

#[test]
fn receive_refuses_an_empty_or_finished_slate() {
    let empty = Slate::new(9, 2, 1, 1, None);
    assert_eq!(
        receive_tx(empty, None, 1, 2, 3).unwrap_err(),
        WalletError::ValidationError
    );
    let countersigned = receive_tx(inbound_slate(), None, 1, 2, 3).unwrap();
    assert_eq!(
        receive_tx(countersigned, None, 4, 5, 6).unwrap_err(),
        WalletError::StateError
    );
}
