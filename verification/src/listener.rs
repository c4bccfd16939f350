//! The relay listener: the decision core of the background process that
//! serves inbound relay messages.
//!
//! The surrounding process owns the channel and the thread; each poll tick
//! it hands one event to [`listener_step`] and performs the returned
//! action.  Failures on a single message are non-fatal — they are reported
//! and the loop continues — and only an explicit channel teardown stops the
//! listener.

use vstd::prelude::*;
use crate::WalletError;
use crate::slate::{ParticipantData, Slate, hop};
use crate::receiver::{receivable, receive_tx, verify_slate};

verus! {

/// What the listener has done so far, and whether it is still serving.
pub struct ListenerState {
    /// False once the inbound channel was torn down.
    pub running: bool,
    /// Countersigned replies dispatched back to their origin.
    pub served: u64,
    /// Inbound messages that failed verification or countersigning.
    pub failed: u64,
}

impl ListenerState {
    /// A freshly started listener: serving, nothing handled yet.
    pub fn new() -> (s: ListenerState)
        ensures
            s.running,
            s.served == 0,
            s.failed == 0,
    {
        ListenerState { running: true, served: 0, failed: 0 }
    }
}

/// One poll-tick observation of the inbound relay channel.
pub enum ListenerEvent {
    /// A counterparty addressed a slate to this wallet's relay identity.
    Inbound {
        /// The relay address to answer to.
        origin: String,
        /// The inbound negotiation document.
        slate: Slate,
        /// The keychain collaborator's verdict on its message signatures.
        messages_valid: bool,
        /// Optional annotation to attach to the reply.
        message: Option<String>,
        /// The receiver contribution's commitment, from the keychain.
        commit: u64,
        /// The receiver contribution's public nonce, from the keychain.
        nonce: u64,
        /// The receiver's partial signature, from the keychain.
        sig: u64,
    },
    /// Nothing waiting on the channel this tick.
    Empty,
    /// The channel's producer disconnected: explicit teardown.
    Disconnected,
}

/// What the surrounding process must do after a step.
pub enum ListenerAction {
    /// Publish the countersigned reply back over the relay.
    PublishReply {
        /// The relay address the slate came from.
        origin: String,
        /// The countersigned document to send back.
        reply: Slate,
    },
    /// Report a per-message failure and carry on listening.
    Report {
        /// Why this message was dropped.
        error: WalletError,
    },
    /// Sleep until the next poll tick.
    Wait,
    /// Leave the poll loop.
    Stop,
}

/// Runs one iteration of the listener loop: on an inbound slate, verify
/// and countersign it, asking the caller to publish the reply to its
/// origin; on a per-message failure, ask the caller to report it and keep
/// listening; stop only on explicit teardown.  A single bad message never
/// stops the listener and never touches any shared state.
pub fn listener_step(st: &mut ListenerState, event: ListenerEvent) -> (a: ListenerAction)
    ensures
        final(st).running == (old(st).running && !(event is Disconnected)),
        !old(st).running ==> a is Stop && *final(st) == *old(st),
        old(st).running ==> match event {
            ListenerEvent::Disconnected => a is Stop
                && final(st).served == old(st).served
                && final(st).failed == old(st).failed,
            ListenerEvent::Empty => a is Wait && *final(st) == *old(st),
            ListenerEvent::Inbound {
                origin, slate, messages_valid, message, commit, nonce, sig } => {
                &&& final(st).running
                &&& if messages_valid && receivable(&slate) {
                    &&& (a matches ListenerAction::PublishReply { origin: o, reply }
                        && o == origin
                        && hop(&slate, &reply)
                        && reply.participants@ == slate.participants@.push(
                            ParticipantData { id: 1, commit, nonce, has_sig: true, sig })
                        && reply.message == (if message is Some { message } else { slate.message }))
                    &&& final(st).served == (if old(st).served < u64::MAX {
                        old(st).served + 1
                    } else {
                        old(st).served as int
                    })
                    &&& final(st).failed == old(st).failed
                } else {
                    &&& (a matches ListenerAction::Report { error }
                        && (error == WalletError::ValidationError
                            || error == WalletError::StateError))
                    &&& final(st).failed == (if old(st).failed < u64::MAX {
                        old(st).failed + 1
                    } else {
                        old(st).failed as int
                    })
                    &&& final(st).served == old(st).served
                }
            },
        },
{
    if !st.running {
        return ListenerAction::Stop;
    }
    match event {
        ListenerEvent::Disconnected => {
            st.running = false;
            ListenerAction::Stop
        },
        ListenerEvent::Empty => ListenerAction::Wait,
        ListenerEvent::Inbound { origin, slate, messages_valid, message, commit, nonce, sig } => {
            match verify_slate(&slate, messages_valid) {
                Err(e) => {
                    if st.failed < u64::MAX {
                        st.failed = st.failed + 1;
                    }
                    ListenerAction::Report { error: e }
                },
                Ok(_) => {
                    match receive_tx(slate, message, commit, nonce, sig) {
                        Ok(reply) => {
                            if st.served < u64::MAX {
                                st.served = st.served + 1;
                            }
                            ListenerAction::PublishReply { origin, reply }
                        },
                        Err(e) => {
                            if st.failed < u64::MAX {
                                st.failed = st.failed + 1;
                            }
                            ListenerAction::Report { error: e }
                        },
                    }
                },
            }
        },
    }
}

} // verus!
