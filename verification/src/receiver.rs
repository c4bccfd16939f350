//! The receiver workflow (foreign role): verify an inbound slate, add the
//! receiver's contribution, and hand the countersigned document back.
//!
//! Each invocation is stateless: `Received → Verified → Countersigned` runs
//! entirely over the slate passed in.  The receiver never locks outputs of
//! its own — it only contributes a signature over the sender's proposed
//! transaction.

use vstd::prelude::*;
use crate::WalletError;
use crate::slate::{ParticipantData, Slate, hop};

verus! {

/// An inbound slate the receiver can work on: well-formed and carrying
/// exactly the sender's contribution, not yet signed.
pub open spec fn receivable(s: &Slate) -> bool {
    &&& s.wf()
    &&& s.participants@.len() == 1
    &&& s.participants@[0].id == 0
    &&& !s.participants@[0].has_sig
}

/// Verifies an inbound slate before countersigning: it must be
/// structurally well-formed, carry at least the sender's contribution, and
/// its message signatures must have checked out (`messages_valid` is the
/// keychain collaborator's verdict).  On failure the slate is discarded by
/// the caller and no contribution is added.
pub fn verify_slate(s: &Slate, messages_valid: bool) -> (r: Result<(), WalletError>)
    ensures
        (r is Ok) <==> (s.wf() && s.participants@.len() >= 1 && messages_valid),
        r matches Err(e) ==> e == WalletError::ValidationError,
{
    if s.check_wf() && s.participants.len() >= 1 && messages_valid {
        Ok(())
    } else {
        Err(WalletError::ValidationError)
    }
}

/// Adds the receiver's (participant 1) contribution — commitment, nonce
/// and partial signature, produced by the keychain collaborator — and
/// returns the countersigned slate; an accompanying message, when given,
/// replaces the slate's annotation.  Reservations are never touched.
///
/// Fails with `ValidationError` on a malformed or empty slate and with
/// `StateError` when the slate is already countersigned or fully signed.
pub fn receive_tx(
    s: Slate,
    message: Option<String>,
    commit: u64,
    nonce: u64,
    sig: u64,
) -> (r: Result<Slate, WalletError>)
    ensures
        (r is Ok) <==> receivable(&s),
        r == Err::<Slate, WalletError>(WalletError::ValidationError)
            <==> (!s.wf() || s.participants@.len() == 0),
        r == Err::<Slate, WalletError>(WalletError::StateError)
            <==> (s.wf() && s.participants@.len() >= 1 && !receivable(&s)),
        match r {
            Ok(out) => {
                &&& hop(&s, &out)
                &&& out.participants@ == s.participants@.push(
                    ParticipantData { id: 1, commit, nonce, has_sig: true, sig })
                &&& out.message == (if message is Some { message } else { s.message })
                &&& out.wf()
            },
            Err(_) => true,
        },
{
    if !s.check_wf() || s.participants.len() == 0 {
        return Err(WalletError::ValidationError);
    }
    if s.participants.len() != 1 {
        return Err(WalletError::StateError);
    }
    let p0 = s.participants[0];
    if p0.id != 0 || p0.has_sig {
        return Err(WalletError::StateError);
    }
    let mut out = s;
    match message {
        Some(m) => {
            out.message = Some(m);
        },
        None => {},
    }
    out.add_participant(ParticipantData { id: 1, commit, nonce, has_sig: true, sig });
    Ok(out)
}

} // verus!
