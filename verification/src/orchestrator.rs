//! The transaction orchestrator: the sender-side workflow.
//!
//! A send runs `Draft → Locked → Exchanging → Returned → Finalized →
//! Posted`, with `Cancelled` reachable from every state holding a live
//! reservation.  The functions here drive a [`WalletStore`] through that
//! state machine; whatever has to come from a collaborator — the
//! counterparty's reply, the keychain's signatures, the signature-check
//! verdict, the node's accept-or-reject — is handed in as a plain value, and
//! every compensating release the design owes is performed before an error
//! is surfaced.

use vstd::prelude::*;
use crate::WalletError;
use crate::slate::{MAX_SLATE_VERSION, ParticipantData, Slate, parts_wf};
use crate::store::{
    SelectionStrategy, TxRecord, TxState, WalletStore, has_record, lock_transition, lockable,
    sum_unspent,
};

verus! {

/// The flat fee charged on every transaction by this model's fee policy.
pub const BASE_FEE: u64 = 8_000_000;

/// Wire version used when the counterparty states no preference.
pub const DEFAULT_SLATE_VERSION: u16 = 2;

/// The wire version a send will use: the counterparty's stated preference,
/// or the default.
pub open spec fn chosen_version(tv: Option<u16>) -> u16 {
    match tv {
        Some(v) => v,
        None => DEFAULT_SLATE_VERSION,
    }
}

/// Reads a selection-strategy name: `"all"` consumes every unspent output,
/// `"smallest"` the fewest scanned in store order.  Any other name is a
/// configuration error.
pub fn parse_strategy(s: &str) -> (r: Result<SelectionStrategy, WalletError>)
    ensures
        r == Ok::<SelectionStrategy, WalletError>(SelectionStrategy::UseAll) <==> s@ == "all"@,
        r == Ok::<SelectionStrategy, WalletError>(SelectionStrategy::Smallest)
            <==> s@ == "smallest"@,
        r is Err <==> (s@ != "all"@ && s@ != "smallest"@),
        r matches Err(e) ==> e == WalletError::ConfigError,
{
    proof {
        reveal_strlit("all");
        reveal_strlit("smallest");
        assert("all"@.len() == 3);
        assert("smallest"@.len() == 8);
    }
    let owned = s.to_owned();
    if owned == String::from_str("all") {
        Ok(SelectionStrategy::UseAll)
    } else if owned == String::from_str("smallest") {
        Ok(SelectionStrategy::Smallest)
    } else {
        Err(WalletError::ConfigError)
    }
}

/// A record tracking `sid` exists and sits in state `st`.
pub open spec fn record_with(w: WalletStore, sid: u128, st: TxState) -> bool {
    exists|j: int| 0 <= j < w.records@.len()
        && (#[trigger] w.records@[j]).slate_id == sid
        && w.records@[j].state == st
}

/// The inputs `initiate` may be asked to work on and cannot refuse: a
/// supported (or defaulted) wire version and a known strategy name.
pub open spec fn initiate_config_ok(strategy: Seq<char>, tv: Option<u16>) -> bool {
    &&& chosen_version(tv) <= MAX_SLATE_VERSION
    &&& (strategy == "all"@ || strategy == "smallest"@)
}

/// Builds a draft transaction: selects unspent outputs covering `amount`
/// plus the fee under the named strategy, records a draft reservation plan,
/// and returns a slate carrying the sender's (participant 0) contribution.
///
/// Fails with `ConfigError` on an unknown strategy or unsupported version,
/// `StateError` when a record already tracks `slate_id`, and
/// `InsufficientFunds` exactly when the unspent balance is below amount
/// plus fee; on any failure the store is untouched.
pub fn initiate(
    w: &mut WalletStore,
    slate_id: u128,
    amount: u64,
    strategy: &str,
    target_version: Option<u16>,
    message: Option<String>,
    commit: u64,
    nonce: u64,
) -> (r: Result<Slate, WalletError>)
    requires
        old(w).wf(),
    ensures
        final(w).wf(),
        (r is Ok) <==> (initiate_config_ok(strategy@, target_version)
            && !has_record(old(w).records@, slate_id)
            && sum_unspent(old(w).outputs@) >= amount + BASE_FEE),
        r == Err::<Slate, WalletError>(WalletError::ConfigError)
            <==> !initiate_config_ok(strategy@, target_version),
        r == Err::<Slate, WalletError>(WalletError::StateError)
            <==> (initiate_config_ok(strategy@, target_version)
                && has_record(old(w).records@, slate_id)),
        r == Err::<Slate, WalletError>(WalletError::InsufficientFunds)
            <==> (initiate_config_ok(strategy@, target_version)
                && !has_record(old(w).records@, slate_id)
                && sum_unspent(old(w).outputs@) < amount + BASE_FEE),
        r is Err ==> *final(w) == *old(w),
        match r {
            Ok(s) => {
                &&& s.id == slate_id
                &&& s.version == chosen_version(target_version)
                &&& s.amount == amount
                &&& s.fee == BASE_FEE
                &&& s.message == message
                &&& s.participants@ =~= seq![
                    ParticipantData { id: 0, commit, nonce, has_sig: false, sig: 0 }]
                &&& s.wf()
                &&& final(w).outputs@ == old(w).outputs@
                &&& final(w).records@.len() == old(w).records@.len() + 1
                &&& forall|l: int| 0 <= l < old(w).records@.len()
                        ==> final(w).records@[l] == old(w).records@[l]
                &&& final(w).records@.last().slate_id == slate_id
                &&& final(w).records@.last().state is Draft
                &&& final(w).records@.last().amount == amount
                &&& final(w).records@.last().fee == BASE_FEE
                &&& !final(w).records@.last().confirmed
                &&& lockable(*final(w), slate_id)
            },
            Err(_) => true,
        },
{
    let version = match target_version {
        Some(v) => v,
        None => DEFAULT_SLATE_VERSION,
    };
    if version > MAX_SLATE_VERSION {
        return Err(WalletError::ConfigError);
    }
    let strat = match parse_strategy(strategy) {
        Ok(st) => st,
        Err(e) => {
            return Err(e);
        },
    };
    if self_record_exists(w, slate_id) {
        return Err(WalletError::StateError);
    }
    let target: u128 = amount as u128 + BASE_FEE as u128;
    let sel = match w.select_outputs(target, strat) {
        Ok(sel) => sel,
        Err(e) => {
            return Err(e);
        },
    };
    let rec = TxRecord {
        slate_id,
        state: TxState::Draft,
        amount,
        fee: BASE_FEE,
        inputs: sel,
        confirmed: false,
    };
    w.insert_record(rec);
    let mut s = Slate::new(slate_id, version, amount, BASE_FEE, message);
    s.add_participant(ParticipantData { id: 0, commit, nonce, has_sig: false, sig: 0 });
    proof {
        assert(lockable(*w, slate_id)) by {
            let j = w.records@.len() - 1;
            assert(w.records@[j].slate_id == slate_id);
            assert(w.records@[j].state is Draft);
            assert forall|k: int| 0 <= k < w.records@[j].inputs@.len()
                implies w.outputs@[#[trigger] w.records@[j].inputs@[k] as int].status
                    is Unspent by {
            }
        }
        assert(s.participants@ =~= seq![
            ParticipantData { id: 0, commit, nonce, has_sig: false, sig: 0 }]);
    }
    Ok(s)
}

/// Whether a record already tracks `sid`.
fn self_record_exists(w: &WalletStore, sid: u128) -> (r: bool)
    ensures
        r == has_record(w.records@, sid),
{
    match w.record_index(sid) {
        Some(_) => true,
        None => false,
    }
}

/// Takes the reservation for a freshly built slate: the draft record's
/// inputs become locked, claimed by the slate.  Must run before any
/// transport exchange; a slate sent while unlocked risks a double spend.
///
/// Succeeds exactly when the slate's record is a draft whose inputs are all
/// still unspent; otherwise `StateError` and no change.
pub fn tx_lock_outputs(w: &mut WalletStore, slate: &Slate) -> (r: Result<(), WalletError>)
    requires
        old(w).wf(),
    ensures
        final(w).wf(),
        (r is Ok) <==> lockable(*old(w), slate.id),
        match r {
            Ok(_) => exists|j: int| lock_transition(*old(w), *final(w), slate.id, j),
            Err(e) => e == WalletError::StateError && *final(w) == *old(w),
        },
{
    w.lock(slate.id)
}

/// Builds a draft transaction and immediately takes its reservation, so
/// that no network call ever happens on unlocked outputs.  The returned
/// slate carries exactly the sender's contribution and its record is
/// `Locked` with every selected output reserved.
pub fn init_send_tx(
    w: &mut WalletStore,
    slate_id: u128,
    amount: u64,
    strategy: &str,
    target_version: Option<u16>,
    message: Option<String>,
    commit: u64,
    nonce: u64,
) -> (r: Result<Slate, WalletError>)
    requires
        old(w).wf(),
    ensures
        final(w).wf(),
        (r is Ok) <==> (initiate_config_ok(strategy@, target_version)
            && !has_record(old(w).records@, slate_id)
            && sum_unspent(old(w).outputs@) >= amount + BASE_FEE),
        r is Err ==> *final(w) == *old(w),
        r matches Err(e) ==> (e == WalletError::ConfigError || e == WalletError::StateError
            || e == WalletError::InsufficientFunds),
        r == Err::<Slate, WalletError>(WalletError::ConfigError)
            <==> !initiate_config_ok(strategy@, target_version),
        r == Err::<Slate, WalletError>(WalletError::InsufficientFunds)
            <==> (initiate_config_ok(strategy@, target_version)
                && !has_record(old(w).records@, slate_id)
                && sum_unspent(old(w).outputs@) < amount + BASE_FEE),
        match r {
            Ok(s) => {
                &&& s.id == slate_id
                &&& s.version == chosen_version(target_version)
                &&& s.amount == amount
                &&& s.fee == BASE_FEE
                &&& s.message == message
                &&& s.participants@ =~= seq![
                    ParticipantData { id: 0, commit, nonce, has_sig: false, sig: 0 }]
                &&& s.wf()
                &&& record_with(*final(w), slate_id, TxState::Locked)
                &&& final(w).outputs@.len() == old(w).outputs@.len()
            },
            Err(_) => true,
        },
{
    let slate = match initiate(w, slate_id, amount, strategy, target_version, message, commit,
        nonce) {
        Ok(s) => s,
        Err(e) => {
            return Err(e);
        },
    };
    let ghost mid = *w;
    match tx_lock_outputs(w, &slate) {
        Ok(_) => {
            proof {
                let j = choose|j: int| lock_transition(mid, *w, slate_id, j);
                assert(w.records@[j].slate_id == slate_id);
                assert(w.records@[j].state is Locked);
            }
            Ok(slate)
        },
        Err(_) => {
            // `initiate` guarantees the fresh draft is lockable.
            proof {
                assert(false);
            }
            Err(WalletError::StateError)
        },
    }
}

/// Cancels a pending transaction: releases any active reservation and
/// marks the record cancelled.
///
/// Safe to call repeatedly but not idempotent in effect: the first call on
/// a slate holding a reservation releases it, while a call on a slate
/// already cancelled or posted — or never recorded — returns `StateError`
/// and performs no additional release.
pub fn cancel_tx(w: &mut WalletStore, sid: u128) -> (r: Result<(), WalletError>)
    requires
        old(w).wf(),
    ensures
        final(w).wf(),
        (r is Ok) <==> crate::store::cancellable(*old(w), sid),
        match r {
            Ok(_) => {
                &&& exists|j: int| crate::store::cancel_transition(*old(w), *final(w), sid, j)
                &&& record_with(*final(w), sid, TxState::Cancelled)
                &&& crate::store::reservation_released(*final(w), sid)
            },
            Err(e) => e == WalletError::StateError && *final(w) == *old(w),
        },
{
    let ghost pre = *old(w);
    match w.release(sid) {
        Ok(_) => {
            proof {
                let j = choose|j: int| crate::store::cancel_transition(pre, *w, sid, j);
                assert(w.records@[j].slate_id == sid);
                assert(w.records@[j].state is Cancelled);
                crate::store::lemma_cancel_releases(pre, *w, sid, j);
            }
            Ok(())
        },
        Err(e) => Err(e),
    }
}

/// Cancels a pending transaction named by its textual UUID, as callers at
/// the process boundary address it.  An unparseable identifier is a
/// `ConfigError`; otherwise this is exactly [`cancel_tx`] on the parsed
/// identifier.
pub fn cancel_tx_str(w: &mut WalletStore, sid_text: &str) -> (r: Result<(), WalletError>)
    requires
        old(w).wf(),
    ensures
        final(w).wf(),
        match crate::ids::uuid_parse_of(sid_text@) {
            None => r == Err::<(), WalletError>(WalletError::ConfigError)
                && *final(w) == *old(w),
            Some(sid) => {
                &&& (r is Ok) <==> crate::store::cancellable(*old(w), sid)
                &&& match r {
                    Ok(_) => record_with(*final(w), sid, TxState::Cancelled)
                        && crate::store::reservation_released(*final(w), sid),
                    Err(e) => e == WalletError::StateError && *final(w) == *old(w),
                }
            },
        },
{
    match crate::ids::parse_slate_id(sid_text) {
        Some(sid) => cancel_tx(w, sid),
        None => Err(WalletError::ConfigError),
    }
}

/// Looks a transaction record up by its textual UUID, as callers at the
/// process boundary address it.  An unparseable identifier is a
/// `ConfigError`; an identifier no record tracks is a `StateError`.
pub fn tx_retrieve_str<'a>(w: &'a WalletStore, sid_text: &str)
    -> (r: Result<&'a TxRecord, WalletError>)
    ensures
        match crate::ids::uuid_parse_of(sid_text@) {
            None => r == Err::<&'a TxRecord, WalletError>(WalletError::ConfigError),
            Some(sid) => match r {
                Ok(rec) => exists|j: int| 0 <= j < w.records@.len()
                    && rec == w.records@[j] && rec.slate_id == sid,
                Err(e) => e == WalletError::StateError
                    && !has_record(w.records@, sid),
            },
        },
{
    match crate::ids::parse_slate_id(sid_text) {
        Some(sid) => match w.get_transaction(sid) {
            Some(rec) => Ok(rec),
            None => Err(WalletError::StateError),
        },
        None => Err(WalletError::ConfigError),
    }
}

/// What a transport adapter handed back: the counterparty's reply, or a
/// failure (unreachable counterparty, timeout, or nothing usable at all).
pub enum ExchangeOutcome {
    /// The counterparty answered with this document.
    Reply(Slate),
    /// The exchange produced no reply.
    Failed,
}

/// A structurally acceptable reply: one protocol hop over the sent slate,
/// still well-formed, whose new contribution carries its partial signature.
pub open spec fn valid_reply(sent: &Slate, rep: &Slate) -> bool {
    &&& crate::slate::hop(sent, rep)
    &&& parts_wf(rep.participants@)
    &&& rep.participants@.last().has_sig
}

/// Decides whether `rep` is a structurally acceptable reply to `sent`.
fn check_reply(sent: &Slate, rep: &Slate) -> (r: bool)
    ensures
        r == valid_reply(sent, rep),
{
    if rep.id != sent.id || rep.version != sent.version || rep.amount != sent.amount
        || rep.fee != sent.fee {
        return false;
    }
    let n = sent.participants.len();
    if rep.participants.len() == 0 || rep.participants.len() - 1 != n {
        return false;
    }
    let mut i: usize = 0;
    while i < n
        invariant
            n == sent.participants@.len(),
            rep.participants@.len() == n + 1,
            i <= n,
            forall|l: int| 0 <= l < i ==> rep.participants@[l] == sent.participants@[l],
        decreases n - i,
    {
        if !(rep.participants[i] == sent.participants[i]) {
            return false;
        }
        i = i + 1;
    }
    let mut k: usize = 0;
    while k < n
        invariant
            rep.participants@.len() == n + 1,
            k <= n,
            forall|m: int| 0 <= m < k ==> (#[trigger] rep.participants@[m]).id
                < rep.participants@[m + 1].id,
        decreases n - k,
    {
        if !(rep.participants[k].id < rep.participants[k + 1].id) {
            return false;
        }
        k = k + 1;
    }
    let mut v: usize = 0;
    while v < n + 1
        invariant
            rep.participants@.len() == n + 1,
            v <= n + 1,
            n + 1 <= usize::MAX,
            forall|m: int| 0 <= m < v ==> (#[trigger] rep.participants@[m]).valid(),
        decreases n + 1 - v,
    {
        let p = rep.participants[v];
        if !p.has_sig && p.sig != 0 {
            return false;
        }
        v = v + 1;
    }
    proof {
        crate::slate::lemma_adjacent_sorted(rep.participants@);
    }
    rep.participants[n].has_sig
}

/// Hands the sent slate's lifecycle through a transport exchange: on call
/// the record moves `Locked → Exchanging`; a structurally valid reply moves
/// it on to `Returned` and is handed back; a failed exchange or a malformed
/// reply cancels the transaction — releasing the reservation — and surfaces
/// `TransportError`.  A slate not currently locked gets `StateError` and no
/// change.
pub fn exchange(w: &mut WalletStore, sent: &Slate, outcome: ExchangeOutcome)
    -> (r: Result<Slate, WalletError>)
    requires
        old(w).wf(),
    ensures
        final(w).wf(),
        (r is Ok) <==> (record_with(*old(w), sent.id, TxState::Locked)
            && (outcome matches ExchangeOutcome::Reply(rep) && valid_reply(sent, &rep))),
        match r {
            Ok(rep) => {
                &&& outcome matches ExchangeOutcome::Reply(rep0) && rep == rep0
                &&& crate::slate::hop(sent, &rep)
                &&& record_with(*final(w), sent.id, TxState::Returned)
                &&& final(w).outputs@ == old(w).outputs@
                &&& exists|j: int| crate::store::record_state_changed(
                        *old(w), *final(w), j, TxState::Returned)
                    && old(w).records@[j].slate_id == sent.id
                    && old(w).records@[j].state is Locked
            },
            Err(e) => {
                &&& (e == WalletError::StateError
                    <==> !record_with(*old(w), sent.id, TxState::Locked))
                &&& e == WalletError::StateError ==> *final(w) == *old(w)
                &&& e != WalletError::StateError ==> e == WalletError::TransportError
                    && record_with(*final(w), sent.id, TxState::Cancelled)
                    && crate::store::reservation_released(*final(w), sent.id)
            },
        },
{
    let sid = sent.id;
    match w.advance(sid, TxState::Locked, TxState::Exchanging) {
        Ok(_) => {},
        Err(_) => {
            return Err(WalletError::StateError);
        },
    }
    let ghost mid = *w;
    proof {
        assert(record_with(mid, sid, TxState::Exchanging));
    }
    let rep = match outcome {
        ExchangeOutcome::Reply(rep) => rep,
        ExchangeOutcome::Failed => {
            cancel_after(w, Ghost(mid), sid);
            return Err(WalletError::TransportError);
        },
    };
    if check_reply(sent, &rep) {
        match w.advance(sid, TxState::Exchanging, TxState::Returned) {
            Ok(_) => {},
            Err(_) => {
                proof {
                    assert(false);
                }
            },
        }
        proof {
            let j1 = choose|j1: int| crate::store::record_state_changed(
                    *old(w), mid, j1, TxState::Exchanging)
                && old(w).records@[j1].slate_id == sid
                && old(w).records@[j1].state is Locked;
            let j2 = choose|j2: int| crate::store::record_state_changed(mid, *w, j2, TxState::Returned)
                && mid.records@[j2].slate_id == sid
                && mid.records@[j2].state is Exchanging;
            crate::store::lemma_record_unique(mid, sid, j1);
            assert(j2 == j1);
            assert(crate::store::record_state_changed(*old(w), *w, j1, TxState::Returned));
        }
        Ok(rep)
    } else {
        cancel_after(w, Ghost(mid), sid);
        Err(WalletError::TransportError)
    }
}

/// Cancels a slate known to hold a live reservation, releasing it.
fn cancel_after(w: &mut WalletStore, Ghost(mid): Ghost<WalletStore>, sid: u128)
    requires
        old(w).wf(),
        *old(w) == mid,
        crate::store::cancellable(mid, sid),
    ensures
        final(w).wf(),
        record_with(*final(w), sid, TxState::Cancelled),
        crate::store::reservation_released(*final(w), sid),
        final(w).outputs@.len() == old(w).outputs@.len(),
    {
    match w.release(sid) {
        Ok(_) => {
            proof {
                let j = choose|j: int| crate::store::cancel_transition(mid, *w, sid, j);
                assert(w.records@[j].slate_id == sid);
                assert(w.records@[j].state is Cancelled);
                crate::store::lemma_cancel_releases(mid, *w, sid, j);
            }
        },
        Err(_) => {
            proof {
                assert(false);
            }
        },
    }
}

/// Both contributions are in place and can be combined into a complete
/// transaction: exactly the sender (0) and the receiver (1), the latter
/// already carrying its partial signature.
pub open spec fn combinable(rep: &Slate) -> bool {
    &&& rep.participants@.len() == 2
    &&& rep.participants@[0].id == 0
    &&& rep.participants@[1].id == 1
    &&& rep.participants@[1].has_sig
}

/// The sent slate agrees with the bookkeeping: a record in `Locked` state
/// tracks it and carries the same amount and fee.
pub open spec fn locked_matches_record(w: WalletStore, s: &Slate) -> bool {
    exists|j: int| 0 <= j < w.records@.len()
        && (#[trigger] w.records@[j]).slate_id == s.id
        && w.records@[j].state is Locked
        && w.records@[j].amount == s.amount
        && w.records@[j].fee == s.fee
}

/// The reply agrees with the bookkeeping: a record in `Returned` state
/// tracks it and carries the same amount and fee.
pub open spec fn reply_matches_record(w: WalletStore, rep: &Slate) -> bool {
    exists|j: int| 0 <= j < w.records@.len()
        && (#[trigger] w.records@[j]).slate_id == rep.id
        && w.records@[j].state is Returned
        && w.records@[j].amount == rep.amount
        && w.records@[j].fee == rep.fee
}

/// Decides whether the reply's contributions can be combined.
fn check_combinable(rep: &Slate) -> (r: bool)
    ensures
        r == combinable(rep),
{
    rep.participants.len() == 2 && rep.participants[0].id == 0 && rep.participants[1].id == 1
        && rep.participants[1].has_sig
}

/// Verifies the counterparty's reply and combines both contributions into a
/// complete transaction: the record moves `Returned → Finalized` and the
/// returned slate carries the sender's signature over participant 0.
///
/// `messages_valid` is the keychain collaborator's verdict on the reply's
/// message signatures; `sender_sig` is the sender's partial signature.  On
/// a verification or combination failure the reservation is released before
/// `ValidationError` is surfaced — a reservation never survives a failed
/// finalize.  A slate whose record is not `Returned` gets `StateError` and
/// no change.
pub fn finalize_tx(w: &mut WalletStore, reply: Slate, messages_valid: bool, sender_sig: u64)
    -> (r: Result<Slate, WalletError>)
    requires
        old(w).wf(),
    ensures
        final(w).wf(),
        (r is Ok) <==> (record_with(*old(w), reply.id, TxState::Returned)
            && reply_matches_record(*old(w), &reply)
            && messages_valid && combinable(&reply)),
        match r {
            Ok(s) => {
                &&& s.id == reply.id
                &&& s.version == reply.version
                &&& s.amount == reply.amount
                &&& s.fee == reply.fee
                &&& s.message == reply.message
                &&& s.participants@.len() == 2
                &&& s.participants@[0] == (ParticipantData {
                    id: 0,
                    commit: reply.participants@[0].commit,
                    nonce: reply.participants@[0].nonce,
                    has_sig: true,
                    sig: sender_sig,
                })
                &&& s.participants@[1] == reply.participants@[1]
                &&& s.all_signed()
                &&& record_with(*final(w), reply.id, TxState::Finalized)
                &&& final(w).outputs@ == old(w).outputs@
            },
            Err(e) => {
                &&& (e == WalletError::StateError
                    <==> !record_with(*old(w), reply.id, TxState::Returned))
                &&& e == WalletError::StateError ==> *final(w) == *old(w)
                &&& e != WalletError::StateError ==> e == WalletError::ValidationError
                    && record_with(*final(w), reply.id, TxState::Cancelled)
                    && crate::store::reservation_released(*final(w), reply.id)
            },
        },
{
    let sid = reply.id;
    let j = match w.record_index(sid) {
        Some(j) => j,
        None => {
            return Err(WalletError::StateError);
        },
    };
    if !(w.records[j].state == TxState::Returned) {
        proof {
            crate::store::lemma_record_unique(*w, sid, j as int);
        }
        return Err(WalletError::StateError);
    }
    proof {
        crate::store::lemma_record_unique(*w, sid, j as int);
    }
    let amount_matches = w.records[j].amount == reply.amount && w.records[j].fee == reply.fee;
    if !messages_valid || !amount_matches || !check_combinable(&reply) {
        cancel_after(w, Ghost(*w), sid);
        return Err(WalletError::ValidationError);
    }
    match w.advance(sid, TxState::Returned, TxState::Finalized) {
        Ok(_) => {},
        Err(_) => {
            proof {
                assert(false);
            }
        },
    }
    let p0 = reply.participants[0];
    let mut s = reply;
    s.participants.set(0, ParticipantData {
        id: 0,
        commit: p0.commit,
        nonce: p0.nonce,
        has_sig: true,
        sig: sender_sig,
    });
    proof {
        assert forall|i: int| 0 <= i < s.participants@.len()
            implies (#[trigger] s.participants@[i]).has_sig by {
        }
    }
    Ok(s)
}

/// Submits a finalized transaction to the chain node, whose verdict is
/// `node_accepted`.  Acceptance moves the record `Finalized → Posted`,
/// consuming the reservation for good — after that no cancellation is
/// possible.  Rejection cancels the transaction, releasing the reservation,
/// and surfaces `BroadcastError`.  A slate whose record is missing, already
/// posted or confirmed, or otherwise not finalized gets `StateError` and no
/// change.
pub fn post_tx(w: &mut WalletStore, sid: u128, node_accepted: bool)
    -> (r: Result<(), WalletError>)
    requires
        old(w).wf(),
    ensures
        final(w).wf(),
        (r is Ok) <==> (record_with(*old(w), sid, TxState::Finalized) && node_accepted),
        match r {
            Ok(_) => {
                &&& record_with(*final(w), sid, TxState::Posted)
                &&& exists|j: int| crate::store::post_transition(*old(w), *final(w), sid, j)
            },
            Err(e) => {
                &&& (e == WalletError::StateError
                    <==> !record_with(*old(w), sid, TxState::Finalized))
                &&& e == WalletError::StateError ==> *final(w) == *old(w)
                &&& e != WalletError::StateError ==> e == WalletError::BroadcastError
                    && record_with(*final(w), sid, TxState::Cancelled)
                    && crate::store::reservation_released(*final(w), sid)
            },
        },
{
    let j = match w.record_index(sid) {
        Some(j) => j,
        None => {
            return Err(WalletError::StateError);
        },
    };
    if !(w.records[j].state == TxState::Finalized) {
        proof {
            crate::store::lemma_record_unique(*w, sid, j as int);
        }
        return Err(WalletError::StateError);
    }
    proof {
        crate::store::lemma_record_unique(*w, sid, j as int);
    }
    if node_accepted {
        match w.consume(sid) {
            Ok(_) => {
                proof {
                    let j2 = choose|j2: int|
                        crate::store::post_transition(*old(w), *w, sid, j2);
                    assert(w.records@[j2].slate_id == sid);
                    assert(w.records@[j2].state is Posted);
                }
                Ok(())
            },
            Err(_) => {
                proof {
                    assert(false);
                }
                Err(WalletError::StateError)
            },
        }
    } else {
        cancel_after(w, Ghost(*w), sid);
        Err(WalletError::BroadcastError)
    }
}

/// Runs the post-transport half of a send to completion: verify the
/// transport's outcome, finalize, and broadcast.
///
/// Success requires everything to have gone right — the slate was locked, a
/// structurally valid and combinable reply arrived, its message signatures
/// checked out, and the node accepted the transaction — and ends with the
/// record `Posted` and a fully signed slate.  Any failure after the lock
/// ends with the record `Cancelled` and the reservation released: the lock
/// never outlives the operation.
pub fn complete_send_tx(
    w: &mut WalletStore,
    sent: &Slate,
    outcome: ExchangeOutcome,
    messages_valid: bool,
    sender_sig: u64,
    node_accepted: bool,
) -> (r: Result<Slate, WalletError>)
    requires
        old(w).wf(),
    ensures
        final(w).wf(),
        (r is Ok) <==> (record_with(*old(w), sent.id, TxState::Locked)
            && locked_matches_record(*old(w), sent)
            && (outcome matches ExchangeOutcome::Reply(rep)
                && valid_reply(sent, &rep) && combinable(&rep))
            && messages_valid && node_accepted),
        match r {
            Ok(s) => {
                &&& s.id == sent.id
                &&& s.amount == sent.amount
                &&& s.fee == sent.fee
                &&& s.all_signed()
                &&& record_with(*final(w), sent.id, TxState::Posted)
            },
            Err(e) => {
                &&& (e == WalletError::StateError
                    <==> !record_with(*old(w), sent.id, TxState::Locked))
                &&& e == WalletError::StateError ==> *final(w) == *old(w)
                &&& e != WalletError::StateError
                    ==> record_with(*final(w), sent.id, TxState::Cancelled)
                        && crate::store::reservation_released(*final(w), sent.id)
                &&& (e == WalletError::TransportError
                    <==> record_with(*old(w), sent.id, TxState::Locked)
                        && !(outcome matches ExchangeOutcome::Reply(rep)
                            && valid_reply(sent, &rep)))
                &&& (e == WalletError::ValidationError
                    <==> record_with(*old(w), sent.id, TxState::Locked)
                        && (outcome matches ExchangeOutcome::Reply(rep)
                            && valid_reply(sent, &rep)
                            && !(messages_valid && combinable(&rep)
                                && locked_matches_record(*old(w), sent))))
                &&& (e == WalletError::BroadcastError
                    <==> record_with(*old(w), sent.id, TxState::Locked)
                        && locked_matches_record(*old(w), sent)
                        && (outcome matches ExchangeOutcome::Reply(rep)
                            && valid_reply(sent, &rep)
                            && messages_valid && combinable(&rep) && !node_accepted))
            },
        },
{
    let ghost pre = *old(w);
    let reply = match exchange(w, sent, outcome) {
        Ok(rep) => rep,
        Err(e) => {
            return Err(e);
        },
    };
    proof {
        let j = choose|j: int| crate::store::record_state_changed(pre, *w, j, TxState::Returned)
            && pre.records@[j].slate_id == sent.id
            && pre.records@[j].state is Locked;
        crate::store::lemma_record_unique(pre, sent.id, j);
        crate::store::lemma_record_unique(*w, sent.id, j);
        assert(reply_matches_record(*w, &reply) <==> locked_matches_record(pre, sent)) by {
            if locked_matches_record(pre, sent) {
                let j3 = choose|j3: int| 0 <= j3 < pre.records@.len()
                    && (#[trigger] pre.records@[j3]).slate_id == sent.id
                    && pre.records@[j3].state is Locked
                    && pre.records@[j3].amount == sent.amount
                    && pre.records@[j3].fee == sent.fee;
                assert(j3 == j);
                assert(w.records@[j].slate_id == reply.id);
                assert(w.records@[j].state is Returned);
                assert(w.records@[j].amount == reply.amount);
                assert(w.records@[j].fee == reply.fee);
            }
            if reply_matches_record(*w, &reply) {
                let j4 = choose|j4: int| 0 <= j4 < w.records@.len()
                    && (#[trigger] w.records@[j4]).slate_id == reply.id
                    && w.records@[j4].state is Returned
                    && w.records@[j4].amount == reply.amount
                    && w.records@[j4].fee == reply.fee;
                assert(j4 == j);
                assert(pre.records@[j].amount == sent.amount);
                assert(pre.records@[j].fee == sent.fee);
            }
        }
    }
    let finalized = match finalize_tx(w, reply, messages_valid, sender_sig) {
        Ok(s) => s,
        Err(e) => {
            proof {
                assert(e != WalletError::StateError);
            }
            return Err(e);
        },
    };
    match post_tx(w, sent.id, node_accepted) {
        Ok(_) => Ok(finalized),
        Err(e) => {
            proof {
                assert(e != WalletError::StateError);
            }
            Err(e)
        },
    }
}

} // verus!
