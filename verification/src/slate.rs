//! The slate: the shared, partially-signed transaction-negotiation document.
//!
//! A slate carries the transaction identifier, the negotiated protocol
//! version, the amount and fee, an optional free-text annotation, and one
//! cryptographic contribution per participant.  Participant 0 is the sender,
//! participant 1 the receiver; contributions are kept ordered by participant
//! index and only ever grow, one per protocol hop.

use vstd::prelude::*;

verus! {

/// Highest wire-protocol version this library understands.
pub const MAX_SLATE_VERSION: u16 = 2;

/// One participant's cryptographic contribution to a slate.
///
/// The commitment, public nonce and partial signature are values produced by
/// the keychain collaborator; the negotiation logic never looks inside them,
/// so they are carried as plain numbers.
#[derive(Clone, Copy, Debug, PartialEq, Eq, Structural)]
pub struct ParticipantData {
    /// Participant index: 0 is the sender, 1 is the receiver.
    pub id: u64,
    /// The participant's commitment to its blinding factor.
    pub commit: u64,
    /// The participant's public nonce.
    pub nonce: u64,
    /// Whether the partial signature has been given yet.
    pub has_sig: bool,
    /// The partial signature; 0 until `has_sig` holds.
    pub sig: u64,
}

impl ParticipantData {
    /// A contribution is valid when an absent signature is stored as 0.
    pub open spec fn valid(self) -> bool {
        !self.has_sig ==> self.sig == 0
    }
}

/// The contributions are well-formed when they are sorted strictly by
/// participant index (hence unique) and each one is valid.
pub open spec fn parts_wf(ps: Seq<ParticipantData>) -> bool {
    &&& forall|i: int, j: int| 0 <= i < j < ps.len() ==> ps[i].id < ps[j].id
    &&& forall|i: int| 0 <= i < ps.len() ==> (#[trigger] ps[i]).valid()
}

/// The transaction-negotiation document exchanged between the two parties.
#[derive(Debug)]
pub struct Slate {
    /// Globally unique transaction identifier.
    pub id: u128,
    /// Wire-protocol version negotiated per counterparty capability.
    pub version: u16,
    /// Transaction amount.
    pub amount: u64,
    /// Transaction fee.
    pub fee: u64,
    /// Optional free-text annotation attached by either party.
    pub message: Option<String>,
    /// One contribution per participant, ordered by participant index.
    pub participants: Vec<ParticipantData>,
}

impl Slate {
    /// A slate is well-formed when its version is supported and its
    /// contributions are well-formed.
    pub open spec fn wf(&self) -> bool {
        &&& self.version <= MAX_SLATE_VERSION
        &&& parts_wf(self.participants@)
    }

    /// Whether every contribution carries its partial signature.
    pub open spec fn all_signed(&self) -> bool {
        forall|i: int| 0 <= i < self.participants@.len()
            ==> (#[trigger] self.participants@[i]).has_sig
    }

    /// Creates a fresh slate with no contributions.
    pub fn new(id: u128, version: u16, amount: u64, fee: u64, message: Option<String>) -> (s: Slate)
        requires
            version <= MAX_SLATE_VERSION,
        ensures
            s.id == id,
            s.version == version,
            s.amount == amount,
            s.fee == fee,
            s.message == message,
            s.participants@ =~= Seq::<ParticipantData>::empty(),
            s.wf(),
    {
        Slate { id, version, amount, fee, message, participants: Vec::new() }
    }

    /// Appends one contribution; the set of contributions strictly grows by
    /// one and the existing ones are untouched.
    pub fn add_participant(&mut self, p: ParticipantData)
        requires
            old(self).wf(),
            p.valid(),
            forall|i: int| 0 <= i < old(self).participants@.len()
                ==> (#[trigger] old(self).participants@[i]).id < p.id,
        ensures
            final(self).participants@ == old(self).participants@.push(p),
            final(self).id == old(self).id,
            final(self).version == old(self).version,
            final(self).amount == old(self).amount,
            final(self).fee == old(self).fee,
            final(self).message == old(self).message,
            final(self).wf(),
    {
        self.participants.push(p);
    }

    /// Copies the document, field for field.
    pub fn duplicate(&self) -> (r: Slate)
        ensures
            r.id == self.id,
            r.version == self.version,
            r.amount == self.amount,
            r.fee == self.fee,
            r.message == self.message,
            r.participants@ == self.participants@,
    {
        let message = match &self.message {
            Some(m) => Some(m.clone()),
            None => None,
        };
        let mut parts: Vec<ParticipantData> = Vec::new();
        let mut i: usize = 0;
        while i < self.participants.len()
            invariant
                i <= self.participants@.len(),
                parts@ =~= self.participants@.take(i as int),
            decreases self.participants@.len() - i,
        {
            parts.push(self.participants[i]);
            i = i + 1;
        }
        proof {
            assert(parts@ =~= self.participants@);
        }
        Slate {
            id: self.id,
            version: self.version,
            amount: self.amount,
            fee: self.fee,
            message,
            participants: parts,
        }
    }

    /// Decides well-formedness: supported version, contributions sorted
    /// strictly by participant index, absent signatures stored as 0.
    pub fn check_wf(&self) -> (r: bool)
        ensures
            r == self.wf(),
    {
        if self.version > MAX_SLATE_VERSION {
            return false;
        }
        let n = self.participants.len();
        let mut i: usize = 0;
        while i < n
            invariant
                n == self.participants@.len(),
                i <= n,
                forall|m: int| 0 <= m < i
                    ==> (#[trigger] self.participants@[m]).valid(),
                forall|m: int| 0 <= m < i && m < n - 1
                    ==> (#[trigger] self.participants@[m]).id < self.participants@[m + 1].id,
            decreases n - i,
        {
            let p = self.participants[i];
            if !p.has_sig && p.sig != 0 {
                return false;
            }
            if i + 1 < n {
                if !(p.id < self.participants[i + 1].id) {
                    return false;
                }
            }
            i = i + 1;
        }
        proof {
            lemma_adjacent_sorted(self.participants@);
        }
        true
    }

}

/// One protocol hop: the document after the hop is the document before it
/// with exactly one contribution appended and everything else unchanged.
pub open spec fn hop(pre: &Slate, post: &Slate) -> bool {
    &&& post.id == pre.id
    &&& post.version == pre.version
    &&& post.amount == pre.amount
    &&& post.fee == pre.fee
    &&& post.participants@.len() == pre.participants@.len() + 1
    &&& forall|i: int| 0 <= i < pre.participants@.len()
        ==> post.participants@[i] == pre.participants@[i]
}

/// Contributions sorted at each adjacent pair are sorted throughout.
pub proof fn lemma_adjacent_sorted(ps: Seq<ParticipantData>)
    requires
        forall|m: int| 0 <= m < ps.len() - 1 ==> (#[trigger] ps[m]).id < ps[m + 1].id,
    ensures
        forall|k: int, l: int| 0 <= k < l < ps.len() ==> ps[k].id < ps[l].id,
{
    assert forall|k: int, l: int| 0 <= k < l < ps.len() implies ps[k].id < ps[l].id by {
        lemma_sorted_from(ps, k, l);
    }
}

proof fn lemma_sorted_from(ps: Seq<ParticipantData>, k: int, l: int)
    requires
        forall|m: int| 0 <= m < ps.len() - 1 ==> (#[trigger] ps[m]).id < ps[m + 1].id,
        0 <= k < l < ps.len(),
    ensures
        ps[k].id < ps[l].id,
    decreases l - k,
{
    if k + 1 < l {
        lemma_sorted_from(ps, k + 1, l);
    }
}

/// Across every successful hop, the participant-contribution count grows by
/// exactly one and never decreases: the earlier contributions all survive,
/// in place, and one new contribution stands at the end.
pub proof fn lemma_hop_grows_by_one(pre: &Slate, post: &Slate)
    requires
        hop(pre, post),
    ensures
        post.participants@.len() == pre.participants@.len() + 1,
        post.participants@.len() > pre.participants@.len(),
        post.participants@.subrange(0, pre.participants@.len() as int) =~= pre.participants@,
{
}

} // verus!
