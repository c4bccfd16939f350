//! The wallet store: the in-memory model of the storage backend that the
//! orchestration logic drives.
//!
//! It tracks outputs (each unspent, locked, or spent, together with the
//! slate identifier claiming it) and one transaction record per slate.  The
//! well-formedness invariant couples the two: an active record holds a lock
//! on each of its inputs, a posted record has consumed them, and a draft or
//! cancelled record claims nothing — so a reservation can never be left in
//! limbo.

use vstd::prelude::*;
use vstd::pervasive::VecAdditionalExecFns;
use crate::WalletError;

verus! {

/// Upper bound on the number of tracked outputs, so that value sums fit
/// comfortably in 128 bits.
pub const MAX_OUTPUTS: usize = 0xffff_ffff;

/// The lifecycle status of a backend-tracked output.
#[derive(Clone, Copy, Debug, PartialEq, Eq, Structural)]
pub enum OutputStatus {
    /// Free to be selected for a new transaction.
    Unspent,
    /// Reserved for the slate named by the output's claim.
    Locked,
    /// Consumed by the posted transaction named by the output's claim.
    Spent,
}

/// One backend-tracked output.  Outputs are identified by their index in
/// the store; they are never removed or reordered.
#[derive(Clone, Copy, Debug)]
pub struct Output {
    /// The output's value.
    pub value: u64,
    /// Whether the output is free, reserved, or consumed.
    pub status: OutputStatus,
    /// The slate identifier the output is reserved for or consumed by.
    pub claim: Option<u128>,
}

impl Output {
    /// An output carries a claim exactly when it is locked or spent.
    pub open spec fn valid(self) -> bool {
        match self.status {
            OutputStatus::Unspent => self.claim is None,
            OutputStatus::Locked => self.claim is Some,
            OutputStatus::Spent => self.claim is Some,
        }
    }
}

/// The lifecycle state of a sender-side transaction.
#[derive(Clone, Copy, Debug, PartialEq, Eq, Structural)]
pub enum TxState {
    /// Built, outputs selected but not yet reserved.
    Draft,
    /// Outputs reserved for this slate.
    Locked,
    /// Handed to a transport, awaiting the counterparty's reply.
    Exchanging,
    /// A well-formed reply came back.
    Returned,
    /// Both contributions combined into a complete transaction.
    Finalized,
    /// Accepted by the chain node; the reservation is consumed.
    Posted,
    /// Abandoned; the reservation is released.
    Cancelled,
}

/// States in which the record holds a live reservation on its inputs.
pub open spec fn active(st: TxState) -> bool {
    st is Locked || st is Exchanging || st is Returned || st is Finalized
}

/// States in which the transaction can no longer change.
pub open spec fn terminal(st: TxState) -> bool {
    st is Posted || st is Cancelled
}

/// Bookkeeping entry correlating a slate identifier to its lifecycle state.
#[derive(Debug)]
pub struct TxRecord {
    /// The slate this record tracks.
    pub slate_id: u128,
    /// Where the transaction stands in its lifecycle.
    pub state: TxState,
    /// The amount being sent.
    pub amount: u64,
    /// The fee paid.
    pub fee: u64,
    /// Indices of the outputs selected to fund the transaction.
    pub inputs: Vec<usize>,
    /// Whether the chain has confirmed the posted transaction.
    pub confirmed: bool,
}

/// Whether output index `i` is one of the record's inputs.
pub open spec fn input_of(r: TxRecord, i: int) -> bool {
    exists|k: int| 0 <= k < r.inputs@.len() && r.inputs@[k] == i
}

/// Every input of the record has the given status and is claimed by the
/// record's slate.
pub open spec fn inputs_have(outs: Seq<Output>, r: TxRecord, st: OutputStatus) -> bool {
    forall|k: int| 0 <= k < r.inputs@.len() ==> {
        let i = #[trigger] r.inputs@[k] as int;
        &&& outs[i].status == st
        &&& outs[i].claim == Some(r.slate_id)
    }
}

/// Well-formedness of one record against the output table.
pub open spec fn rec_wf(outs: Seq<Output>, r: TxRecord) -> bool {
    &&& r.inputs@.len() >= 1
    &&& forall|k: int, l: int| 0 <= k < l < r.inputs@.len() ==> r.inputs@[k] < r.inputs@[l]
    &&& forall|k: int| 0 <= k < r.inputs@.len() ==> (#[trigger] r.inputs@[k]) < outs.len()
    &&& active(r.state) ==> inputs_have(outs, r, OutputStatus::Locked)
    &&& r.state is Posted ==> inputs_have(outs, r, OutputStatus::Spent)
    &&& r.confirmed ==> r.state is Posted
}

/// Every input of the record is unspent.
pub open spec fn inputs_unspent(outs: Seq<Output>, r: TxRecord) -> bool {
    forall|k: int| 0 <= k < r.inputs@.len()
        ==> outs[#[trigger] r.inputs@[k] as int].status is Unspent
}

/// No output at all is claimed by the given slate.
pub open spec fn unclaimed(outs: Seq<Output>, sid: u128) -> bool {
    forall|i: int| 0 <= i < outs.len() ==> (#[trigger] outs[i]).claim != Some(sid)
}

/// An output's claim is backed by the record of the claiming slate, in a
/// state matching the output's status.
pub open spec fn claim_backed(recs: Seq<TxRecord>, o: Output) -> bool {
    match o.claim {
        Some(sid) => exists|j: int| 0 <= j < recs.len()
            && (#[trigger] recs[j]).slate_id == sid
            && (o.status is Locked ==> active(recs[j].state))
            && (o.status is Spent ==> recs[j].state is Posted),
        None => true,
    }
}

/// Some record tracks the given slate.
pub open spec fn has_record(recs: Seq<TxRecord>, sid: u128) -> bool {
    exists|j: int| 0 <= j < recs.len() && (#[trigger] recs[j]).slate_id == sid
}

/// The in-memory storage backend: the output table and the transaction log.
pub struct WalletStore {
    /// All tracked outputs, identified by index.
    pub outputs: Vec<Output>,
    /// One record per slate ever initiated.
    pub records: Vec<TxRecord>,
}

impl WalletStore {
    /// The store invariant.
    ///
    /// Records track distinct slates; every record is well-formed against
    /// the output table; every output's claim matches its status; a draft or
    /// cancelled record claims nothing; and every claim is backed by a
    /// record.
    pub open spec fn wf(&self) -> bool {
        &&& self.outputs@.len() <= MAX_OUTPUTS
        &&& forall|i: int, j: int| 0 <= i < j < self.records@.len()
                ==> self.records@[i].slate_id != self.records@[j].slate_id
        &&& forall|j: int| 0 <= j < self.records@.len()
                ==> rec_wf(self.outputs@, #[trigger] self.records@[j])
        &&& forall|i: int| 0 <= i < self.outputs@.len()
                ==> (#[trigger] self.outputs@[i]).valid()
        &&& forall|j: int| 0 <= j < self.records@.len()
                && ((#[trigger] self.records@[j]).state is Draft
                    || self.records@[j].state is Cancelled)
                ==> unclaimed(self.outputs@, self.records@[j].slate_id)
        &&& forall|i: int| 0 <= i < self.outputs@.len()
                ==> claim_backed(self.records@, #[trigger] self.outputs@[i])
    }

    /// Creates an empty store.
    pub fn new() -> (s: WalletStore)
        ensures
            s.outputs@ =~= Seq::<Output>::empty(),
            s.records@ =~= Seq::<TxRecord>::empty(),
            s.wf(),
    {
        WalletStore { outputs: Vec::new(), records: Vec::new() }
    }

    /// Adds a fresh unspent output of the given value; returns its index.
    /// Fails with `StorageError` only when the output table is full.
    pub fn add_output(&mut self, value: u64) -> (r: Result<usize, WalletError>)
        requires
            old(self).wf(),
        ensures
            final(self).wf(),
            final(self).records@ == old(self).records@,
            match r {
                Ok(i) => {
                    &&& old(self).outputs@.len() < MAX_OUTPUTS
                    &&& i == old(self).outputs@.len()
                    &&& final(self).outputs@ == old(self).outputs@.push(
                        Output { value, status: OutputStatus::Unspent, claim: None })
                },
                Err(e) => {
                    &&& e == WalletError::StorageError
                    &&& old(self).outputs@.len() == MAX_OUTPUTS
                    &&& *final(self) == *old(self)
                },
            },
    {
        if self.outputs.len() >= MAX_OUTPUTS {
            return Err(WalletError::StorageError);
        }
        let i = self.outputs.len();
        self.outputs.push(Output { value, status: OutputStatus::Unspent, claim: None });
        assert forall|j: int| 0 <= j < self.records@.len()
            implies rec_wf(self.outputs@, #[trigger] self.records@[j]) by {
            assert(rec_wf(old(self).outputs@, self.records@[j]));
        }
        Ok(i)
    }

    /// Finds the record tracking the given slate, if any.
    pub fn record_index(&self, sid: u128) -> (r: Option<usize>)
        ensures
            match r {
                Some(j) => j < self.records@.len() && self.records@[j as int].slate_id == sid,
                None => !has_record(self.records@, sid),
            },
    {
        let mut j: usize = 0;
        while j < self.records.len()
            invariant
                j <= self.records@.len(),
                forall|l: int| 0 <= l < j ==> (#[trigger] self.records@[l]).slate_id != sid,
            decreases self.records@.len() - j,
        {
            if self.records[j].slate_id == sid {
                return Some(j);
            }
            j = j + 1;
        }
        None
    }

    /// Read-only projection: the record for a slate identifier, if any.
    pub fn get_transaction(&self, sid: u128) -> (r: Option<&TxRecord>)
        ensures
            match r {
                Some(rec) => exists|j: int| 0 <= j < self.records@.len()
                    && rec == self.records@[j] && rec.slate_id == sid,
                None => !has_record(self.records@, sid),
            },
    {
        match self.record_index(sid) {
            Some(j) => Some(&self.records[j]),
            None => None,
        }
    }

    /// Read-only projection: the outputs claimed by the given slate, in
    /// store order — its reserved or consumed funding.
    pub fn outputs_for(&self, sid: u128) -> (r: Vec<Output>)
        ensures
            r@ == self.outputs@.filter(|o: Output| o.claim == Some(sid)),
    {
        let mut r: Vec<Output> = Vec::new();
        let mut i: usize = 0;
        proof {
            reveal(Seq::filter);
            assert(self.outputs@.take(0).filter(|o: Output| o.claim == Some(sid))
                =~= Seq::<Output>::empty());
        }
        while i < self.outputs.len()
            invariant
                i <= self.outputs@.len(),
                r@ == self.outputs@.take(i as int).filter(|o: Output| o.claim == Some(sid)),
            decreases self.outputs@.len() - i,
        {
            proof {
                reveal(Seq::filter);
                assert(self.outputs@.take(i + 1).drop_last() =~= self.outputs@.take(i as int));
                assert(self.outputs@.take(i + 1).last() == self.outputs@[i as int]);
            }
            let o = self.outputs[i];
            let claimed = match o.claim {
                Some(s) => s == sid,
                None => false,
            };
            if claimed {
                r.push(o);
            }
            i = i + 1;
        }
        proof {
            assert(self.outputs@.take(self.outputs@.len() as int) =~= self.outputs@);
        }
        r
    }

    /// Read-only projection: the total value of the unspent outputs.
    pub fn balance(&self) -> (r: u128)
        requires
            self.wf(),
        ensures
            r == sum_unspent(self.outputs@),
    {
        let mut acc: u128 = 0;
        let mut i: usize = 0;
        while i < self.outputs.len()
            invariant
                self.wf(),
                i <= self.outputs@.len(),
                acc == sum_unspent(self.outputs@.take(i as int)),
            decreases self.outputs@.len() - i,
        {
            proof {
                lemma_sum_unspent_bound(self.outputs@.take(i as int));
                assert(self.outputs@.take(i + 1).drop_last() =~= self.outputs@.take(i as int));
                assert(self.outputs@.take(i + 1).last() == self.outputs@[i as int]);
            }
            let o = self.outputs[i];
            if o.status == OutputStatus::Unspent {
                acc = acc + o.value as u128;
            }
            i = i + 1;
        }
        proof {
            assert(self.outputs@.take(self.outputs@.len() as int) =~= self.outputs@);
        }
        acc
    }

    /// Asks the backend model for a set of unspent outputs whose values
    /// cover `target` (the amount plus the fee, hence at least 1) under the
    /// given selection strategy.
    ///
    /// Returns the selected output indices, in increasing order, all
    /// unspent, covering `target`; with `UseAll` the selection is exactly
    /// the unspent outputs, with `Smallest` it is the shortest prefix of
    /// them that covers the target.  Fails with `InsufficientFunds` exactly
    /// when the whole unspent balance is below the target.
    pub fn select_outputs(&self, target: u128, strategy: SelectionStrategy)
        -> (r: Result<Vec<usize>, WalletError>)
        requires
            self.wf(),
            target >= 1,
        ensures
            (r is Ok) <==> sum_unspent(self.outputs@) >= target,
            match r {
                Ok(sel) => {
                    &&& sel@.len() >= 1
                    &&& forall|k: int, l: int| 0 <= k < l < sel@.len() ==> sel@[k] < sel@[l]
                    &&& forall|k: int| 0 <= k < sel@.len()
                            ==> (#[trigger] sel@[k]) < self.outputs@.len()
                                && self.outputs@[sel@[k] as int].status is Unspent
                    &&& sel_sum(self.outputs@, sel@) >= target
                    &&& strategy is UseAll ==> forall|i: int| 0 <= i < self.outputs@.len()
                            ==> ((#[trigger] self.outputs@[i]).status is Unspent
                                <==> selected(sel@, i))
                    &&& strategy is Smallest
                            ==> sel_sum(self.outputs@, sel@.drop_last()) < target
                    &&& forall|i: int, k: int|
                            #![trigger sel@[k], self.outputs@[i]]
                            0 <= k < sel@.len() && 0 <= i < sel@[k]
                            && self.outputs@[i].status is Unspent ==> selected(sel@, i)
                },
                Err(e) => e == WalletError::InsufficientFunds
                    && sum_unspent(self.outputs@) < target,
            },
    {
        let use_all = strategy == SelectionStrategy::UseAll;
        let mut sel: Vec<usize> = Vec::new();
        let mut acc: u128 = 0;
        let mut i: usize = 0;
        while i < self.outputs.len() && (use_all || acc < target)
            invariant
                self.wf(),
                target >= 1,
                use_all == (strategy == SelectionStrategy::UseAll),
                i <= self.outputs@.len(),
                acc == sum_unspent(self.outputs@.take(i as int)),
                acc == sel_sum(self.outputs@, sel@),
                forall|k: int, l: int| 0 <= k < l < sel@.len() ==> sel@[k] < sel@[l],
                forall|k: int| 0 <= k < sel@.len() ==> (#[trigger] sel@[k]) < i
                    && self.outputs@[sel@[k] as int].status is Unspent,
                forall|j: int| 0 <= j < i && (#[trigger] self.outputs@[j]).status is Unspent
                    ==> selected(sel@, j),
                !use_all && sel@.len() >= 1 ==> sel_sum(self.outputs@, sel@.drop_last()) < target,
                use_all || acc < target || (sel@.len() >= 1
                    && sel_sum(self.outputs@, sel@.drop_last()) < target),
            decreases self.outputs@.len() - i,
        {
            proof {
                lemma_sum_unspent_bound(self.outputs@.take(i as int));
                assert(self.outputs@.take(i + 1).drop_last() =~= self.outputs@.take(i as int));
                assert(self.outputs@.take(i + 1).last() == self.outputs@[i as int]);
            }
            let o = self.outputs[i];
            if o.status == OutputStatus::Unspent {
                proof {
                    assert(sel@.push(i).drop_last() =~= sel@);
                }
                sel.push(i);
                acc = acc + o.value as u128;
            }
            i = i + 1;
        }
        if acc >= target {
            proof {
                lemma_sum_unspent_take_le(self.outputs@, i as int);
                assert(sel@.len() >= 1) by {
                    if sel@.len() == 0 {
                        assert(sel_sum(self.outputs@, sel@) == 0);
                    }
                }
            }
            Ok(sel)
        } else {
            proof {
                assert(i == self.outputs@.len());
                assert(self.outputs@.take(i as int) =~= self.outputs@);
            }
            Err(WalletError::InsufficientFunds)
        }
    }
}

/// A record whose lifecycle state may move to `Locked`: a draft whose
/// inputs are all still unspent.
pub open spec fn lockable(pre: WalletStore, sid: u128) -> bool {
    exists|j: int| 0 <= j < pre.records@.len()
        && (#[trigger] pre.records@[j]).slate_id == sid
        && pre.records@[j].state is Draft
        && inputs_unspent(pre.outputs@, pre.records@[j])
}

/// The record at `j` changed its lifecycle state to `to` and nothing else
/// in the record table moved.
pub open spec fn record_state_changed(pre: WalletStore, post: WalletStore, j: int, to: TxState)
    -> bool {
    &&& 0 <= j < pre.records@.len()
    &&& post.records@.len() == pre.records@.len()
    &&& forall|l: int| 0 <= l < pre.records@.len() && l != j
            ==> post.records@[l] == pre.records@[l]
    &&& post.records@[j].slate_id == pre.records@[j].slate_id
    &&& post.records@[j].state == to
    &&& post.records@[j].amount == pre.records@[j].amount
    &&& post.records@[j].fee == pre.records@[j].fee
    &&& post.records@[j].inputs@ == pre.records@[j].inputs@
    &&& post.records@[j].confirmed == pre.records@[j].confirmed
}

/// The reservation was taken: record `j` moved from draft to locked and
/// exactly its inputs became locked, claimed by `sid`.
pub open spec fn lock_transition(pre: WalletStore, post: WalletStore, sid: u128, j: int) -> bool {
    &&& record_state_changed(pre, post, j, TxState::Locked)
    &&& pre.records@[j].slate_id == sid
    &&& pre.records@[j].state is Draft
    &&& post.outputs@.len() == pre.outputs@.len()
    &&& forall|i: int| 0 <= i < pre.outputs@.len()
            ==> #[trigger] post.outputs@[i] == (if input_of(pre.records@[j], i) {
                Output {
                    value: pre.outputs@[i].value,
                    status: OutputStatus::Locked,
                    claim: Some(sid),
                }
            } else {
                pre.outputs@[i]
            })
}

/// The reservation was released: record `j` moved to cancelled and every
/// output locked for `sid` became unspent again; nothing else moved.
pub open spec fn cancel_transition(pre: WalletStore, post: WalletStore, sid: u128, j: int)
    -> bool {
    &&& record_state_changed(pre, post, j, TxState::Cancelled)
    &&& pre.records@[j].slate_id == sid
    &&& active(pre.records@[j].state)
    &&& post.outputs@.len() == pre.outputs@.len()
    &&& forall|i: int| 0 <= i < pre.outputs@.len()
            ==> #[trigger] post.outputs@[i] == (if pre.outputs@[i].claim == Some(sid)
                && pre.outputs@[i].status is Locked {
                Output { value: pre.outputs@[i].value, status: OutputStatus::Unspent, claim: None }
            } else {
                pre.outputs@[i]
            })
}

/// The reservation was consumed: record `j` moved from finalized to posted
/// and every output locked for `sid` became spent, keeping its claim.
pub open spec fn post_transition(pre: WalletStore, post: WalletStore, sid: u128, j: int) -> bool {
    &&& record_state_changed(pre, post, j, TxState::Posted)
    &&& pre.records@[j].slate_id == sid
    &&& pre.records@[j].state is Finalized
    &&& post.outputs@.len() == pre.outputs@.len()
    &&& forall|i: int| 0 <= i < pre.outputs@.len()
            ==> #[trigger] post.outputs@[i] == (if pre.outputs@[i].claim == Some(sid)
                && pre.outputs@[i].status is Locked {
                Output {
                    value: pre.outputs@[i].value,
                    status: OutputStatus::Spent,
                    claim: Some(sid),
                }
            } else {
                pre.outputs@[i]
            })
}

/// Copies a vector of indices.
fn copy_indices(v: &Vec<usize>) -> (r: Vec<usize>)
    ensures
        r@ == v@,
{
    let mut r: Vec<usize> = Vec::new();
    let mut k: usize = 0;
    while k < v.len()
        invariant
            k <= v@.len(),
            r@ =~= v@.take(k as int),
        decreases v@.len() - k,
    {
        r.push(v[k]);
        k = k + 1;
    }
    proof {
        assert(v@.take(v@.len() as int) =~= v@);
    }
    r
}

impl WalletStore {
    /// Replaces the lifecycle state of the record at `j`.
    pub(crate) fn set_record_state(&mut self, j: usize, st: TxState)
        requires
            j < old(self).records@.len(),
        ensures
            final(self).outputs@ == old(self).outputs@,
            record_state_changed(*old(self), *final(self), j as int, st),
    {
        let rec = &self.records[j];
        let new_rec = TxRecord {
            slate_id: rec.slate_id,
            state: st,
            amount: rec.amount,
            fee: rec.fee,
            inputs: copy_indices(&rec.inputs),
            confirmed: rec.confirmed,
        };
        self.records.set(j, new_rec);
    }

    /// Locks every input of the record at `j`, claiming it for the
    /// record's slate.
    pub(crate) fn claim_inputs(&mut self, j: usize)
        requires
            j < old(self).records@.len(),
            forall|k: int| 0 <= k < old(self).records@[j as int].inputs@.len()
                ==> (#[trigger] old(self).records@[j as int].inputs@[k])
                    < old(self).outputs@.len(),
        ensures
            final(self).records@ == old(self).records@,
            final(self).outputs@.len() == old(self).outputs@.len(),
            forall|i: int| 0 <= i < old(self).outputs@.len()
                ==> #[trigger] final(self).outputs@[i]
                    == (if input_of(old(self).records@[j as int], i) {
                    Output {
                        value: old(self).outputs@[i].value,
                        status: OutputStatus::Locked,
                        claim: Some(old(self).records@[j as int].slate_id),
                    }
                } else {
                    old(self).outputs@[i]
                }),
    {
        let ghost rec0 = old(self).records@[j as int];
        let sid = self.records[j].slate_id;
        let n = self.records[j].inputs.len();
        let mut k: usize = 0;
        while k < n
            invariant
                j < self.records@.len(),
                self.records@ == old(self).records@,
                n == rec0.inputs@.len(),
                rec0 == old(self).records@[j as int],
                sid == rec0.slate_id,
                k <= n,
                forall|l: int| 0 <= l < rec0.inputs@.len()
                    ==> (#[trigger] rec0.inputs@[l]) < old(self).outputs@.len(),
                self.outputs@.len() == old(self).outputs@.len(),
                forall|i: int| 0 <= i < old(self).outputs@.len()
                    ==> #[trigger] self.outputs@[i]
                        == (if in_prefix(rec0.inputs@, k as int, i) {
                        Output {
                            value: old(self).outputs@[i].value,
                            status: OutputStatus::Locked,
                            claim: Some(sid),
                        }
                    } else {
                        old(self).outputs@[i]
                    }),
            decreases n - k,
        {
            let idx = self.records[j].inputs[k];
            let v = self.outputs[idx].value;
            proof {
                if in_prefix(rec0.inputs@, k as int, idx as int) {
                    assert(self.outputs@[idx as int].value == old(self).outputs@[idx as int].value);
                }
            }
            self.outputs.set(idx, Output {
                value: v,
                status: OutputStatus::Locked,
                claim: Some(sid),
            });
            k = k + 1;
            proof {
                assert forall|i: int| 0 <= i < old(self).outputs@.len()
                    && in_prefix(rec0.inputs@, k as int, i)
                    && !in_prefix(rec0.inputs@, k as int - 1, i)
                    implies i == idx as int by {
                    let l = choose|l: int| 0 <= l < k && rec0.inputs@[l] == i;
                    assert(l == k - 1);
                }
            }
        }
        proof {
            assert forall|i: int| 0 <= i < old(self).outputs@.len()
                implies (in_prefix(rec0.inputs@, n as int, i) == input_of(rec0, i)) by {
            }
        }
    }

    /// Releases every locked output claimed by `sid`.
    pub(crate) fn release_claims(&mut self, sid: u128)
        ensures
            final(self).records@ == old(self).records@,
            final(self).outputs@.len() == old(self).outputs@.len(),
            forall|i: int| 0 <= i < old(self).outputs@.len()
                ==> #[trigger] final(self).outputs@[i]
                    == (if old(self).outputs@[i].claim == Some(sid)
                        && old(self).outputs@[i].status is Locked {
                    Output {
                        value: old(self).outputs@[i].value,
                        status: OutputStatus::Unspent,
                        claim: None,
                    }
                } else {
                    old(self).outputs@[i]
                }),
    {
        let n = self.outputs.len();
        let mut i: usize = 0;
        while i < n
            invariant
                n == old(self).outputs@.len(),
                i <= n,
                self.records@ == old(self).records@,
                self.outputs@.len() == n,
                forall|l: int| 0 <= l < n
                    ==> #[trigger] self.outputs@[l]
                        == (if l < i && old(self).outputs@[l].claim == Some(sid)
                            && old(self).outputs@[l].status is Locked {
                        Output {
                            value: old(self).outputs@[l].value,
                            status: OutputStatus::Unspent,
                            claim: None,
                        }
                    } else {
                        old(self).outputs@[l]
                    }),
            decreases n - i,
        {
            let o = self.outputs[i];
            let claimed = match o.claim {
                Some(s) => s == sid,
                None => false,
            };
            if claimed && o.status == OutputStatus::Locked {
                self.outputs.set(i, Output {
                    value: o.value,
                    status: OutputStatus::Unspent,
                    claim: None,
                });
            }
            i = i + 1;
        }
    }

    /// Marks every locked output claimed by `sid` as spent.
    pub(crate) fn consume_claims(&mut self, sid: u128)
        ensures
            final(self).records@ == old(self).records@,
            final(self).outputs@.len() == old(self).outputs@.len(),
            forall|i: int| 0 <= i < old(self).outputs@.len()
                ==> #[trigger] final(self).outputs@[i]
                    == (if old(self).outputs@[i].claim == Some(sid)
                        && old(self).outputs@[i].status is Locked {
                    Output {
                        value: old(self).outputs@[i].value,
                        status: OutputStatus::Spent,
                        claim: Some(sid),
                    }
                } else {
                    old(self).outputs@[i]
                }),
    {
        let n = self.outputs.len();
        let mut i: usize = 0;
        while i < n
            invariant
                n == old(self).outputs@.len(),
                i <= n,
                self.records@ == old(self).records@,
                self.outputs@.len() == n,
                forall|l: int| 0 <= l < n
                    ==> #[trigger] self.outputs@[l]
                        == (if l < i && old(self).outputs@[l].claim == Some(sid)
                            && old(self).outputs@[l].status is Locked {
                        Output {
                            value: old(self).outputs@[l].value,
                            status: OutputStatus::Spent,
                            claim: Some(sid),
                        }
                    } else {
                        old(self).outputs@[l]
                    }),
            decreases n - i,
        {
            let o = self.outputs[i];
            let claimed = match o.claim {
                Some(s) => s == sid,
                None => false,
            };
            if claimed && o.status == OutputStatus::Locked {
                self.outputs.set(i, Output {
                    value: o.value,
                    status: OutputStatus::Spent,
                    claim: Some(sid),
                });
            }
            i = i + 1;
        }
    }
}

/// Whether `i` occurs among the first `k` entries of `s`.
pub open spec fn in_prefix(s: Seq<usize>, k: int, i: int) -> bool {
    exists|l: int| 0 <= l < k && l < s.len() && s[l] == i
}

/// A record whose lifecycle state may move to `Cancelled`: one holding a
/// live reservation.
pub open spec fn cancellable(pre: WalletStore, sid: u128) -> bool {
    exists|j: int| 0 <= j < pre.records@.len()
        && (#[trigger] pre.records@[j]).slate_id == sid
        && active(pre.records@[j].state)
}

/// A record whose lifecycle state may move to `Posted`: a finalized one.
pub open spec fn postable(pre: WalletStore, sid: u128) -> bool {
    exists|j: int| 0 <= j < pre.records@.len()
        && (#[trigger] pre.records@[j]).slate_id == sid
        && pre.records@[j].state is Finalized
}

impl WalletStore {
    /// Creates a reservation: moves the slate's record from draft to
    /// locked, claiming each of its input outputs.
    ///
    /// Succeeds exactly when a draft record tracks `sid` and all its inputs
    /// are still unspent; any other situation — no record, a record in
    /// another state, or an input contested in the meantime — returns
    /// `StateError` and changes nothing.
    pub fn lock(&mut self, sid: u128) -> (r: Result<(), WalletError>)
        requires
            old(self).wf(),
        ensures
            final(self).wf(),
            (r is Ok) <==> lockable(*old(self), sid),
            match r {
                Ok(_) => exists|j: int| lock_transition(*old(self), *final(self), sid, j),
                Err(e) => e == WalletError::StateError && *final(self) == *old(self),
            },
    {
        let j = match self.record_index(sid) {
            Some(j) => j,
            None => {
                return Err(WalletError::StateError);
            },
        };
        if !(self.records[j].state == TxState::Draft) {
            proof {
                lemma_record_unique(*self, sid, j as int);
            }
            return Err(WalletError::StateError);
        }
        let n = self.records[j].inputs.len();
        let mut k: usize = 0;
        while k < n
            invariant
                *self == *old(self),
                self.wf(),
                j < self.records@.len(),
                self.records@[j as int].slate_id == sid,
                self.records@[j as int].state is Draft,
                n == self.records@[j as int].inputs@.len(),
                k <= n,
                forall|l: int| 0 <= l < k
                    ==> self.outputs@[#[trigger] self.records@[j as int].inputs@[l] as int].status
                        is Unspent,
            decreases n - k,
        {
            let idx = self.records[j].inputs[k];
            proof {
                assert(rec_wf(self.outputs@, self.records@[j as int]));
            }
            if !(self.outputs[idx].status == OutputStatus::Unspent) {
                proof {
                    lemma_record_unique(*self, sid, j as int);
                }
                return Err(WalletError::StateError);
            }
            k = k + 1;
        }
        proof {
            assert(inputs_unspent(self.outputs@, self.records@[j as int]));
            lemma_record_unique(*self, sid, j as int);
        }
        self.claim_inputs(j);
        self.set_record_state(j, TxState::Locked);
        proof {
            let pre = *old(self);
            let post = *self;
            assert(lock_transition(pre, post, sid, j as int));
            lemma_lock_preserves_wf(pre, post, sid, j as int);
        }
        Ok(())
    }

    /// Releases a reservation: moves the slate's record to cancelled and
    /// returns every output locked for it to the unspent pool.
    ///
    /// Succeeds exactly when a record in an active state (locked,
    /// exchanging, returned or finalized) tracks `sid`.  A second call on a
    /// slate already cancelled or posted — or a call on a slate never
    /// locked — returns `StateError` and performs no release at all.
    pub fn release(&mut self, sid: u128) -> (r: Result<(), WalletError>)
        requires
            old(self).wf(),
        ensures
            final(self).wf(),
            (r is Ok) <==> cancellable(*old(self), sid),
            match r {
                Ok(_) => exists|j: int| cancel_transition(*old(self), *final(self), sid, j),
                Err(e) => e == WalletError::StateError && *final(self) == *old(self),
            },
    {
        let j = match self.record_index(sid) {
            Some(j) => j,
            None => {
                return Err(WalletError::StateError);
            },
        };
        let st = self.records[j].state;
        let is_active = st == TxState::Locked || st == TxState::Exchanging
            || st == TxState::Returned || st == TxState::Finalized;
        if !is_active {
            proof {
                lemma_record_unique(*self, sid, j as int);
            }
            return Err(WalletError::StateError);
        }
        proof {
            lemma_record_unique(*self, sid, j as int);
        }
        self.release_claims(sid);
        self.set_record_state(j, TxState::Cancelled);
        proof {
            let pre = *old(self);
            let post = *self;
            assert(cancel_transition(pre, post, sid, j as int));
            lemma_cancel_preserves_wf(pre, post, sid, j as int);
        }
        Ok(())
    }

    /// Consumes a reservation: moves the slate's record from finalized to
    /// posted and marks every output locked for it as spent.
    ///
    /// Succeeds exactly when a finalized record tracks `sid`; otherwise
    /// returns `StateError` and changes nothing.
    pub fn consume(&mut self, sid: u128) -> (r: Result<(), WalletError>)
        requires
            old(self).wf(),
        ensures
            final(self).wf(),
            (r is Ok) <==> postable(*old(self), sid),
            match r {
                Ok(_) => exists|j: int| post_transition(*old(self), *final(self), sid, j),
                Err(e) => e == WalletError::StateError && *final(self) == *old(self),
            },
    {
        let j = match self.record_index(sid) {
            Some(j) => j,
            None => {
                return Err(WalletError::StateError);
            },
        };
        if !(self.records[j].state == TxState::Finalized) {
            proof {
                lemma_record_unique(*self, sid, j as int);
            }
            return Err(WalletError::StateError);
        }
        proof {
            lemma_record_unique(*self, sid, j as int);
        }
        self.consume_claims(sid);
        self.set_record_state(j, TxState::Posted);
        proof {
            let pre = *old(self);
            let post = *self;
            assert(post_transition(pre, post, sid, j as int));
            lemma_post_preserves_wf(pre, post, sid, j as int);
        }
        Ok(())
    }

    /// Records the chain's confirmation of a posted transaction, as
    /// reported by the node client.  Succeeds exactly when a posted record
    /// tracks `sid`; otherwise returns `StateError` and changes nothing.
    pub fn confirm(&mut self, sid: u128) -> (r: Result<(), WalletError>)
        requires
            old(self).wf(),
        ensures
            final(self).wf(),
            (r is Ok) <==> exists|j: int| 0 <= j < old(self).records@.len()
                && (#[trigger] old(self).records@[j]).slate_id == sid
                && old(self).records@[j].state is Posted,
            match r {
                Ok(_) => {
                    &&& final(self).outputs@ == old(self).outputs@
                    &&& final(self).records@.len() == old(self).records@.len()
                    &&& exists|j: int| 0 <= j < old(self).records@.len()
                        && (#[trigger] old(self).records@[j]).slate_id == sid
                        && final(self).records@[j].confirmed
                        && final(self).records@[j].state is Posted
                        && final(self).records@[j].slate_id == sid
                        && final(self).records@[j].inputs@
                            == old(self).records@[j].inputs@
                        && (forall|l: int| 0 <= l < old(self).records@.len() && l != j
                            ==> final(self).records@[l] == old(self).records@[l])
                },
                Err(e) => e == WalletError::StateError && *final(self) == *old(self),
            },
    {
        let j = match self.record_index(sid) {
            Some(j) => j,
            None => {
                return Err(WalletError::StateError);
            },
        };
        if !(self.records[j].state == TxState::Posted) {
            proof {
                lemma_record_unique(*self, sid, j as int);
            }
            return Err(WalletError::StateError);
        }
        proof {
            lemma_record_unique(*self, sid, j as int);
        }
        let rec = &self.records[j];
        let new_rec = TxRecord {
            slate_id: rec.slate_id,
            state: TxState::Posted,
            amount: rec.amount,
            fee: rec.fee,
            inputs: copy_indices(&rec.inputs),
            confirmed: true,
        };
        self.records.set(j, new_rec);
        proof {
            let pre = *old(self);
            let post = *self;
            assert forall|l: int| 0 <= l < post.records@.len()
                implies rec_wf(post.outputs@, #[trigger] post.records@[l]) by {
                assert(rec_wf(pre.outputs@, pre.records@[l]));
            }
            assert forall|l: int| 0 <= l < post.records@.len()
                && ((#[trigger] post.records@[l]).state is Draft
                    || post.records@[l].state is Cancelled)
                implies unclaimed(post.outputs@, post.records@[l].slate_id) by {
                assert(post.records@[l] == pre.records@[l]);
            }
            assert forall|i: int| 0 <= i < post.outputs@.len()
                implies claim_backed(post.records@, #[trigger] post.outputs@[i]) by {
                match post.outputs@[i].claim {
                    Some(s) => {
                        let j2 = choose|j2: int| 0 <= j2 < pre.records@.len()
                            && (#[trigger] pre.records@[j2]).slate_id == s
                            && (pre.outputs@[i].status is Locked
                                ==> active(pre.records@[j2].state))
                            && (pre.outputs@[i].status is Spent
                                ==> pre.records@[j2].state is Posted);
                        if j2 == j as int {
                            assert(post.records@[j2].slate_id == s);
                            assert(post.records@[j2].state is Posted);
                        } else {
                            assert(post.records@[j2] == pre.records@[j2]);
                        }
                    },
                    None => {},
                }
            }
        }
        Ok(())
    }

    /// Moves the slate's record from one active state to another, touching
    /// nothing else.
    pub(crate) fn advance(&mut self, sid: u128, from: TxState, to: TxState)
        -> (r: Result<(), WalletError>)
        requires
            old(self).wf(),
            active(from),
            active(to),
        ensures
            final(self).wf(),
            (r is Ok) <==> exists|j: int| 0 <= j < old(self).records@.len()
                && (#[trigger] old(self).records@[j]).slate_id == sid
                && old(self).records@[j].state == from,
            match r {
                Ok(_) => exists|j: int|
                    record_state_changed(*old(self), *final(self), j, to)
                    && old(self).records@[j].slate_id == sid
                    && old(self).records@[j].state == from
                    && final(self).outputs@ == old(self).outputs@,
                Err(e) => e == WalletError::StateError && *final(self) == *old(self),
            },
    {
        let j = match self.record_index(sid) {
            Some(j) => j,
            None => {
                return Err(WalletError::StateError);
            },
        };
        if !(self.records[j].state == from) {
            proof {
                lemma_record_unique(*self, sid, j as int);
            }
            return Err(WalletError::StateError);
        }
        self.set_record_state(j, to);
        proof {
            let pre = *old(self);
            let post = *self;
            lemma_advance_preserves_wf(pre, post, sid, j as int, to);
        }
        Ok(())
    }

    /// Adds a fresh draft record for a slate no record tracks yet.
    pub(crate) fn insert_record(&mut self, rec: TxRecord)
        requires
            old(self).wf(),
            !has_record(old(self).records@, rec.slate_id),
            rec.state is Draft,
            !rec.confirmed,
            rec.inputs@.len() >= 1,
            forall|k: int, l: int| 0 <= k < l < rec.inputs@.len()
                ==> rec.inputs@[k] < rec.inputs@[l],
            forall|k: int| 0 <= k < rec.inputs@.len()
                ==> (#[trigger] rec.inputs@[k]) < old(self).outputs@.len(),
        ensures
            final(self).wf(),
            final(self).outputs@ == old(self).outputs@,
            final(self).records@ == old(self).records@.push(rec),
    {
        let ghost pre = *self;
        self.records.push(rec);
        proof {
            let post = *self;
            let n = pre.records@.len() as int;
            assert forall|i: int| 0 <= i < post.outputs@.len()
                implies claim_backed(post.records@, #[trigger] post.outputs@[i]) by {
                match post.outputs@[i].claim {
                    Some(s) => {
                        let j2 = choose|j2: int| 0 <= j2 < pre.records@.len()
                            && (#[trigger] pre.records@[j2]).slate_id == s
                            && (pre.outputs@[i].status is Locked
                                ==> active(pre.records@[j2].state))
                            && (pre.outputs@[i].status is Spent
                                ==> pre.records@[j2].state is Posted);
                        assert(post.records@[j2] == pre.records@[j2]);
                    },
                    None => {},
                }
            }
            assert forall|i: int| 0 <= i < post.outputs@.len()
                implies (#[trigger] post.outputs@[i]).claim != Some(rec.slate_id) by {
                match post.outputs@[i].claim {
                    Some(s) => {
                        if s == rec.slate_id {
                            let j2 = choose|j2: int| 0 <= j2 < pre.records@.len()
                                && (#[trigger] pre.records@[j2]).slate_id == s
                                && (pre.outputs@[i].status is Locked
                                    ==> active(pre.records@[j2].state))
                                && (pre.outputs@[i].status is Spent
                                    ==> pre.records@[j2].state is Posted);
                            assert(has_record(pre.records@, rec.slate_id));
                        }
                    },
                    None => {},
                }
            }
            assert forall|j: int| 0 <= j < post.records@.len()
                implies rec_wf(post.outputs@, #[trigger] post.records@[j]) by {
                if j < n {
                    assert(rec_wf(pre.outputs@, pre.records@[j]));
                }
            }
        }
    }
}

/// Records track distinct slates, so the record found for `sid` is the only
/// one: every property of "the record with this identifier" is pinned to
/// index `j`.
pub proof fn lemma_record_unique(w: WalletStore, sid: u128, j: int)
    requires
        w.wf(),
        0 <= j < w.records@.len(),
        w.records@[j].slate_id == sid,
    ensures
        forall|l: int| 0 <= l < w.records@.len()
            && (#[trigger] w.records@[l]).slate_id == sid ==> l == j,
{
    assert forall|l: int| 0 <= l < w.records@.len()
        && (#[trigger] w.records@[l]).slate_id == sid implies l == j by {
        if l < j {
            assert(w.records@[l].slate_id != w.records@[j].slate_id);
        } else if j < l {
            assert(w.records@[j].slate_id != w.records@[l].slate_id);
        }
    }
}

proof fn lemma_lock_preserves_wf(pre: WalletStore, post: WalletStore, sid: u128, j: int)
    requires
        pre.wf(),
        lock_transition(pre, post, sid, j),
        inputs_unspent(pre.outputs@, pre.records@[j]),
    ensures
        post.wf(),
{
    lemma_record_unique(pre, sid, j);
    assert(unclaimed(pre.outputs@, sid));
    assert forall|l: int| 0 <= l < post.records@.len()
        implies rec_wf(post.outputs@, #[trigger] post.records@[l]) by {
        assert(rec_wf(pre.outputs@, pre.records@[l]));
        if l == j {
            assert forall|k: int| 0 <= k < post.records@[l].inputs@.len() implies {
                let i = #[trigger] post.records@[l].inputs@[k] as int;
                post.outputs@[i].status is Locked && post.outputs@[i].claim == Some(sid)
            } by {
                let i = post.records@[l].inputs@[k] as int;
                assert(input_of(pre.records@[j], i));
            }
        } else {
            if active(pre.records@[l].state) || pre.records@[l].state is Posted {
                assert forall|k: int| 0 <= k < post.records@[l].inputs@.len() implies {
                    let i = #[trigger] post.records@[l].inputs@[k] as int;
                    post.outputs@[i] == pre.outputs@[i]
                } by {
                    let i = post.records@[l].inputs@[k] as int;
                    if input_of(pre.records@[j], i) {
                        assert(pre.outputs@[i].status is Unspent);
                        if active(pre.records@[l].state) {
                            assert(pre.outputs@[i].status is Locked);
                        } else {
                            assert(pre.outputs@[i].status is Spent);
                        }
                    }
                }
            }
        }
    }
    assert forall|i: int| 0 <= i < post.outputs@.len()
        implies (#[trigger] post.outputs@[i]).valid() by {
        assert(pre.outputs@[i].valid());
    }
    assert forall|l: int| 0 <= l < post.records@.len()
        && ((#[trigger] post.records@[l]).state is Draft
            || post.records@[l].state is Cancelled)
        implies unclaimed(post.outputs@, post.records@[l].slate_id) by {
        assert(l != j);
        assert(post.records@[l] == pre.records@[l]);
        assert(unclaimed(pre.outputs@, pre.records@[l].slate_id));
        assert forall|i: int| 0 <= i < post.outputs@.len()
            implies (#[trigger] post.outputs@[i]).claim != Some(post.records@[l].slate_id) by {
            if input_of(pre.records@[j], i) {
                assert(post.outputs@[i].claim == Some(sid));
                assert(pre.records@[l].slate_id != sid);
            } else {
                assert(post.outputs@[i] == pre.outputs@[i]);
            }
        }
    }
    assert forall|i: int| 0 <= i < post.outputs@.len()
        implies claim_backed(post.records@, #[trigger] post.outputs@[i]) by {
        if input_of(pre.records@[j], i) {
            assert(post.records@[j].slate_id == sid);
            assert(active(post.records@[j].state));
        } else {
            assert(post.outputs@[i] == pre.outputs@[i]);
            match pre.outputs@[i].claim {
                Some(s) => {
                    let j2 = choose|j2: int| 0 <= j2 < pre.records@.len()
                        && (#[trigger] pre.records@[j2]).slate_id == s
                        && (pre.outputs@[i].status is Locked
                            ==> active(pre.records@[j2].state))
                        && (pre.outputs@[i].status is Spent
                            ==> pre.records@[j2].state is Posted);
                    if j2 == j {
                        assert(pre.outputs@[i].claim == Some(sid));
                        assert(unclaimed(pre.outputs@, sid));
                        assert(false);
                    } else {
                        assert(post.records@[j2] == pre.records@[j2]);
                    }
                },
                None => {},
            }
        }
    }
}

proof fn lemma_cancel_preserves_wf(pre: WalletStore, post: WalletStore, sid: u128, j: int)
    requires
        pre.wf(),
        cancel_transition(pre, post, sid, j),
    ensures
        post.wf(),
{
    lemma_record_unique(pre, sid, j);
    assert forall|l: int| 0 <= l < post.records@.len()
        implies rec_wf(post.outputs@, #[trigger] post.records@[l]) by {
        assert(rec_wf(pre.outputs@, pre.records@[l]));
        if l != j {
            if active(pre.records@[l].state) || pre.records@[l].state is Posted {
                assert forall|k: int| 0 <= k < post.records@[l].inputs@.len() implies {
                    let i = #[trigger] post.records@[l].inputs@[k] as int;
                    post.outputs@[i] == pre.outputs@[i]
                } by {
                    let i = post.records@[l].inputs@[k] as int;
                    assert(pre.outputs@[i].claim == Some(pre.records@[l].slate_id));
                    assert(pre.records@[l].slate_id != sid);
                }
            }
        }
    }
    assert forall|i: int| 0 <= i < post.outputs@.len()
        implies (#[trigger] post.outputs@[i]).valid() by {
        assert(pre.outputs@[i].valid());
    }
    assert forall|i: int| 0 <= i < post.outputs@.len()
        implies (#[trigger] post.outputs@[i]).claim != Some(sid) by {
        assert(pre.outputs@[i].valid());
        assert(claim_backed(pre.records@, pre.outputs@[i]));
        if pre.outputs@[i].claim == Some(sid) && pre.outputs@[i].status is Spent {
            let j2 = choose|j2: int| 0 <= j2 < pre.records@.len()
                && (#[trigger] pre.records@[j2]).slate_id == sid
                && (pre.outputs@[i].status is Locked ==> active(pre.records@[j2].state))
                && (pre.outputs@[i].status is Spent ==> pre.records@[j2].state is Posted);
            assert(j2 == j);
            assert(false);
        }
    }
    assert forall|l: int| 0 <= l < post.records@.len()
        && ((#[trigger] post.records@[l]).state is Draft
            || post.records@[l].state is Cancelled)
        implies unclaimed(post.outputs@, post.records@[l].slate_id) by {
        if l == j {
        } else {
            assert(unclaimed(pre.outputs@, pre.records@[l].slate_id));
            assert forall|i: int| 0 <= i < post.outputs@.len()
                implies (#[trigger] post.outputs@[i]).claim
                    != Some(post.records@[l].slate_id) by {
                assert(pre.outputs@[i].claim != Some(pre.records@[l].slate_id));
            }
        }
    }
    assert forall|i: int| 0 <= i < post.outputs@.len()
        implies claim_backed(post.records@, #[trigger] post.outputs@[i]) by {
        match post.outputs@[i].claim {
            Some(s) => {
                assert(post.outputs@[i] == pre.outputs@[i]);
                assert(s != sid);
                let j2 = choose|j2: int| 0 <= j2 < pre.records@.len()
                    && (#[trigger] pre.records@[j2]).slate_id == s
                    && (pre.outputs@[i].status is Locked ==> active(pre.records@[j2].state))
                    && (pre.outputs@[i].status is Spent ==> pre.records@[j2].state is Posted);
                assert(j2 != j);
                assert(post.records@[j2] == pre.records@[j2]);
            },
            None => {},
        }
    }
}

proof fn lemma_post_preserves_wf(pre: WalletStore, post: WalletStore, sid: u128, j: int)
    requires
        pre.wf(),
        post_transition(pre, post, sid, j),
    ensures
        post.wf(),
{
    lemma_record_unique(pre, sid, j);
    assert forall|l: int| 0 <= l < post.records@.len()
        implies rec_wf(post.outputs@, #[trigger] post.records@[l]) by {
        assert(rec_wf(pre.outputs@, pre.records@[l]));
        if l == j {
            assert forall|k: int| 0 <= k < post.records@[l].inputs@.len() implies {
                let i = #[trigger] post.records@[l].inputs@[k] as int;
                post.outputs@[i].status is Spent && post.outputs@[i].claim == Some(sid)
            } by {
                let i = post.records@[l].inputs@[k] as int;
                assert(pre.outputs@[i].status is Locked);
                assert(pre.outputs@[i].claim == Some(sid));
            }
        } else {
            if active(pre.records@[l].state) || pre.records@[l].state is Posted {
                assert forall|k: int| 0 <= k < post.records@[l].inputs@.len() implies {
                    let i = #[trigger] post.records@[l].inputs@[k] as int;
                    post.outputs@[i] == pre.outputs@[i]
                } by {
                    let i = post.records@[l].inputs@[k] as int;
                    assert(pre.outputs@[i].claim == Some(pre.records@[l].slate_id));
                    assert(pre.records@[l].slate_id != sid);
                }
            }
        }
    }
    assert forall|i: int| 0 <= i < post.outputs@.len()
        implies (#[trigger] post.outputs@[i]).valid() by {
        assert(pre.outputs@[i].valid());
    }
    assert forall|l: int| 0 <= l < post.records@.len()
        && ((#[trigger] post.records@[l]).state is Draft
            || post.records@[l].state is Cancelled)
        implies unclaimed(post.outputs@, post.records@[l].slate_id) by {
        assert(l != j);
        assert(unclaimed(pre.outputs@, pre.records@[l].slate_id));
        assert forall|i: int| 0 <= i < post.outputs@.len()
            implies (#[trigger] post.outputs@[i]).claim
                != Some(post.records@[l].slate_id) by {
            assert(pre.outputs@[i].claim != Some(pre.records@[l].slate_id));
            if pre.outputs@[i].claim == Some(sid) && pre.outputs@[i].status is Locked {
                assert(post.outputs@[i].claim == Some(sid));
                assert(pre.records@[l].slate_id != sid);
            } else {
                assert(post.outputs@[i] == pre.outputs@[i]);
            }
        }
    }
    assert forall|i: int| 0 <= i < post.outputs@.len()
        implies claim_backed(post.records@, #[trigger] post.outputs@[i]) by {
        match post.outputs@[i].claim {
            Some(s) => {
                if s == sid {
                    if pre.outputs@[i].claim == Some(sid) && pre.outputs@[i].status is Locked {
                        assert(post.records@[j].state is Posted);
                    } else {
                        assert(post.outputs@[i] == pre.outputs@[i]);
                        if pre.outputs@[i].status is Spent {
                            let j2 = choose|j2: int| 0 <= j2 < pre.records@.len()
                                && (#[trigger] pre.records@[j2]).slate_id == sid
                                && (pre.outputs@[i].status is Locked
                                    ==> active(pre.records@[j2].state))
                                && (pre.outputs@[i].status is Spent
                                    ==> pre.records@[j2].state is Posted);
                            assert(j2 == j);
                            assert(false);
                        } else {
                            assert(pre.outputs@[i].valid());
                            assert(pre.outputs@[i].status is Locked
                                || pre.outputs@[i].status is Spent);
                            assert(false);
                        }
                    }
                } else {
                    assert(post.outputs@[i] == pre.outputs@[i]
                        || (pre.outputs@[i].claim == Some(sid)
                            && pre.outputs@[i].status is Locked));
                    assert(post.outputs@[i] == pre.outputs@[i]);
                    let j2 = choose|j2: int| 0 <= j2 < pre.records@.len()
                        && (#[trigger] pre.records@[j2]).slate_id == s
                        && (pre.outputs@[i].status is Locked ==> active(pre.records@[j2].state))
                        && (pre.outputs@[i].status is Spent
                            ==> pre.records@[j2].state is Posted);
                    assert(j2 != j);
                    assert(post.records@[j2] == pre.records@[j2]);
                }
            },
            None => {},
        }
    }
}

/// The reservation once associated with `sid` is gone: no output is
/// claimed by it any more.
pub open spec fn reservation_released(w: WalletStore, sid: u128) -> bool {
    unclaimed(w.outputs@, sid)
}

/// The reservation of record `j` was consumed by a broadcast: every one of
/// its inputs is spent and still claimed by its slate.
pub open spec fn reservation_consumed(w: WalletStore, j: int) -> bool {
    inputs_have(w.outputs@, w.records@[j], OutputStatus::Spent)
}

/// Audit of a terminal record: its reservation resolved to exactly one of
/// released or consumed-by-broadcast — never both, never neither.  A
/// cancelled record claims nothing; a posted record has spent exactly its
/// inputs.
pub proof fn lemma_reservation_resolved(w: WalletStore, j: int)
    requires
        w.wf(),
        0 <= j < w.records@.len(),
        terminal(w.records@[j].state),
    ensures
        w.records@[j].state is Cancelled
            ==> reservation_released(w, w.records@[j].slate_id)
                && !reservation_consumed(w, j),
        w.records@[j].state is Posted
            ==> reservation_consumed(w, j)
                && !reservation_released(w, w.records@[j].slate_id),
        reservation_released(w, w.records@[j].slate_id) != reservation_consumed(w, j),
{
    let r = w.records@[j];
    assert(rec_wf(w.outputs@, r));
    let i0 = r.inputs@[0] as int;
    if r.state is Cancelled {
        assert(w.outputs@[i0].claim != Some(r.slate_id));
        if reservation_consumed(w, j) {
            assert(w.outputs@[i0].claim == Some(r.slate_id));
        }
    } else {
        assert(w.outputs@[i0].claim == Some(r.slate_id));
    }
}

/// After a cancel transition nothing claims the slate any more: the
/// released locks were the only claims it had.
pub proof fn lemma_cancel_releases(pre: WalletStore, post: WalletStore, sid: u128, j: int)
    requires
        pre.wf(),
        cancel_transition(pre, post, sid, j),
    ensures
        reservation_released(post, sid),
{
    lemma_record_unique(pre, sid, j);
    assert forall|i: int| 0 <= i < post.outputs@.len()
        implies (#[trigger] post.outputs@[i]).claim != Some(sid) by {
        if pre.outputs@[i].claim == Some(sid) && !(pre.outputs@[i].status is Locked) {
            assert(pre.outputs@[i].valid());
            assert(pre.outputs@[i].status is Spent);
            assert(claim_backed(pre.records@, pre.outputs@[i]));
            let j2 = choose|j2: int| 0 <= j2 < pre.records@.len()
                && (#[trigger] pre.records@[j2]).slate_id == sid
                && (pre.outputs@[i].status is Locked ==> active(pre.records@[j2].state))
                && (pre.outputs@[i].status is Spent ==> pre.records@[j2].state is Posted);
            assert(j2 == j);
        }
    }
}

/// Outputs reserved by an active record are never offered to a new
/// selection: any set of unspent outputs — such as one returned by
/// `select_outputs` — is disjoint from the record's inputs, so two
/// overlapping initiations can never both reserve the same output.
pub proof fn lemma_reserved_outputs_not_reselected(w: WalletStore, sel: Seq<usize>, j: int)
    requires
        w.wf(),
        0 <= j < w.records@.len(),
        active(w.records@[j].state),
        forall|k: int| 0 <= k < sel.len() ==> (#[trigger] sel[k]) < w.outputs@.len()
            && w.outputs@[sel[k] as int].status is Unspent,
    ensures
        forall|k: int| 0 <= k < sel.len()
            ==> !input_of(w.records@[j], #[trigger] sel[k] as int),
{
    assert(rec_wf(w.outputs@, w.records@[j]));
    assert forall|k: int| 0 <= k < sel.len()
        implies !input_of(w.records@[j], #[trigger] sel[k] as int) by {
        if input_of(w.records@[j], sel[k] as int) {
            let l = choose|l: int| 0 <= l < w.records@[j].inputs@.len()
                && w.records@[j].inputs@[l] == sel[k] as int;
            assert(w.outputs@[w.records@[j].inputs@[l] as int].status is Locked);
        }
    }
}

proof fn lemma_advance_preserves_wf(
    pre: WalletStore,
    post: WalletStore,
    sid: u128,
    j: int,
    to: TxState,
)
    requires
        pre.wf(),
        record_state_changed(pre, post, j, to),
        pre.records@[j].slate_id == sid,
        active(pre.records@[j].state),
        active(to),
        post.outputs@ == pre.outputs@,
    ensures
        post.wf(),
{
    lemma_record_unique(pre, sid, j);
    assert forall|l: int| 0 <= l < post.records@.len()
        implies rec_wf(post.outputs@, #[trigger] post.records@[l]) by {
        assert(rec_wf(pre.outputs@, pre.records@[l]));
    }
    assert forall|l: int| 0 <= l < post.records@.len()
        && ((#[trigger] post.records@[l]).state is Draft
            || post.records@[l].state is Cancelled)
        implies unclaimed(post.outputs@, post.records@[l].slate_id) by {
        assert(l != j);
        assert(post.records@[l] == pre.records@[l]);
    }
    assert forall|i: int| 0 <= i < post.outputs@.len()
        implies claim_backed(post.records@, #[trigger] post.outputs@[i]) by {
        match post.outputs@[i].claim {
            Some(s) => {
                let j2 = choose|j2: int| 0 <= j2 < pre.records@.len()
                    && (#[trigger] pre.records@[j2]).slate_id == s
                    && (pre.outputs@[i].status is Locked ==> active(pre.records@[j2].state))
                    && (pre.outputs@[i].status is Spent ==> pre.records@[j2].state is Posted);
                if j2 == j {
                    assert(post.records@[j].slate_id == s);
                    assert(pre.outputs@[i].status is Spent
                        ==> pre.records@[j].state is Posted);
                } else {
                    assert(post.records@[j2] == pre.records@[j2]);
                }
            },
            None => {},
        }
    }
}

/// Policy over which unspent outputs to consume for a new transaction.
#[derive(Clone, Copy, Debug, PartialEq, Eq, Structural)]
pub enum SelectionStrategy {
    /// Consume every unspent output, minimizing the output count.
    UseAll,
    /// Consume the fewest outputs found scanning in store order,
    /// minimizing change.
    Smallest,
}

/// The total value of the unspent outputs in the table.
pub open spec fn sum_unspent(s: Seq<Output>) -> int
    decreases s.len(),
{
    if s.len() == 0 {
        0
    } else {
        sum_unspent(s.drop_last())
            + if s.last().status is Unspent { s.last().value as int } else { 0 }
    }
}

/// The total value of the outputs at the selected indices.
pub open spec fn sel_sum(outs: Seq<Output>, sel: Seq<usize>) -> int
    decreases sel.len(),
{
    if sel.len() == 0 {
        0
    } else {
        sel_sum(outs, sel.drop_last()) + outs[sel.last() as int].value as int
    }
}

/// Whether output index `i` is among the selected indices.
pub open spec fn selected(sel: Seq<usize>, i: int) -> bool {
    exists|k: int| 0 <= k < sel.len() && sel[k] == i
}

/// The unspent total is non-negative and bounded by the table size times
/// the largest output value.
pub proof fn lemma_sum_unspent_bound(s: Seq<Output>)
    ensures
        0 <= sum_unspent(s) <= s.len() * 0xffff_ffff_ffff_ffff,
    decreases s.len(),
{
    if s.len() > 0 {
        lemma_sum_unspent_bound(s.drop_last());
    }
}

/// Taking a prefix of the output table can only lower the unspent total.
pub proof fn lemma_sum_unspent_take_le(s: Seq<Output>, n: int)
    requires
        0 <= n <= s.len(),
    ensures
        sum_unspent(s.take(n)) <= sum_unspent(s),
    decreases s.len() - n,
{
    if n == s.len() {
        assert(s.take(n) =~= s);
    } else {
        lemma_sum_unspent_take_le(s, n + 1);
        assert(s.take(n + 1).drop_last() =~= s.take(n));
        assert(s.take(n + 1).last() == s[n]);
    }
}

} // verus!
