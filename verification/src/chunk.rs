//! The pure chunk pipeline: evaluate an ordered group of transactions, then
//! apply the outcome to a parent ledger view, producing an executed chunk.
//!
//! Evaluation walks the transactions in order.  A discarded transaction is
//! excluded from commit and performs no writes.  The first kept transaction
//! that emits a reconfiguration event ends the epoch: every later
//! transaction of the same group is not evaluated at all but marked for
//! retry, and the chunk carries the epoch state the event establishes.

use crate::accumulator::LedgerView;
use crate::hashing::{extend_state_root, extend_state_root_exec, root_of};
use crate::types::{
    clone_txns, opt_li_view, txn_views, EpochState, LedgerInfoWithSignatures,
    LedgerInfoWithSignaturesView, StateComputeResult, StateComputeResultView, Transaction,
    TxnStatus, TxnView,
};
use vstd::prelude::*;

verus! {

/// True when the evaluator keeps `t` and `t` emits a reconfiguration event.
pub open spec fn is_reconfig(t: TxnView) -> bool {
    !t.discard && t.epoch_change is Some
}

/// The transactions of `s` that commit: kept ones up to and including the
/// first reconfiguration.
pub open spec fn kept_of(s: Seq<TxnView>) -> Seq<TxnView>
    decreases s.len(),
{
    if s.len() == 0 {
        Seq::empty()
    } else if s[0].discard {
        kept_of(s.skip(1))
    } else if s[0].epoch_change is Some {
        seq![s[0]]
    } else {
        seq![s[0]] + kept_of(s.skip(1))
    }
}

/// The transactions of `s` the evaluator rejects before any reconfiguration.
pub open spec fn discarded_of(s: Seq<TxnView>) -> Seq<TxnView>
    decreases s.len(),
{
    if s.len() == 0 {
        Seq::empty()
    } else if s[0].discard {
        seq![s[0]] + discarded_of(s.skip(1))
    } else if s[0].epoch_change is Some {
        Seq::empty()
    } else {
        discarded_of(s.skip(1))
    }
}

/// The transactions of `s` standing after the first reconfiguration: they
/// are not evaluated and must be resubmitted in the next epoch.
pub open spec fn retried_of(s: Seq<TxnView>) -> Seq<TxnView>
    decreases s.len(),
{
    if s.len() == 0 {
        Seq::empty()
    } else if s[0].discard {
        retried_of(s.skip(1))
    } else if s[0].epoch_change is Some {
        s.skip(1)
    } else {
        retried_of(s.skip(1))
    }
}

/// Statuses of a run of transactions that all stand after a
/// reconfiguration.
pub open spec fn retried_statuses(s: Seq<TxnView>) -> Seq<TxnStatus>
    decreases s.len(),
{
    if s.len() == 0 {
        Seq::empty()
    } else {
        seq![TxnStatus::Retried] + retried_statuses(s.skip(1))
    }
}

/// Outcome of every transaction of `s`, in input order.
pub open spec fn statuses_of(s: Seq<TxnView>) -> Seq<TxnStatus>
    decreases s.len(),
{
    if s.len() == 0 {
        Seq::empty()
    } else if s[0].discard {
        seq![TxnStatus::Discarded] + statuses_of(s.skip(1))
    } else if s[0].epoch_change is Some {
        seq![TxnStatus::Kept] + retried_statuses(s.skip(1))
    } else {
        seq![TxnStatus::Kept] + statuses_of(s.skip(1))
    }
}

/// Epoch established by the first reconfiguration of `s`, if any.
pub open spec fn epoch_of(s: Seq<TxnView>) -> Option<u64>
    decreases s.len(),
{
    if s.len() == 0 {
        None
    } else if is_reconfig(s[0]) {
        s[0].epoch_change
    } else {
        epoch_of(s.skip(1))
    }
}

/// Next-epoch descriptor of `s`: present exactly when a kept transaction
/// reconfigures.
pub open spec fn epoch_state_of(s: Seq<TxnView>) -> Option<EpochState> {
    match epoch_of(s) {
        Some(e) => Some(EpochState { epoch: e }),
        None => None,
    }
}

/// Accumulator leaves contributed by `s`: the content hash of each element.
pub open spec fn hashes_of(s: Seq<TxnView>) -> Seq<u64> {
    s.map_values(|t: TxnView| t.hash)
}

/// State root after layering, in order, the write set of every transaction
/// of `txns` over a tree with root `r`.
pub open spec fn extend_state_root_txns(r: u64, txns: Seq<TxnView>) -> u64
    decreases txns.len(),
{
    if txns.len() == 0 {
        r
    } else {
        extend_state_root(extend_state_root_txns(r, txns.drop_last()), txns.last().writes)
    }
}

/// Layering the writes of a concatenation equals layering them in turn.
pub proof fn lemma_extend_state_root_txns_concat(r: u64, a: Seq<TxnView>, b: Seq<TxnView>)
    ensures
        extend_state_root_txns(r, a + b) == extend_state_root_txns(
            extend_state_root_txns(r, a),
            b,
        ),
    decreases b.len(),
{
    if b.len() == 0 {
        assert(a + b =~= a);
    } else {
        lemma_extend_state_root_txns_concat(r, a, b.drop_last());
        assert((a + b).drop_last() =~= a + b.drop_last());
        assert((a + b).last() == b.last());
    }
}

/// No more transactions commit than were submitted.
pub proof fn lemma_kept_len(s: Seq<TxnView>)
    ensures
        kept_of(s).len() <= s.len(),
    decreases s.len(),
{
    if s.len() == 0 {
    } else if s[0].discard {
        lemma_kept_len(s.skip(1));
    } else if s[0].epoch_change is Some {
    } else {
        lemma_kept_len(s.skip(1));
    }
}

/// The hashes of a concatenation are the concatenated hashes.
pub proof fn lemma_hashes_of_concat(a: Seq<TxnView>, b: Seq<TxnView>)
    ensures
        hashes_of(a + b) == hashes_of(a) + hashes_of(b),
{
    assert(hashes_of(a + b) =~= hashes_of(a) + hashes_of(b));
}

/// What the evaluator produced for one ordered group of transactions,
/// before it is applied to a ledger view.
pub struct ChunkOutput {
    /// Transactions to commit, in order.
    pub kept: Vec<Transaction>,
    /// Transactions the evaluator rejected.
    pub discarded: Vec<Transaction>,
    /// Transactions standing after the first reconfiguration.
    pub retried: Vec<Transaction>,
    /// Outcome of each input transaction, in input order.
    pub statuses: Vec<TxnStatus>,
    /// Epoch state established by the first reconfiguration, if any.
    pub next_epoch_state: Option<EpochState>,
}

impl ChunkOutput {
    /// Evaluate `txns` in order: classify each as kept, discarded or
    /// retried, and extract the epoch state of the first reconfiguration.
    pub fn by_transaction_execution(txns: Vec<Transaction>) -> (r: ChunkOutput)
        ensures
            txn_views(r.kept@) == kept_of(txn_views(txns@)),
            txn_views(r.discarded@) == discarded_of(txn_views(txns@)),
            txn_views(r.retried@) == retried_of(txn_views(txns@)),
            r.statuses@ == statuses_of(txn_views(txns@)),
            r.next_epoch_state == epoch_state_of(txn_views(txns@)),
    {
        let ghost tv = txn_views(txns@);
        let mut kept: Vec<Transaction> = Vec::new();
        let mut discarded: Vec<Transaction> = Vec::new();
        let mut retried: Vec<Transaction> = Vec::new();
        let mut statuses: Vec<TxnStatus> = Vec::new();
        let mut epoch: Option<u64> = None;
        let mut i: usize = 0;
        proof {
            assert(tv.skip(0) =~= tv);
            assert(txn_views(kept@) =~= Seq::<TxnView>::empty());
            assert(txn_views(discarded@) =~= Seq::<TxnView>::empty());
            assert(txn_views(retried@) =~= Seq::<TxnView>::empty());
        }
        while i < txns.len() && epoch.is_none()
            invariant
                tv == txn_views(txns@),
                i <= txns.len(),
                txn_views(retried@) == Seq::<TxnView>::empty(),
                epoch is None ==> {
                    &&& kept_of(tv) == txn_views(kept@) + kept_of(tv.skip(i as int))
                    &&& discarded_of(tv) == txn_views(discarded@) + discarded_of(tv.skip(i as int))
                    &&& retried_of(tv) == retried_of(tv.skip(i as int))
                    &&& statuses_of(tv) == statuses@ + statuses_of(tv.skip(i as int))
                    &&& epoch_of(tv) == epoch_of(tv.skip(i as int))
                },
                epoch is Some ==> {
                    &&& kept_of(tv) == txn_views(kept@)
                    &&& discarded_of(tv) == txn_views(discarded@)
                    &&& retried_of(tv) == tv.skip(i as int)
                    &&& statuses_of(tv) == statuses@ + retried_statuses(tv.skip(i as int))
                    &&& epoch_of(tv) == epoch
                },
            decreases txns.len() - i,
        {
            proof {
                assert(tv.skip(i as int)[0] == txns@[i as int]@);
                assert(tv.skip(i as int).skip(1) =~= tv.skip(i + 1));
            }
            let ghost rest = tv.skip(i as int);
            let ghost kept0 = txn_views(kept@);
            let ghost disc0 = txn_views(discarded@);
            let ghost st0 = statuses@;
            let t = &txns[i];
            if t.discard {
                discarded.push(t.clone());
                statuses.push(TxnStatus::Discarded);
                proof {
                    assert(txn_views(discarded@) =~= disc0.push(tv[i as int]));
                    assert(disc0 + (seq![rest[0]] + discarded_of(tv.skip(i + 1))) =~= disc0.push(
                        tv[i as int],
                    ) + discarded_of(tv.skip(i + 1)));
                    assert(st0 + (seq![TxnStatus::Discarded] + statuses_of(tv.skip(i + 1)))
                        =~= statuses@ + statuses_of(tv.skip(i + 1)));
                }
            } else if t.epoch_change.is_some() {
                kept.push(t.clone());
                statuses.push(TxnStatus::Kept);
                epoch = t.epoch_change;
                proof {
                    assert(txn_views(kept@) =~= kept0.push(tv[i as int]));
                    assert(kept_of(rest) == seq![rest[0]]);
                    assert(kept0 + seq![rest[0]] =~= kept0.push(tv[i as int]));
                    assert(discarded_of(rest) == Seq::<TxnView>::empty());
                    assert(disc0 + Seq::<TxnView>::empty() =~= disc0);
                    assert(st0 + (seq![TxnStatus::Kept] + retried_statuses(tv.skip(i + 1)))
                        =~= statuses@ + retried_statuses(tv.skip(i + 1)));
                }
            } else {
                kept.push(t.clone());
                statuses.push(TxnStatus::Kept);
                proof {
                    assert(txn_views(kept@) =~= kept0.push(tv[i as int]));
                    assert(kept0 + (seq![rest[0]] + kept_of(tv.skip(i + 1))) =~= kept0.push(
                        tv[i as int],
                    ) + kept_of(tv.skip(i + 1)));
                    assert(st0 + (seq![TxnStatus::Kept] + statuses_of(tv.skip(i + 1)))
                        =~= statuses@ + statuses_of(tv.skip(i + 1)));
                }
            }
            i = i + 1;
        }
        proof {
            if epoch is None {
                assert(i == txns.len());
                assert(tv.skip(i as int) =~= Seq::<TxnView>::empty());
                assert(retried_of(Seq::<TxnView>::empty()) == Seq::<TxnView>::empty());
                assert(txn_views(kept@) + kept_of(Seq::<TxnView>::empty()) =~= txn_views(kept@));
                assert(txn_views(discarded@) + discarded_of(Seq::<TxnView>::empty()) =~= txn_views(
                    discarded@,
                ));
                assert(statuses@ + statuses_of(Seq::<TxnView>::empty()) =~= statuses@);
                assert(retried_of(tv) == txn_views(retried@) + tv.skip(i as int));
            } else {
                assert(retried_of(tv) == tv.skip(i as int));
                assert(txn_views(retried@) + tv.skip(i as int) =~= tv.skip(i as int));
            }
        }
        while i < txns.len()
            invariant
                tv == txn_views(txns@),
                i <= txns.len(),
                kept_of(tv) == txn_views(kept@),
                discarded_of(tv) == txn_views(discarded@),
                retried_of(tv) == txn_views(retried@) + tv.skip(i as int),
                statuses_of(tv) == statuses@ + retried_statuses(tv.skip(i as int)),
                epoch_of(tv) == epoch,
            decreases txns.len() - i,
        {
            proof {
                assert(tv.skip(i as int)[0] == txns@[i as int]@);
                assert(tv.skip(i as int).skip(1) =~= tv.skip(i + 1));
                assert(tv.skip(i as int) =~= seq![tv[i as int]] + tv.skip(i + 1));
            }
            let ghost ret0 = txn_views(retried@);
            let ghost st0 = statuses@;
            retried.push(txns[i].clone());
            statuses.push(TxnStatus::Retried);
            proof {
                assert(txn_views(retried@) =~= ret0.push(tv[i as int]));
                assert(ret0 + (seq![tv[i as int]] + tv.skip(i + 1)) =~= ret0.push(tv[i as int])
                    + tv.skip(i + 1));
                assert(st0 + (seq![TxnStatus::Retried] + retried_statuses(tv.skip(i + 1)))
                    =~= statuses@ + retried_statuses(tv.skip(i + 1)));
            }
            i = i + 1;
        }
        proof {
            assert(tv.skip(txns@.len() as int) =~= Seq::<TxnView>::empty());
            assert(txn_views(retried@) + Seq::<TxnView>::empty() =~= txn_views(retried@));
            assert(statuses@ + retried_statuses(Seq::<TxnView>::empty()) =~= statuses@);
        }
        ChunkOutput {
            kept,
            discarded,
            retried,
            statuses,
            next_epoch_state: match epoch {
                Some(e) => Some(EpochState { epoch: e }),
                None => None,
            },
        }
    }

    /// Extend `parent_view` with the kept transactions: absorb their hashes
    /// into the accumulator and layer their writes over the state root.
    /// Returns the executed chunk together with the discarded and retried
    /// partitions.
    pub fn apply_to_ledger(self, parent_view: &LedgerView) -> (r: (
        ExecutedChunk,
        Vec<Transaction>,
        Vec<Transaction>,
    ))
        requires
            parent_view.wf(),
            parent_view.txn_accumulator.num_leaves + self.kept@.len() <= u64::MAX,
        ensures
            r.0.wf(),
            r.0@.txns == txn_views(self.kept@),
            r.0@.statuses == self.statuses@,
            r.0@.leaves == parent_view.txn_accumulator.leaves@ + hashes_of(txn_views(self.kept@)),
            r.0@.state_root == extend_state_root_txns(
                parent_view.state_root,
                txn_views(self.kept@),
            ),
            r.0@.next_epoch_state == self.next_epoch_state,
            r.0@.ledger_info is None,
            txn_views(r.1@) == txn_views(self.discarded@),
            txn_views(r.2@) == txn_views(self.retried@),
    {
        let ghost tv = txn_views(self.kept@);
        let mut hashes: Vec<u64> = Vec::new();
        let mut i: usize = 0;
        while i < self.kept.len()
            invariant
                tv == txn_views(self.kept@),
                i <= self.kept.len(),
                hashes@ == hashes_of(tv.take(i as int)),
            decreases self.kept.len() - i,
        {
            hashes.push(self.kept[i].hash);
            proof {
                assert(hashes_of(tv.take(i + 1 as int)) =~= hashes_of(tv.take(i as int)).push(
                    tv[i as int].hash,
                ));
            }
            i = i + 1;
        }
        proof {
            assert(tv.take(tv.len() as int) =~= tv);
        }
        let mut accumulator = parent_view.txn_accumulator;
        accumulator.append(&hashes);

        let mut state_root: u64 = parent_view.state_root;
        let mut j: usize = 0;
        while j < self.kept.len()
            invariant
                tv == txn_views(self.kept@),
                j <= self.kept.len(),
                state_root == extend_state_root_txns(parent_view.state_root, tv.take(j as int)),
            decreases self.kept.len() - j,
        {
            let t = &self.kept[j];
            state_root = extend_state_root_exec(state_root, &t.writes);
            proof {
                assert(tv.take(j + 1 as int).drop_last() =~= tv.take(j as int));
                assert(tv.take(j + 1 as int).last() == tv[j as int]);
                assert(tv[j as int].writes == t.writes@);
            }
            j = j + 1;
        }
        proof {
            assert(tv.take(tv.len() as int) =~= tv);
        }

        let chunk = ExecutedChunk {
            txns: self.kept,
            statuses: self.statuses,
            result_view: LedgerView { txn_accumulator: accumulator, state_root },
            next_epoch_state: self.next_epoch_state,
            ledger_info: None,
        };
        (chunk, self.discarded, self.retried)
    }
}

/// The unit produced by executing one block (or one contiguous group of
/// transactions): the committed suffix, the resulting ledger view, the
/// epoch state if the group reconfigured, and, from commit time on, the
/// signed ledger info.
pub struct ExecutedChunk {
    /// Transactions to commit, in order.
    pub txns: Vec<Transaction>,
    /// Outcome of each input transaction of the block, in input order.
    pub statuses: Vec<TxnStatus>,
    /// Ledger view after the chunk.
    pub result_view: LedgerView,
    /// Present exactly when the chunk reconfigured.
    pub next_epoch_state: Option<EpochState>,
    /// Signed ledger info, attached at commit time only.
    pub ledger_info: Option<LedgerInfoWithSignatures>,
}

/// Copy of a status sequence, element for element.
pub fn clone_statuses(v: &Vec<TxnStatus>) -> (r: Vec<TxnStatus>)
    ensures
        r@ == v@,
{
    let mut r: Vec<TxnStatus> = Vec::new();
    let mut i: usize = 0;
    while i < v.len()
        invariant
            i <= v.len(),
            r@ == v@.take(i as int),
        decreases v.len() - i,
    {
        r.push(v[i]);
        proof {
            assert(v@.take(i + 1 as int) =~= v@.take(i as int).push(v@[i as int]));
        }
        i = i + 1;
    }
    proof {
        assert(v@.take(v@.len() as int) =~= v@);
    }
    r
}

/// Mathematical image of an [`ExecutedChunk`].
pub ghost struct ChunkView {
    /// Transactions to commit, in order.
    pub txns: Seq<TxnView>,
    /// Outcome of each input transaction, in input order.
    pub statuses: Seq<TxnStatus>,
    /// Leaves of the accumulator after the chunk.
    pub leaves: Seq<u64>,
    /// State root after the chunk.
    pub state_root: u64,
    /// Present exactly when the chunk reconfigured.
    pub next_epoch_state: Option<EpochState>,
    /// Signed ledger info, attached at commit time only.
    pub ledger_info: Option<LedgerInfoWithSignaturesView>,
}

impl View for ExecutedChunk {
    type V = ChunkView;

    open spec fn view(&self) -> ChunkView {
        ChunkView {
            txns: txn_views(self.txns@),
            statuses: self.statuses@,
            leaves: self.result_view.txn_accumulator.leaves@,
            state_root: self.result_view.state_root,
            next_epoch_state: self.next_epoch_state,
            ledger_info: opt_li_view(self.ledger_info),
        }
    }
}

/// The chunk a block executed on a reconfigured parent gets: no
/// transactions, the parent's ledger view, the parent's epoch state.
pub open spec fn suffix_view(parent: ChunkView) -> ChunkView {
    ChunkView {
        txns: Seq::empty(),
        statuses: Seq::empty(),
        leaves: parent.leaves,
        state_root: parent.state_root,
        next_epoch_state: parent.next_epoch_state,
        ledger_info: None,
    }
}

/// The chunk produced by evaluating `txns` on a parent with the given
/// leaves and state root.
pub open spec fn executed_view(
    parent_leaves: Seq<u64>,
    parent_state_root: u64,
    txns: Seq<TxnView>,
) -> ChunkView {
    ChunkView {
        txns: kept_of(txns),
        statuses: statuses_of(txns),
        leaves: parent_leaves + hashes_of(kept_of(txns)),
        state_root: extend_state_root_txns(parent_state_root, kept_of(txns)),
        next_epoch_state: epoch_state_of(txns),
        ledger_info: None,
    }
}

/// The compute result reported to consensus for a chunk whose parent held
/// `parent_num_leaves` transactions.
pub open spec fn compute_result_view(c: ChunkView, parent_num_leaves: u64) -> StateComputeResultView {
    StateComputeResultView {
        root_hash: root_of(c.leaves),
        num_leaves: c.leaves.len() as u64,
        parent_num_leaves,
        txn_statuses: c.statuses,
        next_epoch_state: c.next_epoch_state,
    }
}

impl ExecutedChunk {
    /// The accumulator agrees with its ghost leaves.
    pub open spec fn wf(self) -> bool {
        self.result_view.wf()
    }

    /// True when this chunk ended its epoch.
    pub fn has_reconfiguration(&self) -> (r: bool)
        ensures
            r == (self@.next_epoch_state is Some),
    {
        self.next_epoch_state.is_some()
    }

    /// The chunk a descendant block inherits when this chunk reconfigured:
    /// zero transactions, this view, this epoch state.
    pub fn reconfig_suffix(&self) -> (r: ExecutedChunk)
        requires
            self.wf(),
        ensures
            r.wf(),
            r@ == suffix_view(self@),
    {
        let r = ExecutedChunk {
            txns: Vec::new(),
            statuses: Vec::new(),
            result_view: self.result_view,
            next_epoch_state: self.next_epoch_state,
            ledger_info: None,
        };
        proof {
            assert(txn_views(r.txns@) =~= Seq::<TxnView>::empty());
        }
        r
    }

    /// The transactions this chunk commits, in order.
    pub fn transactions_to_commit(&self) -> (r: Vec<Transaction>)
        ensures
            txn_views(r@) == self@.txns,
    {
        clone_txns(&self.txns)
    }

    /// The result reported to consensus: root, version range, per-txn
    /// status and epoch state.
    pub fn as_state_compute_result(&self, parent_num_leaves: u64) -> (r: StateComputeResult)
        requires
            self.wf(),
        ensures
            r@ == compute_result_view(self@, parent_num_leaves),
    {
        StateComputeResult {
            root_hash: self.result_view.txn_accumulator.root_hash,
            num_leaves: self.result_view.txn_accumulator.num_leaves,
            parent_num_leaves,
            txn_statuses: clone_statuses(&self.statuses),
            next_epoch_state: self.next_epoch_state,
        }
    }
}

impl Clone for ExecutedChunk {
    /// The copy has the image of the original, over the same ledger view.
    fn clone(&self) -> (r: Self)
        ensures
            r@ == self@,
            r.result_view == self.result_view,
    {
        ExecutedChunk {
            txns: clone_txns(&self.txns),
            statuses: clone_statuses(&self.statuses),
            result_view: self.result_view,
            next_epoch_state: self.next_epoch_state,
            ledger_info: match &self.ledger_info {
                Some(li) => Some(li.clone()),
                None => None,
            },
        }
    }
}

} // verus!
