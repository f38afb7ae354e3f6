//! The block executor: the face the consensus protocol drives.
//!
//! Consensus hands it ordered blocks to execute speculatively, then commits
//! a chosen suffix once quorum signs a ledger info.  The executor keeps the
//! speculative block tree and the handle to persistent storage, and keeps
//! them consistent: the root of the tree always carries the accumulator
//! over exactly the persisted transaction log.

use crate::block_tree::{
    block_of, chunk_continues, has_block, lemma_idx_unique, root_view_of_db, subtree_ids,
    BlockTree, BlockView, TreeView,
};
use crate::chunk::{
    executed_view, hashes_of, lemma_extend_state_root_txns_concat, lemma_hashes_of_concat,
    lemma_kept_len, suffix_view, ChunkOutput, ChunkView, ExecutedChunk,
};
use crate::hashing::EMPTY_ROOT;
use crate::storage::{Db, DbView};
use crate::types::{
    clone_txns, lemma_txn_views_concat, txn_views, Error, LedgerInfoWithSignatures,
    StateComputeResult, Transaction, TxnView,
};
use vstd::prelude::*;

verus! {

/// Mathematical image of a [`BlockExecutor`]: the persisted ledger and the
/// speculative tree over it.
pub ghost struct ExecutorView {
    /// The persistent ledger.
    pub db: DbView,
    /// The speculative block tree.
    pub tree: TreeView,
}

/// The chunk that executing `txns` under the parent named `parent_id`
/// produces: the inherited suffix when a reconfigured non-root parent is
/// extended, else the evaluated chunk applied to the parent's view.
pub open spec fn executed_block_output(t: TreeView, parent_id: u64, txns: Seq<TxnView>) -> ChunkView {
    let parent = block_of(t, parent_id);
    if parent_id != t.blocks[0].id && parent.output.next_epoch_state is Some {
        suffix_view(parent.output)
    } else {
        executed_view(parent.output.leaves, parent.output.state_root, txns)
    }
}

/// A commit of `li` is a retry: the root already persists exactly the
/// transactions `li` covers.  This is the only retry predicate: block ids
/// are never compared for it.
pub open spec fn commit_is_retry(s: ExecutorView, li: crate::types::LedgerInfo) -> bool {
    s.tree.blocks[0].output.leaves.len() == li.version + 1
}

/// The block ids `ids` name the committed suffix: each block is present
/// and strictly above the root, the first extends the root, each next one
/// its predecessor, and the last is `target`.
pub open spec fn chain_ok(t: TreeView, ids: Seq<u64>, target: u64) -> bool {
    &&& ids.len() >= 1
    &&& forall|k: int| 0 <= k < ids.len() ==> has_block(t, #[trigger] ids[k])
    &&& forall|k: int| 0 <= k < ids.len() ==> #[trigger] ids[k] != t.blocks[0].id
    &&& block_of(t, ids[0]).parent_id == t.blocks[0].id
    &&& forall|k: int|
        1 <= k < ids.len() ==> block_of(t, #[trigger] ids[k]).parent_id == ids[k - 1]
    &&& ids[ids.len() - 1] == target
}

/// Every transaction the blocks named by `ids` commit, concatenated in
/// order.
pub open spec fn flatten_txns(t: TreeView, ids: Seq<u64>) -> Seq<TxnView>
    decreases ids.len(),
{
    if ids.len() == 0 {
        Seq::empty()
    } else {
        flatten_txns(t, ids.drop_last()) + block_of(t, ids.last()).output.txns
    }
}

/// One step of flattening a committed chain: the next block's commitment
/// continues the flattened prefix.
pub proof fn lemma_commit_step(t: TreeView, idv: Seq<u64>, k: int)
    requires
        crate::block_tree::tree_wf(t),
        0 <= k < idv.len(),
        has_block(t, idv[k]),
        idv[k] != t.blocks[0].id,
        block_of(t, idv[k]).parent_id == (if k == 0 {
            t.blocks[0].id
        } else {
            idv[k - 1]
        }),
        k >= 1 ==> has_block(t, idv[k - 1]),
        k >= 1 ==> block_of(t, idv[k - 1]).output.leaves == t.blocks[0].output.leaves + hashes_of(
            flatten_txns(t, idv.take(k)),
        ),
        k >= 1 ==> block_of(t, idv[k - 1]).output.state_root
            == crate::chunk::extend_state_root_txns(
            t.blocks[0].output.state_root,
            flatten_txns(t, idv.take(k)),
        ),
    ensures
        flatten_txns(t, idv.take(k + 1)) == flatten_txns(t, idv.take(k)) + block_of(
            t,
            idv[k],
        ).output.txns,
        block_of(t, idv[k]).output.leaves == t.blocks[0].output.leaves + hashes_of(
            flatten_txns(t, idv.take(k + 1)),
        ),
        block_of(t, idv[k]).output.state_root == crate::chunk::extend_state_root_txns(
            t.blocks[0].output.state_root,
            flatten_txns(t, idv.take(k + 1)),
        ),
{
    let ci = crate::block_tree::idx_of(t, idv[k]);
    assert(t.blocks[ci].id == idv[k]);
    assert(ci != 0);
    let pidx: int = if k == 0 {
        0
    } else {
        crate::block_tree::idx_of(t, idv[k - 1])
    };
    assert(t.blocks[pidx].id == block_of(t, idv[k]).parent_id);
    assert(crate::block_tree::is_parent_at(t, ci, pidx));
    assert(chunk_continues(t.blocks[ci].output, t.blocks[pidx].output));
    assert(idv.take(k + 1).drop_last() =~= idv.take(k));
    assert(idv.take(k + 1).last() == idv[k]);
    if k == 0 {
        assert(flatten_txns(t, idv.take(0)) == Seq::<TxnView>::empty());
        assert(flatten_txns(t, idv.take(1)) =~= block_of(t, idv[0]).output.txns);
        assert(t.blocks[pidx] == t.blocks[0]);
    } else {
        lemma_hashes_of_concat(flatten_txns(t, idv.take(k)), block_of(t, idv[k]).output.txns);
        lemma_extend_state_root_txns_concat(
            t.blocks[0].output.state_root,
            flatten_txns(t, idv.take(k)),
            block_of(t, idv[k]).output.txns,
        );
        assert(t.blocks[0].output.leaves + hashes_of(flatten_txns(t, idv.take(k + 1))) =~= (
        t.blocks[0].output.leaves + hashes_of(flatten_txns(t, idv.take(k)))) + hashes_of(
            block_of(t, idv[k]).output.txns,
        ));
        assert(t.blocks[pidx] == block_of(t, idv[k - 1]));
    }
}

/// Value of `key` as seen from the block at position `i`: the most recent
/// write in that block's own chunk, else, recursively, in its parent's,
/// else the persisted state under the root.
pub open spec fn view_value(t: TreeView, db: DbView, i: int, key: u64) -> Option<u64>
    decreases i,
{
    if i <= 0 {
        crate::storage::log_value(db.log, key)
    } else if !(exists|j: int| 0 <= j < i && #[trigger] t.blocks[j].id == t.blocks[i].parent_id) {
        crate::storage::log_value(db.log, key)
    } else {
        match crate::storage::log_value(t.blocks[i].output.txns, key) {
            Some(v) => Some(v),
            None => {
                let p = choose|j: int|
                    0 <= j < i && #[trigger] t.blocks[j].id == t.blocks[i].parent_id;
                view_value(t, db, p, key)
            },
        }
    }
}

/// The block executor.
pub struct BlockExecutor {
    /// Handle to the persistent ledger.
    pub db: Db,
    /// The speculative block tree.
    pub block_tree: BlockTree,
}

impl View for BlockExecutor {
    type V = ExecutorView;

    open spec fn view(&self) -> ExecutorView {
        ExecutorView { db: self.db@, tree: self.block_tree@ }
    }
}

impl BlockExecutor {
    /// Ledger and tree each well-formed, and the tree's root carrying the
    /// ledger view over exactly the persisted log.
    pub open spec fn wf(self) -> bool {
        &&& self.db.wf()
        &&& self.block_tree.wf()
        &&& self@.tree.blocks[0].output.leaves == hashes_of(self@.db.log)
        &&& self@.tree.blocks[0].output.state_root == crate::chunk::extend_state_root_txns(
            EMPTY_ROOT,
            self@.db.log,
        )
    }

    /// An executor over `db`, with the tree rebuilt from the persisted tip.
    pub fn new(db: Db) -> (r: BlockExecutor)
        requires
            db.wf(),
        ensures
            r.wf(),
            r@.db == db@,
            r@.tree.blocks == seq![root_view_of_db(db@)],
    {
        let block_tree = BlockTree::new(&db);
        BlockExecutor { db, block_tree }
    }

    /// Id of the last committed block.
    pub fn committed_block_id(&self) -> (r: u64)
        requires
            self.wf(),
        ensures
            r == self@.tree.blocks[0].id,
    {
        self.block_tree.root_block().id
    }

    /// Discard all speculative state and rebuild the root from storage.
    /// Used after a state-sync jump.
    pub fn reset(&mut self) -> (r: Result<(), Error>)
        requires
            old(self).wf(),
        ensures
            final(self).wf(),
            r is Ok,
            final(self)@.db == old(self)@.db,
            final(self)@.tree.blocks == seq![root_view_of_db(old(self)@.db)],
    {
        self.block_tree.reset(&self.db);
        Ok(())
    }

    /// Execute the block `(id, txns)` on the parent named `parent_block_id`
    /// and attach it to the tree.
    ///
    /// A block already in the tree is not re-executed: its cached result is
    /// returned and the tree is left as it stands.  A missing parent is
    /// reported and the tree is left unchanged.  A child of a reconfigured
    /// non-root parent executes no transactions: it inherits the parent's
    /// view and epoch state.
    pub fn execute_block(
        &mut self,
        block: (u64, Vec<Transaction>),
        parent_block_id: u64,
    ) -> (r: Result<StateComputeResult, Error>)
        requires
            old(self).wf(),
            has_block(old(self)@.tree, parent_block_id) ==> block_of(
                old(self)@.tree,
                parent_block_id,
            ).output.leaves.len() + block.1@.len() <= u64::MAX,
        ensures
            final(self).wf(),
            final(self)@.db == old(self)@.db,
            !has_block(old(self)@.tree, parent_block_id) ==> {
                &&& r == Err::<StateComputeResult, Error>(Error::BlockNotFound(parent_block_id))
                &&& final(self)@ == old(self)@
            },
            has_block(old(self)@.tree, parent_block_id) && has_block(old(self)@.tree, block.0)
                ==> {
                &&& r is Ok
                &&& r.unwrap()@ == crate::chunk::compute_result_view(
                    block_of(old(self)@.tree, block.0).output,
                    block_of(old(self)@.tree, parent_block_id).output.leaves.len() as u64,
                )
                &&& final(self)@ == old(self)@
            },
            has_block(old(self)@.tree, parent_block_id) && !has_block(old(self)@.tree, block.0)
                ==> {
                &&& r is Ok
                &&& r.unwrap()@ == crate::chunk::compute_result_view(
                    executed_block_output(
                        old(self)@.tree,
                        parent_block_id,
                        txn_views(block.1@),
                    ),
                    block_of(old(self)@.tree, parent_block_id).output.leaves.len() as u64,
                )
                &&& final(self)@.tree.blocks == old(self)@.tree.blocks.push(
                    BlockView {
                        id: block.0,
                        parent_id: parent_block_id,
                        output: executed_block_output(
                            old(self)@.tree,
                            parent_block_id,
                            txn_views(block.1@),
                        ),
                    },
                )
            },
    {
        let (block_id, transactions) = block;
        let pi = match self.block_tree.find_index(parent_block_id) {
            Some(p) => p,
            None => {
                return Err(Error::BlockNotFound(parent_block_id));
            },
        };
        proof {
            lemma_idx_unique(self.block_tree@, pi as int, parent_block_id);
        }
        let parent_num_leaves: u64 =
            self.block_tree.blocks[pi].output.result_view.txn_accumulator.num_leaves;
        match self.block_tree.find_index(block_id) {
            Some(bi) => {
                proof {
                    lemma_idx_unique(self.block_tree@, bi as int, block_id);
                }
                Ok(self.block_tree.blocks[bi].output.as_state_compute_result(parent_num_leaves))
            },
            None => {
                let committed_id: u64 = self.block_tree.root_block().id;
                let parent_reconfigured: bool =
                    self.block_tree.blocks[pi].output.has_reconfiguration();
                let output: ExecutedChunk = if parent_block_id != committed_id
                    && parent_reconfigured {
                    let o = self.block_tree.blocks[pi].output.reconfig_suffix();
                    proof {
                        assert(hashes_of(o@.txns) =~= Seq::<u64>::empty());
                        assert(o@.leaves + hashes_of(o@.txns) =~= o@.leaves);
                        assert(chunk_continues(o@, self@.tree.blocks[pi as int].output));
                    }
                    o
                } else {
                    let co = ChunkOutput::by_transaction_execution(transactions);
                    proof {
                        lemma_kept_len(txn_views(block.1@));
                    }
                    let (chunk, _discarded, _retried) = co.apply_to_ledger(
                        &self.block_tree.blocks[pi].output.result_view,
                    );
                    proof {
                        assert(chunk_continues(chunk@, self@.tree.blocks[pi as int].output));
                    }
                    chunk
                };
                let result = output.as_state_compute_result(parent_num_leaves);
                proof {
                    assert(output@ == executed_block_output(
                        self@.tree,
                        parent_block_id,
                        txn_views(block.1@),
                    ));
                    assert forall|p: int|
                        0 <= p < self@.tree.blocks.len() && self@.tree.blocks[p].id
                            == parent_block_id implies chunk_continues(
                        output@,
                        self@.tree.blocks[p].output,
                    ) by {
                        lemma_idx_unique(self@.tree, p, parent_block_id);
                    }
                }
                match self.block_tree.add_block(parent_block_id, block_id, output) {
                    Ok(_) => Ok(result),
                    Err(e) => Err(e),
                }
            },
        }
    }

    /// Commit the suffix `block_ids`, quorum-signed by
    /// `ledger_info_with_sigs`: flatten the blocks' committed transactions,
    /// persist them atomically together with the ledger info, and prune the
    /// tree to the committed block.
    ///
    /// A ledger info whose version the root already persisted is a retry
    /// and succeeds without touching anything.  The flattened suffix must
    /// reach the signed version exactly, and the ids must name the chain
    /// from the root to the signed block.
    #[verifier::rlimit(100)]
    #[verifier::spinoff_prover]
    pub fn commit_blocks(
        &mut self,
        block_ids: Vec<u64>,
        ledger_info_with_sigs: LedgerInfoWithSignatures,
    ) -> (r: Result<(), Error>)
        requires
            old(self).wf(),
        ensures
            final(self).wf(),
            ({
                let t = old(self)@.tree;
                let li = ledger_info_with_sigs.ledger_info;
                let fm = BlockTree::first_missing(t, block_ids@);
                let flat = flatten_txns(t, block_ids@);
                let retry = commit_is_retry(old(self)@, li);
                &&& retry ==> r is Ok && final(self)@ == old(self)@
                &&& !retry && fm < block_ids@.len() ==> {
                    &&& r == Err::<(), Error>(Error::BlockNotFound(block_ids@[fm]))
                    &&& final(self)@ == old(self)@
                }
                &&& !retry && fm == block_ids@.len() && !chain_ok(
                    t,
                    block_ids@,
                    li.consensus_block_id,
                ) ==> {
                    &&& r == Err::<(), Error>(Error::BlockNotFound(li.consensus_block_id))
                    &&& final(self)@ == old(self)@
                }
                &&& !retry && fm == block_ids@.len() && chain_ok(t, block_ids@, li.consensus_block_id)
                    && t.blocks[0].output.leaves.len() + flat.len() != li.version + 1 ==> {
                    &&& r == Err::<(), Error>(
                        Error::BadNumTxnsToCommit {
                            first_version: t.blocks[0].output.leaves.len() as u64,
                            to_commit: flat.len() as usize,
                            target_version: li.version,
                        },
                    )
                    &&& final(self)@ == old(self)@
                }
                &&& !retry && fm == block_ids@.len() && chain_ok(t, block_ids@, li.consensus_block_id)
                    && t.blocks[0].output.leaves.len() + flat.len() == li.version + 1 ==> {
                    &&& r is Ok
                    &&& commit_is_retry(final(self)@, li)
                    &&& final(self)@.db.log == old(self)@.db.log + flat
                    &&& final(self)@.db.log.len() == li.version + 1
                    &&& old(self)@.db.log.len() < final(self)@.db.log.len()
                    &&& final(self)@.db.latest_li == Some(ledger_info_with_sigs@)
                    &&& final(self)@.tree.blocks[0].id == li.consensus_block_id
                    &&& final(self)@.tree.blocks[0].output == block_of(
                        t,
                        li.consensus_block_id,
                    ).output
                    &&& forall|x: u64|
                        has_block(final(self)@.tree, x) <==> subtree_ids(
                            t,
                            li.consensus_block_id,
                        ).contains(x)
                }
            }),
    {
        let li = ledger_info_with_sigs.ledger_info;
        let target_id = li.consensus_block_id;
        let ghost t = self@.tree;
        let ghost idv = block_ids@;
        let root_num_leaves: u64 =
            self.block_tree.root_block().output.result_view.txn_accumulator.num_leaves;
        let root_id: u64 = self.block_tree.root_block().id;
        proof {
            assert(t.blocks[0].output.leaves.len() == root_num_leaves as int);
        }
        if root_num_leaves as u128 == li.version as u128 + 1 {
            return Ok(());
        }
        let blocks = match self.block_tree.get_blocks(&block_ids) {
            Ok(bs) => bs,
            Err(e) => {
                return Err(e);
            },
        };
        if block_ids.len() == 0 {
            return Err(Error::BlockNotFound(target_id));
        }

        let mut to_commit: Vec<Transaction> = Vec::new();
        let mut prev_id: u64 = root_id;
        let mut k: usize = 0;
        proof {
            assert(flatten_txns(t, idv.take(0)) =~= Seq::<TxnView>::empty());
            assert(txn_views(to_commit@) =~= Seq::<TxnView>::empty());
        }
        while k < block_ids.len()
            invariant
                self.wf(),
                self@ == old(self)@,
                t == self@.tree,
                idv == block_ids@,
                idv.len() >= 1,
                li == ledger_info_with_sigs.ledger_info,
                target_id == li.consensus_block_id,
                root_id == t.blocks[0].id,
                root_num_leaves as int == t.blocks[0].output.leaves.len(),
                t.blocks[0].output.leaves.len() != li.version + 1,
                BlockTree::first_missing(t, idv) == idv.len(),
                blocks@.len() == idv.len(),
                k <= idv.len(),
                forall|m: int| 0 <= m < idv.len() ==> has_block(t, #[trigger] idv[m]),
                forall|m: int|
                    0 <= m < idv.len() ==> (#[trigger] blocks@[m])@ == block_of(t, idv[m]),
                forall|m: int| 0 <= m < k as int ==> #[trigger] idv[m] != t.blocks[0].id,
                k >= 1 ==> block_of(t, idv[0]).parent_id == t.blocks[0].id,
                forall|m: int|
                    1 <= m < k as int ==> block_of(t, #[trigger] idv[m]).parent_id == idv[m - 1],
                prev_id == (if k == 0 {
                    t.blocks[0].id
                } else {
                    idv[k - 1]
                }),
                txn_views(to_commit@) == flatten_txns(t, idv.take(k as int)),
                k >= 1 ==> block_of(t, idv[k - 1]).output.leaves == t.blocks[0].output.leaves
                    + hashes_of(flatten_txns(t, idv.take(k as int))),
                k >= 1 ==> block_of(t, idv[k - 1]).output.state_root
                    == crate::chunk::extend_state_root_txns(
                    t.blocks[0].output.state_root,
                    flatten_txns(t, idv.take(k as int)),
                ),
            decreases idv.len() - k,
        {
            let b = &blocks[k];
            if b.id == root_id {
                return Err(Error::BlockNotFound(target_id));
            }
            if b.parent_id != prev_id {
                return Err(Error::BlockNotFound(target_id));
            }
            proof {
                assert(b@ == block_of(t, idv[k as int]));
                assert(t.blocks[0].id != idv[k as int]);
                lemma_commit_step(t, idv, k as int);
            }
            let mut part = clone_txns(&b.output.txns);
            let ghost before = to_commit@;
            let ghost partv = part@;
            to_commit.append(&mut part);
            proof {
                lemma_txn_views_concat(before, partv);
                assert(txn_views(to_commit@) == txn_views(before) + b@.output.txns);
            }
            prev_id = b.id;
            k = k + 1;
        }
        proof {
            assert(idv.take(idv.len() as int) =~= idv);
        }
        if block_ids[block_ids.len() - 1] != target_id {
            return Err(Error::BlockNotFound(target_id));
        }
        proof {
            assert(chain_ok(t, idv, target_id));
        }

        let first_version = root_num_leaves;
        if (first_version as u128) + (to_commit.len() as u128) != (li.version as u128) + 1 {
            return Err(
                Error::BadNumTxnsToCommit {
                    first_version,
                    to_commit: to_commit.len(),
                    target_version: li.version,
                },
            );
        }
        proof {
            assert(self@.db.log.len() == hashes_of(self@.db.log).len());
            assert(first_version == self@.db.log.len());
        }
        let ghost old_db_log = self@.db.log;
        match self.db.save_transactions(&to_commit, first_version, Some(&ledger_info_with_sigs)) {
            Ok(_) => {},
            Err(_) => {
                proof {
                    assert(false);
                }
                return Err(Error::StorageError);
            },
        }
        proof {
            lemma_hashes_of_concat(old_db_log, flatten_txns(t, idv));
            lemma_extend_state_root_txns_concat(EMPTY_ROOT, old_db_log, flatten_txns(t, idv));
        }
        match self.block_tree.prune(&li) {
            Ok(_) => {},
            Err(_) => {
                proof {
                    assert(has_block(t, target_id));
                    assert(false);
                }
                return Err(Error::BlockNotFound(target_id));
            },
        }
        Ok(())
    }

    /// Value of `key` as seen from the speculative block named `block_id`:
    /// its own writes first, then its ancestors' in turn, then the
    /// persisted state.  The lookup walks the chain of overlays; the root
    /// reads persisted state directly, since its transactions are already
    /// in the log.
    #[verifier::rlimit(50)]
    pub fn state_value_at_block(&self, block_id: u64, key: u64) -> (r: Result<Option<u64>, Error>)
        requires
            self.wf(),
        ensures
            !has_block(self@.tree, block_id) ==> r == Err::<Option<u64>, Error>(
                Error::BlockNotFound(block_id),
            ),
            has_block(self@.tree, block_id) ==> r == Ok::<Option<u64>, Error>(
                view_value(
                    self@.tree,
                    self@.db,
                    crate::block_tree::idx_of(self@.tree, block_id),
                    key,
                ),
            ),
    {
        let ghost t = self@.tree;
        let start = match self.block_tree.find_index(block_id) {
            Some(i) => i,
            None => {
                return Err(Error::BlockNotFound(block_id));
            },
        };
        proof {
            lemma_idx_unique(t, start as int, block_id);
        }
        let mut cur: usize = start;
        while cur > 0
            invariant
                self.wf(),
                t == self@.tree,
                cur < t.blocks.len(),
                has_block(t, block_id),
                start as int == crate::block_tree::idx_of(t, block_id),
                view_value(t, self@.db, start as int, key) == view_value(
                    t,
                    self@.db,
                    cur as int,
                    key,
                ),
            decreases cur,
        {
            proof {
                assert(t.blocks[cur as int].output.txns == txn_views(
                    self.block_tree.blocks@[cur as int].output.txns@,
                ));
                assert(exists|j: int|
                    0 <= j < cur as int && #[trigger] t.blocks[j].id
                        == t.blocks[cur as int].parent_id);
            }
            let found = crate::db_bootstrapper::txns_value(
                &self.block_tree.blocks[cur].output.txns,
                key,
            );
            if found.is_some() {
                return Ok(found);
            }
            let parent_id = self.block_tree.blocks[cur].parent_id;
            let pi = match self.block_tree.find_index(parent_id) {
                Some(p) => p,
                None => {
                    proof {
                        let j = choose|j: int|
                            0 <= j < cur as int && #[trigger] t.blocks[j].id
                                == t.blocks[cur as int].parent_id;
                        assert(has_block(t, parent_id));
                        assert(false);
                    }
                    return Err(Error::BlockNotFound(parent_id));
                },
            };
            proof {
                let j = choose|j: int|
                    0 <= j < cur as int && #[trigger] t.blocks[j].id
                        == t.blocks[cur as int].parent_id;
                crate::block_tree::lemma_idx_unique(t, j, parent_id);
                crate::block_tree::lemma_idx_unique(t, pi as int, parent_id);
                assert(pi as int == j);
            }
            cur = pi;
        }
        Ok(self.db.state_view_at_version(None, key))
    }
}

} // verus!
