//! The in-memory tree of speculatively executed blocks, anchored at the
//! last committed block.
//!
//! The root stands for the persisted tip; every other node holds the
//! executed chunk of one speculative block and names its parent.  Blocks
//! are stored parents first: the root at position zero, every other block
//! after its parent.  The tree's well-formedness ties each block's
//! accumulator leaves and state root to its parent's, so that the
//! commitment of any block in the tree continues the commitment of the
//! path beneath it.

use crate::chunk::{extend_state_root_txns, hashes_of, ChunkView, ExecutedChunk};
use crate::hashing::EMPTY_ROOT;
use crate::storage::{Db, DbView};
use crate::types::{txn_views, Error, LedgerInfo, TxnView};
use vstd::prelude::*;

verus! {

/// One node of the tree: a block id, its parent's id, and the chunk its
/// execution produced.
pub struct Block {
    /// Id of the block.
    pub id: u64,
    /// Id of the parent block.  The root names itself.
    pub parent_id: u64,
    /// What executing the block produced.
    pub output: ExecutedChunk,
}

/// Mathematical image of a [`Block`].
pub ghost struct BlockView {
    /// Id of the block.
    pub id: u64,
    /// Id of the parent block.  The root names itself.
    pub parent_id: u64,
    /// What executing the block produced.
    pub output: ChunkView,
}

impl View for Block {
    type V = BlockView;

    open spec fn view(&self) -> BlockView {
        BlockView { id: self.id, parent_id: self.parent_id, output: self.output@ }
    }
}

impl Clone for Block {
    /// The copy has the image of the original, over the same ledger view.
    fn clone(&self) -> (r: Self)
        ensures
            r@ == self@,
            r.output.result_view == self.output.result_view,
    {
        Block { id: self.id, parent_id: self.parent_id, output: self.output.clone() }
    }
}

/// Images of a sequence of blocks, element for element.
pub open spec fn block_views(s: Seq<Block>) -> Seq<BlockView> {
    s.map_values(|b: Block| b@)
}

/// The image of a pushed sequence is the image with the pushed element's
/// image.
pub proof fn lemma_block_views_push(s: Seq<Block>, b: Block)
    ensures
        block_views(s.push(b)) == block_views(s).push(b@),
{
    assert(block_views(s.push(b)) =~= block_views(s).push(b@));
}

/// Mathematical image of a [`BlockTree`].
pub ghost struct TreeView {
    /// The blocks, parents first: the root at position zero.
    pub blocks: Seq<BlockView>,
}

/// True when some block of `s` carries id `x`.
pub open spec fn seq_has_id(s: Seq<BlockView>, x: u64) -> bool {
    exists|k: int| 0 <= k < s.len() && #[trigger] s[k].id == x
}

/// True when a block with id `id` is in the tree.
pub open spec fn has_block(t: TreeView, id: u64) -> bool {
    seq_has_id(t.blocks, id)
}

/// Position of the block with id `id`; meaningful only when present.
pub open spec fn idx_of(t: TreeView, id: u64) -> int {
    choose|j: int| 0 <= j < t.blocks.len() && #[trigger] t.blocks[j].id == id
}

/// The block with id `id`; meaningful only when present.
pub open spec fn block_of(t: TreeView, id: u64) -> BlockView {
    t.blocks[idx_of(t, id)]
}

/// Position `p` holds the parent of the non-root block at position `c`.
pub open spec fn is_parent_at(t: TreeView, c: int, p: int) -> bool {
    &&& 1 <= c < t.blocks.len()
    &&& 0 <= p < t.blocks.len()
    &&& t.blocks[p].id == t.blocks[c].parent_id
}

/// The child chunk continues the parent chunk: its leaves extend the
/// parent's by the hashes of its own transactions, and its state root
/// layers its own writes over the parent's.
pub open spec fn chunk_continues(child: ChunkView, parent: ChunkView) -> bool {
    &&& child.leaves == parent.leaves + hashes_of(child.txns)
    &&& child.state_root == extend_state_root_txns(parent.state_root, child.txns)
}

/// Well-formedness of the tree's image: a self-parented root at position
/// zero, unique ids, every other block after its parent, and every child
/// chunk continuing its parent chunk.
pub open spec fn tree_wf(t: TreeView) -> bool {
    &&& t.blocks.len() >= 1
    &&& t.blocks[0].parent_id == t.blocks[0].id
    &&& forall|i: int, j: int|
        #![trigger t.blocks[i].id, t.blocks[j].id]
        0 <= i < j < t.blocks.len() ==> t.blocks[i].id != t.blocks[j].id
    &&& forall|i: int|
        #![trigger t.blocks[i].parent_id]
        1 <= i < t.blocks.len() ==> exists|j: int|
            0 <= j < i && #[trigger] t.blocks[j].id == t.blocks[i].parent_id
    &&& forall|c: int, p: int|
        #[trigger] is_parent_at(t, c, p) ==> chunk_continues(t.blocks[c].output, t.blocks[p].output)
}

/// Ids of the block at position `t` and of every later block reachable
/// from it through parent links, among the first `n` blocks.
pub open spec fn subtree_ids_upto(b: Seq<BlockView>, t: int, n: int) -> Set<u64>
    decreases n,
{
    if t < 0 || n <= t {
        Set::empty()
    } else if n == t + 1 {
        Set::<u64>::empty().insert(b[t].id)
    } else {
        let prev = subtree_ids_upto(b, t, n - 1);
        if prev.contains(b[n - 1].parent_id) {
            prev.insert(b[n - 1].id)
        } else {
            prev
        }
    }
}

/// Ids of the block `target` and of all its descendants in the tree.
pub open spec fn subtree_ids(t: TreeView, target: u64) -> Set<u64> {
    subtree_ids_upto(t.blocks, idx_of(t, target), t.blocks.len() as int)
}

/// Position of the block of `v` carrying id `id`, if any.
pub fn find_id_in(v: &Vec<Block>, id: u64) -> (r: Option<usize>)
    ensures
        match r {
            Some(i) => i < v@.len() && v@[i as int]@.id == id,
            None => !seq_has_id(block_views(v@), id),
        },
{
    let mut i: usize = 0;
    while i < v.len()
        invariant
            i <= v@.len(),
            forall|k: int| 0 <= k < i as int ==> v@[k]@.id != id,
        decreases v@.len() - i,
    {
        if v[i].id == id {
            return Some(i);
        }
        proof {
            assert(v@[i as int]@.id != id);
        }
        i = i + 1;
    }
    proof {
        assert forall|k: int| 0 <= k < block_views(v@).len() implies #[trigger] block_views(
            v@,
        )[k].id != id by {
            assert(block_views(v@)[k] == v@[k]@);
        }
    }
    None
}

/// In a well-formed tree the position of an id is the position of any
/// block carrying it.
pub proof fn lemma_idx_unique(t: TreeView, i: int, id: u64)
    requires
        tree_wf(t),
        0 <= i < t.blocks.len(),
        t.blocks[i].id == id,
    ensures
        has_block(t, id),
        idx_of(t, id) == i,
        block_of(t, id) == t.blocks[i],
{
    assert(has_block(t, id));
    let j = idx_of(t, id);
    assert(0 <= j < t.blocks.len() && t.blocks[j].id == id);
    if j != i {
        let lo = if i < j { i } else { j };
        let hi = if i < j { j } else { i };
        assert(t.blocks[lo].id != t.blocks[hi].id);
        assert(false);
    }
}

/// Keeping a block whose parent is already kept extends the kept ids by
/// exactly that block's id.
pub proof fn lemma_subtree_push_step(
    b: Seq<BlockView>,
    t: int,
    n: int,
    prevk: Seq<BlockView>,
    nk: Seq<BlockView>,
)
    requires
        0 <= t < n < b.len(),
        nk == prevk.push(b[n]),
        forall|x: u64| seq_has_id(prevk, x) <==> subtree_ids_upto(b, t, n).contains(x),
        seq_has_id(prevk, b[n].parent_id),
    ensures
        forall|x: u64| seq_has_id(nk, x) <==> subtree_ids_upto(b, t, n + 1).contains(x),
{
    let prevset = subtree_ids_upto(b, t, n);
    assert(prevset.contains(b[n].parent_id));
    assert(subtree_ids_upto(b, t, n + 1) == prevset.insert(b[n].id));
    assert forall|x: u64|
        seq_has_id(nk, x) <==> subtree_ids_upto(b, t, n + 1).contains(x) by {
        if seq_has_id(nk, x) {
            let k = choose|k: int| 0 <= k < nk.len() && #[trigger] nk[k].id == x;
            if k < prevk.len() {
                assert(nk[k] == prevk[k]);
                assert(seq_has_id(prevk, x));
            } else {
                assert(nk[k] == b[n]);
            }
        }
        if subtree_ids_upto(b, t, n + 1).contains(x) {
            if x == b[n].id {
                assert(nk[nk.len() - 1] == b[n]);
                assert(nk[nk.len() - 1].id == x);
                assert(seq_has_id(nk, x));
            } else {
                assert(prevset.contains(x));
                assert(seq_has_id(prevk, x));
                let k = choose|k: int| 0 <= k < prevk.len() && #[trigger] prevk[k].id == x;
                assert(nk[k] == prevk[k]);
                assert(nk[k].id == x);
                assert(seq_has_id(nk, x));
            }
        }
    }
}

/// Skipping a block whose parent is not kept leaves the kept ids as they
/// were.
pub proof fn lemma_subtree_skip_step(b: Seq<BlockView>, t: int, n: int, prevk: Seq<BlockView>)
    requires
        0 <= t < n < b.len(),
        forall|x: u64| seq_has_id(prevk, x) <==> subtree_ids_upto(b, t, n).contains(x),
        !seq_has_id(prevk, b[n].parent_id),
    ensures
        subtree_ids_upto(b, t, n + 1) == subtree_ids_upto(b, t, n),
{
    assert(!subtree_ids_upto(b, t, n).contains(b[n].parent_id));
}

/// What pruning builds is a well-formed tree whose blocks carry the
/// outputs they carried in the old tree.
pub proof fn lemma_pruned_tree_wf(
    oldt: TreeView,
    tii: int,
    target_id: u64,
    srcs: Seq<int>,
    keptv: Seq<BlockView>,
)
    requires
        tree_wf(oldt),
        0 <= tii < oldt.blocks.len(),
        oldt.blocks[tii].id == target_id,
        srcs.len() == keptv.len(),
        keptv.len() >= 1,
        srcs[0] == tii,
        keptv[0] == (BlockView {
            id: target_id,
            parent_id: target_id,
            output: oldt.blocks[tii].output,
        }),
        forall|k: int| 1 <= k < srcs.len() ==> tii < #[trigger] srcs[k] < oldt.blocks.len(),
        forall|k1: int, k2: int|
            #![trigger srcs[k1], srcs[k2]]
            0 <= k1 < k2 < srcs.len() ==> srcs[k1] < srcs[k2],
        forall|k: int| 1 <= k < keptv.len() ==> #[trigger] keptv[k] == oldt.blocks[srcs[k]],
        forall|k: int|
            #![trigger keptv[k].parent_id]
            1 <= k < keptv.len() ==> exists|m: int|
                0 <= m < k && #[trigger] keptv[m].id == keptv[k].parent_id,
    ensures
        tree_wf(TreeView { blocks: keptv }),
        forall|k: int|
            0 <= k < keptv.len() ==> {
                &&& has_block(oldt, (#[trigger] keptv[k]).id)
                &&& keptv[k].output == block_of(oldt, keptv[k].id).output
            },
{
    assert forall|k1: int, k2: int|
        #![trigger keptv[k1].id, keptv[k2].id]
        0 <= k1 < k2 < keptv.len() implies keptv[k1].id != keptv[k2].id by {
        let i1 = srcs[k1];
        let i2 = srcs[k2];
        assert(i1 < i2);
        if k1 == 0 {
            assert(keptv[k1].id == oldt.blocks[tii].id);
        } else {
            assert(keptv[k1] == oldt.blocks[i1]);
        }
        assert(keptv[k2] == oldt.blocks[i2]);
        assert(oldt.blocks[i1].id != oldt.blocks[i2].id);
    }
    assert forall|k: int| 0 <= k < keptv.len() implies {
        &&& has_block(oldt, (#[trigger] keptv[k]).id)
        &&& keptv[k].output == block_of(oldt, keptv[k].id).output
    } by {
        if k == 0 {
            lemma_idx_unique(oldt, tii, target_id);
        } else {
            assert(keptv[k] == oldt.blocks[srcs[k]]);
            lemma_idx_unique(oldt, srcs[k], keptv[k].id);
        }
    }
    let nt = TreeView { blocks: keptv };
    assert forall|c: int, p: int| #[trigger]
        is_parent_at(nt, c, p) implies chunk_continues(keptv[c].output, keptv[p].output) by {
        let ic = srcs[c];
        assert(keptv[c] == oldt.blocks[ic]);
        if p == 0 {
            lemma_idx_unique(oldt, tii, keptv[p].id);
        } else {
            assert(keptv[p] == oldt.blocks[srcs[p]]);
            lemma_idx_unique(oldt, srcs[p], keptv[p].id);
        }
        let jp = idx_of(oldt, keptv[p].id);
        assert(oldt.blocks[jp].id == oldt.blocks[ic].parent_id);
        assert(is_parent_at(oldt, ic, jp));
        assert(keptv[p].output == oldt.blocks[jp].output);
    }
}

/// The speculative block tree.

pub struct BlockTree {
    /// The blocks, parents first: the root at position zero.
    pub blocks: Vec<Block>,
}

impl View for BlockTree {
    type V = TreeView;

    open spec fn view(&self) -> TreeView {
        TreeView { blocks: block_views(self.blocks@) }
    }
}

/// The root the tree gets from the persisted ledger: the id the latest
/// ledger info commits to (the zero id before any commit), no pending
/// transactions, and the ledger view at the persisted tip.
pub open spec fn root_view_of_db(db: DbView) -> BlockView {
    let id = match db.latest_li {
        Some(li) => li.ledger_info.consensus_block_id,
        None => 0,
    };
    BlockView {
        id,
        parent_id: id,
        output: ChunkView {
            txns: Seq::empty(),
            statuses: Seq::empty(),
            leaves: hashes_of(db.log),
            state_root: extend_state_root_txns(EMPTY_ROOT, db.log),
            next_epoch_state: None,
            ledger_info: None,
        },
    }
}

impl BlockTree {
    /// Tree image well-formed, and every stored chunk's accumulator agrees
    /// with its ghost leaves.
    pub open spec fn wf(self) -> bool {
        &&& tree_wf(self@)
        &&& forall|i: int|
            0 <= i < self.blocks@.len() ==> (#[trigger] self.blocks@[i]).output.wf()
    }

    /// A tree holding only the root read from storage.
    pub fn new(db: &Db) -> (r: BlockTree)
        requires
            db.wf(),
        ensures
            r.wf(),
            r@.blocks == seq![root_view_of_db(db@)],
    {
        let id: u64 = match db.get_latest_ledger_info() {
            Some(li) => li.ledger_info.consensus_block_id,
            None => 0,
        };
        let root = Block {
            id,
            parent_id: id,
            output: ExecutedChunk {
                txns: Vec::new(),
                statuses: Vec::new(),
                result_view: db.base_ledger_view(),
                next_epoch_state: None,
                ledger_info: None,
            },
        };
        let mut blocks: Vec<Block> = Vec::new();
        blocks.push(root);
        let r = BlockTree { blocks };
        proof {
            assert(txn_views(r.blocks@[0].output.txns@) =~= Seq::<TxnView>::empty());
            assert(r@.blocks =~= seq![root_view_of_db(db@)]);
        }
        r
    }

    /// Discard all speculative state and rebuild the root from storage.
    pub fn reset(&mut self, db: &Db)
        requires
            db.wf(),
        ensures
            final(self).wf(),
            final(self)@.blocks == seq![root_view_of_db(db@)],
    {
        *self = BlockTree::new(db);
    }

    /// The current anchor: the last committed block.
    pub fn root_block(&self) -> (r: &Block)
        requires
            self.wf(),
        ensures
            r@ == self@.blocks[0],
            r.output.wf(),
    {
        &self.blocks[0]
    }

    /// Position of the block with id `id`, if present.
    pub fn find_index(&self, id: u64) -> (r: Option<usize>)
        ensures
            match r {
                Some(i) => i < self.blocks@.len() && self@.blocks[i as int].id == id,
                None => !has_block(self@, id),
            },
    {
        let mut i: usize = 0;
        while i < self.blocks.len()
            invariant
                i <= self.blocks@.len(),
                forall|k: int| 0 <= k < i as int ==> self@.blocks[k].id != id,
            decreases self.blocks@.len() - i,
        {
            if self.blocks[i].id == id {
                proof {
                    assert(self@.blocks[i as int].id == id);
                }
                return Some(i);
            }
            proof {
                assert(self@.blocks[i as int].id != id);
            }
            i = i + 1;
        }
        None
    }

    /// For each id, the block under that id, or nothing where the id is
    /// not in the tree, preserving order.
    pub fn get_blocks_opt(&self, ids: &Vec<u64>) -> (r: Vec<Option<Block>>)
        requires
            self.wf(),
        ensures
            r@.len() == ids@.len(),
            forall|k: int|
                0 <= k < ids@.len() ==> match #[trigger] r@[k] {
                    Some(b) => has_block(self@, ids@[k]) && b@ == block_of(self@, ids@[k]),
                    None => !has_block(self@, ids@[k]),
                },
    {
        let mut r: Vec<Option<Block>> = Vec::new();
        let mut k: usize = 0;
        while k < ids.len()
            invariant
                self.wf(),
                k <= ids@.len(),
                r@.len() == k as int,
                forall|m: int|
                    0 <= m < k as int ==> match #[trigger] r@[m] {
                        Some(b) => has_block(self@, ids@[m]) && b@ == block_of(self@, ids@[m]),
                        None => !has_block(self@, ids@[m]),
                    },
            decreases ids@.len() - k,
        {
            match self.find_index(ids[k]) {
                Some(i) => {
                    proof {
                        lemma_idx_unique(self@, i as int, ids@[k as int]);
                    }
                    r.push(Some(self.blocks[i].clone()));
                },
                None => {
                    r.push(None);
                },
            }
            k = k + 1;
        }
        r
    }

    /// Smallest position in `ids` whose block is missing; the length of
    /// `ids` when every block is present.
    pub open spec fn first_missing(t: TreeView, ids: Seq<u64>) -> int
        decreases ids.len(),
    {
        if ids.len() == 0 {
            0
        } else if !has_block(t, ids[0]) {
            0
        } else {
            1 + Self::first_missing(t, ids.skip(1))
        }
    }

    /// The blocks under `ids`, in order; owed exactly when every id is in
    /// the tree, else the first missing id is reported.
    pub fn get_blocks(&self, ids: &Vec<u64>) -> (r: Result<Vec<Block>, Error>)
        requires
            self.wf(),
        ensures
            Self::first_missing(self@, ids@) <= ids@.len(),
            Self::first_missing(self@, ids@) == ids@.len() ==> {
                &&& r is Ok
                &&& r.unwrap()@.len() == ids@.len()
                &&& forall|k: int| 0 <= k < ids@.len() ==> has_block(self@, #[trigger] ids@[k])
                &&& forall|k: int|
                    0 <= k < ids@.len() ==> (#[trigger] r.unwrap()@[k])@ == block_of(
                        self@,
                        ids@[k],
                    )
            },
            Self::first_missing(self@, ids@) < ids@.len() ==> r == Err::<Vec<Block>, Error>(
                Error::BlockNotFound(ids@[Self::first_missing(self@, ids@)]),
            ),
    {
        let ghost idv = ids@;
        let mut out: Vec<Block> = Vec::new();
        let mut k: usize = 0;
        proof {
            assert(idv.skip(0) =~= idv);
        }
        while k < ids.len()
            invariant
                self.wf(),
                idv == ids@,
                k <= idv.len(),
                out@.len() == k as int,
                forall|m: int| 0 <= m < k as int ==> has_block(self@, idv[m]),
                forall|m: int|
                    0 <= m < k as int ==> (#[trigger] out@[m])@ == block_of(self@, idv[m]),
                Self::first_missing(self@, idv) == k + Self::first_missing(
                    self@,
                    idv.skip(k as int),
                ),
            decreases idv.len() - k,
        {
            proof {
                assert(idv.skip(k as int)[0] == idv[k as int]);
                assert(idv.skip(k as int).skip(1) =~= idv.skip(k + 1));
            }
            match self.find_index(ids[k]) {
                Some(i) => {
                    proof {
                        lemma_idx_unique(self@, i as int, idv[k as int]);
                    }
                    out.push(self.blocks[i].clone());
                },
                None => {
                    proof {
                        assert(Self::first_missing(self@, idv.skip(k as int)) == 0);
                    }
                    return Err(Error::BlockNotFound(ids[k]));
                },
            }
            k = k + 1;
        }
        proof {
            assert(idv.skip(idv.len() as int) =~= Seq::<u64>::empty());
        }
        Ok(out)
    }

    /// Attach a freshly executed block under its parent.  Owed whenever
    /// the parent is in the tree; a block already present is returned as
    /// it stands, so a consensus retry re-inserts nothing.
    pub fn add_block(&mut self, parent_id: u64, block_id: u64, output: ExecutedChunk) -> (r:
        Result<Block, Error>)
        requires
            old(self).wf(),
            output.wf(),
            forall|p: int|
                0 <= p < old(self)@.blocks.len() && old(self)@.blocks[p].id == parent_id
                    ==> chunk_continues(output@, old(self)@.blocks[p].output),
        ensures
            final(self).wf(),
            !has_block(old(self)@, parent_id) ==> {
                &&& r == Err::<Block, Error>(Error::BlockNotFound(parent_id))
                &&& final(self)@ == old(self)@
            },
            has_block(old(self)@, parent_id) && has_block(old(self)@, block_id) ==> {
                &&& r is Ok
                &&& r.unwrap()@ == block_of(old(self)@, block_id)
                &&& final(self)@ == old(self)@
            },
            has_block(old(self)@, parent_id) && !has_block(old(self)@, block_id) ==> {
                &&& r is Ok
                &&& r.unwrap()@ == (BlockView { id: block_id, parent_id, output: output@ })
                &&& final(self)@.blocks == old(self)@.blocks.push(
                    BlockView { id: block_id, parent_id, output: output@ },
                )
            },
    {
        let parent_pos = match self.find_index(parent_id) {
            Some(p) => p,
            None => {
                return Err(Error::BlockNotFound(parent_id));
            },
        };
        match self.find_index(block_id) {
            Some(i) => {
                proof {
                    lemma_idx_unique(self@, i as int, block_id);
                }
                Ok(self.blocks[i].clone())
            },
            None => {
                let b = Block { id: block_id, parent_id, output };
                let r = b.clone();
                let ghost oldt = self@;
                let ghost bv = b@;
                self.blocks.push(b);
                proof {
                    assert(block_views(self.blocks@) =~= oldt.blocks.push(bv));
                    let nt = self@;
                    let n = oldt.blocks.len() as int;
                    assert(nt.blocks[0] == oldt.blocks[0]);
                    assert forall|i: int, j: int|
                        0 <= i < j < nt.blocks.len() implies nt.blocks[i].id
                        != nt.blocks[j].id by {
                        if j == n {
                            assert(nt.blocks[i] == oldt.blocks[i]);
                            assert(!has_block(oldt, block_id));
                            assert(oldt.blocks[i].id != block_id);
                        } else {
                            assert(nt.blocks[i] == oldt.blocks[i]);
                            assert(nt.blocks[j] == oldt.blocks[j]);
                        }
                    }
                    assert forall|i: int| #![trigger nt.blocks[i].parent_id]
                        1 <= i < nt.blocks.len() implies exists|j: int|
                        0 <= j < i && #[trigger] nt.blocks[j].id == nt.blocks[i].parent_id by {
                        if i == n {
                            assert(oldt.blocks[parent_pos as int].id == parent_id);
                            assert(nt.blocks[parent_pos as int].id == nt.blocks[i].parent_id);
                        } else {
                            assert(nt.blocks[i] == oldt.blocks[i]);
                            let j = choose|j: int|
                                0 <= j < i && #[trigger] oldt.blocks[j].id
                                    == oldt.blocks[i].parent_id;
                            assert(nt.blocks[j].id == nt.blocks[i].parent_id);
                        }
                    }
                    assert forall|c: int, p: int| #[trigger]
                        is_parent_at(nt, c, p) implies chunk_continues(
                        nt.blocks[c].output,
                        nt.blocks[p].output,
                    ) by {
                        if c < n && p < n {
                            assert(is_parent_at(oldt, c, p));
                        } else if c < n && p == n {
                            assert(oldt.blocks[c].parent_id == block_id);
                            let j = choose|j: int|
                                0 <= j < c && #[trigger] oldt.blocks[j].id
                                    == oldt.blocks[c].parent_id;
                            assert(has_block(oldt, block_id));
                            assert(false);
                        } else {
                            assert(c == n);
                            if p == n {
                                assert(has_block(oldt, parent_id));
                                let j = idx_of(oldt, parent_id);
                                assert(oldt.blocks[j].id == parent_id);
                                assert(has_block(oldt, block_id));
                                assert(false);
                            } else {
                                assert(oldt.blocks[p].id == parent_id);
                                assert(chunk_continues(bv.output, oldt.blocks[p].output));
                            }
                        }
                    }
                    assert forall|i: int|
                        0 <= i < self.blocks@.len() implies (#[trigger] self.blocks@[i]).output.wf() by {
                        if i < n {
                            assert(self.blocks@[i] == old(self).blocks@[i]);
                        }
                    }
                }
                Ok(r)
            },
        }
    }

    /// Promote the block `ledger_info` commits to the new root, keeping
    /// exactly that block and its descendants; every other block is
    /// dropped.  Owed whenever the target block is in the tree.
    #[verifier::rlimit(100)]
    #[verifier::spinoff_prover]
    pub fn prune(&mut self, ledger_info: &LedgerInfo) -> (r: Result<(), Error>)
        requires
            old(self).wf(),
        ensures
            final(self).wf(),
            !has_block(old(self)@, ledger_info.consensus_block_id) ==> {
                &&& r == Err::<(), Error>(Error::BlockNotFound(ledger_info.consensus_block_id))
                &&& final(self)@ == old(self)@
            },
            has_block(old(self)@, ledger_info.consensus_block_id) ==> {
                &&& r is Ok
                &&& final(self)@.blocks[0] == (BlockView {
                    id: ledger_info.consensus_block_id,
                    parent_id: ledger_info.consensus_block_id,
                    output: block_of(old(self)@, ledger_info.consensus_block_id).output,
                })
                &&& forall|x: u64|
                    has_block(final(self)@, x) <==> subtree_ids(
                        old(self)@,
                        ledger_info.consensus_block_id,
                    ).contains(x)
                &&& forall|k: int|
                    0 <= k < final(self)@.blocks.len() ==> {
                        &&& has_block(old(self)@, (#[trigger] final(self)@.blocks[k]).id)
                        &&& final(self)@.blocks[k].output == block_of(
                            old(self)@,
                            final(self)@.blocks[k].id,
                        ).output
                    }
            },
    {
        let target_id = ledger_info.consensus_block_id;
        let ti = match self.find_index(target_id) {
            Some(i) => i,
            None => {
                return Err(Error::BlockNotFound(target_id));
            },
        };
        proof {
            lemma_idx_unique(self@, ti as int, target_id);
        }
        let ghost oldt = self@;
        let ghost tii = ti as int;
        let nlen: usize = self.blocks.len();
        let target = self.blocks[ti].clone();
        let mut kept: Vec<Block> = Vec::new();
        kept.push(Block { id: target.id, parent_id: target.id, output: target.output });
        let ghost mut srcs: Seq<int> = seq![tii];
        let mut n: usize = ti + 1;
        proof {
            assert(block_views(kept@) =~= seq![
                BlockView { id: target_id, parent_id: target_id, output: oldt.blocks[tii].output },
            ]);
            assert(subtree_ids_upto(oldt.blocks, tii, n as int) =~= Set::<u64>::empty().insert(
                target_id,
            ));
            assert(block_views(kept@)[0].id == target_id);
            assert(seq_has_id(block_views(kept@), target_id));
            assert forall|x: u64|
                seq_has_id(block_views(kept@), x) implies subtree_ids_upto(
                oldt.blocks,
                tii,
                n as int,
            ).contains(x) by {
                let k = choose|k: int|
                    0 <= k < block_views(kept@).len() && #[trigger] block_views(kept@)[k].id == x;
                assert(k == 0);
            }
        }
        while n < self.blocks.len()
            invariant
                self.wf(),
                oldt == self@,
                0 <= tii < oldt.blocks.len(),
                oldt.blocks[tii].id == target_id,
                tii < n <= oldt.blocks.len(),
                srcs.len() == kept@.len(),
                kept@.len() >= 1,
                srcs[0] == tii,
                block_views(kept@)[0] == (BlockView {
                    id: target_id,
                    parent_id: target_id,
                    output: oldt.blocks[tii].output,
                }),
                forall|k: int| 1 <= k < srcs.len() ==> tii < #[trigger] srcs[k] < n,
                forall|k1: int, k2: int|
                    #![trigger srcs[k1], srcs[k2]]
                    0 <= k1 < k2 < srcs.len() ==> srcs[k1] < srcs[k2],
                forall|k: int|
                    1 <= k < kept@.len() ==> #[trigger] block_views(kept@)[k] == oldt.blocks[
                        srcs[k]
                    ],
                forall|k: int|
                    #![trigger block_views(kept@)[k].parent_id]
                    1 <= k < kept@.len() ==> exists|m: int|
                        0 <= m < k && #[trigger] block_views(kept@)[m].id == block_views(
                            kept@,
                        )[k].parent_id,
                forall|i: int|
                    0 <= i < kept@.len() ==> (#[trigger] kept@[i]).output.wf(),
                forall|x: u64|
                    seq_has_id(block_views(kept@), x) <==> subtree_ids_upto(
                        oldt.blocks,
                        tii,
                        n as int,
                    ).contains(x),
            decreases self.blocks@.len() - n,
        {
            let ghost prevk = block_views(kept@);
            let ghost prevset = subtree_ids_upto(oldt.blocks, tii, n as int);
            proof {
                assert(oldt.blocks[n as int] == self.blocks@[n as int]@);
            }
            let parent_pos = find_id_in(&kept, self.blocks[n].parent_id);
            match parent_pos {
                Some(m) => {
                    let c = self.blocks[n].clone();
                    kept.push(c);
                    proof {
                        srcs = srcs.push(n as int);
                        assert(block_views(kept@) =~= prevk.push(oldt.blocks[n as int]));
                        assert(prevk[m as int] == kept@[m as int]@);
                        assert(prevk[m as int].id == oldt.blocks[n as int].parent_id);
                        assert(seq_has_id(prevk, oldt.blocks[n as int].parent_id));
                        lemma_subtree_push_step(
                            oldt.blocks,
                            tii,
                            n as int,
                            prevk,
                            block_views(kept@),
                        );
                        assert forall|k: int|
                            #![trigger block_views(kept@)[k].parent_id]
                            1 <= k < kept@.len() implies exists|m2: int|
                            0 <= m2 < k && #[trigger] block_views(kept@)[m2].id == block_views(
                                kept@,
                            )[k].parent_id by {
                            let nk = block_views(kept@);
                            if k < prevk.len() {
                                let m2 = choose|m2: int|
                                    0 <= m2 < k && #[trigger] prevk[m2].id == prevk[k].parent_id;
                                assert(nk[m2].id == nk[k].parent_id);
                            } else {
                                assert(nk[m as int].id == nk[k].parent_id);
                            }
                        }
                    }
                },
                None => {
                    proof {
                        assert(!seq_has_id(prevk, oldt.blocks[n as int].parent_id));
                        lemma_subtree_skip_step(oldt.blocks, tii, n as int, prevk);
                    }
                },
            }
            n = n + 1;
        }
        let ghost keptv = block_views(kept@);
        proof {
            lemma_idx_unique(oldt, tii, target_id);
            assert(subtree_ids(oldt, target_id) == subtree_ids_upto(
                oldt.blocks,
                tii,
                oldt.blocks.len() as int,
            ));
            lemma_pruned_tree_wf(oldt, tii, target_id, srcs, keptv);
        }
        self.blocks = kept;
        proof {
            assert(self@.blocks == keptv);
            assert(tree_wf(self@));
        }
        Ok(())
    }
}

} // verus!
