//! The append-only transaction accumulator and the ledger view built on it.

use crate::hashing::{
    extend_root, lemma_root_of_concat, mix_exec, root_of, EMPTY_ROOT,
};
use vstd::prelude::*;

verus! {

/// Append-only commitment over the hashes of every transaction of a ledger.
///
/// The executable state is the leaf count and the running root; the leaves
/// themselves are carried as ghost state so that contracts can speak of
/// exactly which transactions the root commits to.
#[derive(Clone, Copy)]
pub struct Accumulator {
    /// Number of leaves absorbed.
    pub num_leaves: u64,
    /// Root over all absorbed leaves.
    pub root_hash: u64,
    /// The absorbed leaves themselves.
    pub leaves: Ghost<Seq<u64>>,
}

impl Accumulator {
    /// The executable fields agree with the ghost leaves.
    pub open spec fn wf(self) -> bool {
        &&& self.leaves@.len() == self.num_leaves as int
        &&& self.root_hash == root_of(self.leaves@)
    }

    /// The accumulator of an empty ledger.
    pub fn new_empty() -> (r: Accumulator)
        ensures
            r.wf(),
            r.leaves@ == Seq::<u64>::empty(),
            r.num_leaves == 0,
            r.root_hash == EMPTY_ROOT,
    {
        Accumulator { num_leaves: 0, root_hash: EMPTY_ROOT, leaves: Ghost(Seq::empty()) }
    }

    /// Absorb `hashes`, in order, after the present leaves.
    pub fn append(&mut self, hashes: &Vec<u64>)
        requires
            old(self).wf(),
            old(self).num_leaves + hashes@.len() <= u64::MAX,
        ensures
            final(self).wf(),
            final(self).leaves@ == old(self).leaves@ + hashes@,
            final(self).num_leaves == old(self).num_leaves + hashes@.len(),
            final(self).root_hash == extend_root(old(self).root_hash, hashes@),
    {
        let mut root: u64 = self.root_hash;
        let mut i: usize = 0;
        while i < hashes.len()
            invariant
                i <= hashes.len(),
                root == extend_root(old(self).root_hash, hashes@.take(i as int)),
            decreases hashes.len() - i,
        {
            root = mix_exec(root, hashes[i]);
            proof {
                assert(hashes@.take(i + 1 as int).drop_last() =~= hashes@.take(i as int));
                assert(hashes@.take(i + 1 as int).last() == hashes@[i as int]);
            }
            i = i + 1;
        }
        proof {
            assert(hashes@.take(hashes@.len() as int) =~= hashes@);
            lemma_root_of_concat(self.leaves@, hashes@);
        }
        self.root_hash = root;
        self.num_leaves = self.num_leaves + hashes.len() as u64;
        self.leaves = Ghost(self.leaves@ + hashes@);
    }

    /// Version of the last absorbed transaction.
    pub fn version(&self) -> (r: u64)
        requires
            self.num_leaves >= 1,
        ensures
            r == self.num_leaves - 1,
    {
        self.num_leaves - 1
    }
}

/// Commitment to a ledger as of one block: the transaction accumulator plus
/// the root of the state tree its writes produced.
#[derive(Clone, Copy)]
pub struct LedgerView {
    /// Accumulator over every transaction up to this view.
    pub txn_accumulator: Accumulator,
    /// Root of the state tree at this view.
    pub state_root: u64,
}

impl LedgerView {
    /// The accumulator agrees with its ghost leaves.
    pub open spec fn wf(self) -> bool {
        self.txn_accumulator.wf()
    }
}

} // verus!
