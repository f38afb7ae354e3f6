//! The persistent ledger, behind the five operations the execution core
//! consumes: read the tree state, read state values, read the synced
//! version, append transactions atomically, and read the latest signed
//! ledger info.
//!
//! The store keeps the committed transaction log itself; the accumulator
//! root and the state root over the log are maintained incrementally and
//! tied to the log by the store's well-formedness.

use crate::accumulator::{Accumulator, LedgerView};
use crate::chunk::{
    extend_state_root_txns, hashes_of, lemma_extend_state_root_txns_concat, lemma_hashes_of_concat,
};
use crate::hashing::{
    extend_root, extend_state_root_exec, lemma_root_of_concat, mix_exec, root_of, EMPTY_ROOT,
};
use crate::types::{
    lemma_txn_views_push, opt_li_view, txn_views, Error, LedgerInfoWithSignatures,
    LedgerInfoWithSignaturesView, Transaction, TreeState, TxnView,
};
use vstd::prelude::*;

verus! {

/// Most recent value written to `key` by `writes`, if any.
pub open spec fn value_in_writes(writes: Seq<(u64, u64)>, key: u64) -> Option<u64>
    decreases writes.len(),
{
    if writes.len() == 0 {
        None
    } else if writes.last().0 == key {
        Some(writes.last().1)
    } else {
        value_in_writes(writes.drop_last(), key)
    }
}

/// Most recent value written to `key` by any transaction of `log`, if any.
pub open spec fn log_value(log: Seq<TxnView>, key: u64) -> Option<u64>
    decreases log.len(),
{
    if log.len() == 0 {
        None
    } else {
        match value_in_writes(log.last().writes, key) {
            Some(v) => Some(v),
            None => log_value(log.drop_last(), key),
        }
    }
}

/// Most recent value of `key` in a write set, scanned from the back.
pub fn write_value(writes: &Vec<(u64, u64)>, key: u64) -> (r: Option<u64>)
    ensures
        r == value_in_writes(writes@, key),
{
    let mut i: usize = writes.len();
    proof {
        assert(writes@.take(i as int) =~= writes@);
    }
    while i > 0
        invariant
            i <= writes.len(),
            value_in_writes(writes@, key) == value_in_writes(writes@.take(i as int), key),
        decreases i,
    {
        i = i - 1;
        let (k, v) = writes[i];
        proof {
            assert(writes@.take(i + 1 as int).last() == writes@[i as int]);
            assert(writes@.take(i + 1 as int).drop_last() =~= writes@.take(i as int));
        }
        if k == key {
            return Some(v);
        }
    }
    None
}

/// Mathematical image of the persistent ledger.
pub ghost struct DbView {
    /// Every committed transaction, in version order.
    pub log: Seq<TxnView>,
    /// The highest signed ledger info persisted, if any.
    pub latest_li: Option<LedgerInfoWithSignaturesView>,
}

/// The persistent ledger: an append-only transaction log, the roots over
/// it, and the latest signed ledger info.
pub struct Db {
    /// Every committed transaction, in version order.
    pub log: Vec<Transaction>,
    /// Accumulator root over the hashes of `log`.
    pub accumulator_root: u64,
    /// State root after every write of `log`.
    pub state_root: u64,
    /// The highest signed ledger info persisted, if any.
    pub latest_li: Option<LedgerInfoWithSignatures>,
}

impl View for Db {
    type V = DbView;

    open spec fn view(&self) -> DbView {
        DbView { log: txn_views(self.log@), latest_li: opt_li_view(self.latest_li) }
    }
}

impl Db {
    /// The cached roots agree with the log.
    pub open spec fn wf(self) -> bool {
        &&& self.accumulator_root == root_of(hashes_of(self@.log))
        &&& self.state_root == extend_state_root_txns(EMPTY_ROOT, self@.log)
    }

    /// An empty ledger: no transactions, no ledger info.
    pub fn new() -> (r: Db)
        ensures
            r.wf(),
            r@.log == Seq::<TxnView>::empty(),
            r@.latest_li is None,
    {
        let r = Db {
            log: Vec::new(),
            accumulator_root: EMPTY_ROOT,
            state_root: EMPTY_ROOT,
            latest_li: None,
        };
        proof {
            assert(txn_views(r.log@) =~= Seq::<TxnView>::empty());
            assert(hashes_of(r@.log) =~= Seq::<u64>::empty());
        }
        r
    }

    /// Snapshot of the persisted ledger: transaction count and both roots.
    pub fn get_latest_tree_state(&self) -> (r: TreeState)
        requires
            self.wf(),
        ensures
            r.num_transactions == self@.log.len(),
            r.root_hash == root_of(hashes_of(self@.log)),
            r.state_root == extend_state_root_txns(EMPTY_ROOT, self@.log),
    {
        TreeState {
            num_transactions: self.log.len() as u64,
            root_hash: self.accumulator_root,
            state_root: self.state_root,
        }
    }

    /// The ledger view at the persisted tip: accumulator over the whole log
    /// plus the state root.
    pub fn base_ledger_view(&self) -> (r: LedgerView)
        requires
            self.wf(),
        ensures
            r.wf(),
            r.txn_accumulator.leaves@ == hashes_of(self@.log),
            r.txn_accumulator.num_leaves == self@.log.len(),
            r.state_root == extend_state_root_txns(EMPTY_ROOT, self@.log),
    {
        LedgerView {
            txn_accumulator: Accumulator {
                num_leaves: self.log.len() as u64,
                root_hash: self.accumulator_root,
                leaves: Ghost(hashes_of(self@.log)),
            },
            state_root: self.state_root,
        }
    }

    /// Highest committed transaction version, if any transaction committed.
    pub fn fetch_synced_version(&self) -> (r: Option<u64>)
        ensures
            self@.log.len() == 0 ==> r is None,
            self@.log.len() > 0 ==> r == Some((self@.log.len() - 1) as u64),
    {
        if self.log.len() == 0 {
            None
        } else {
            Some((self.log.len() - 1) as u64)
        }
    }

    /// The highest persisted signed ledger info, if any.
    pub fn get_latest_ledger_info(&self) -> (r: Option<LedgerInfoWithSignatures>)
        ensures
            opt_li_view(r) == self@.latest_li,
    {
        match &self.latest_li {
            Some(li) => Some(li.clone()),
            None => None,
        }
    }

    /// Value of `key` in the persisted state at the given version, or at
    /// the latest version when none is given.
    pub fn state_view_at_version(&self, version: Option<u64>, key: u64) -> (r: Option<u64>)
        requires
            version is Some ==> version.unwrap() < self@.log.len(),
        ensures
            match version {
                Some(v) => r == log_value(self@.log.take(v + 1 as int), key),
                None => r == log_value(self@.log, key),
            },
    {
        let n: usize = self.log.len();
        proof {
            assert(self@.log.len() == self.log@.len());
        }
        let upto: usize = match version {
            Some(v) => {
                proof {
                    assert(v < n);
                }
                (v as usize) + 1
            },
            None => n,
        };
        let ghost logv = self@.log;
        let ghost target = logv.take(upto as int);
        proof {
            if version is Some {
                assert(upto as int == version.unwrap() + 1);
            }
        }
        proof {
            if version is None {
                assert(logv.take(upto as int) =~= logv);
            }
        }
        let mut i: usize = upto;
        while i > 0
            invariant
                logv == self@.log,
                target == (match version {
                    Some(v) => logv.take(v + 1 as int),
                    None => logv,
                }),
                target == logv.take(upto as int),
                i <= upto <= self@.log.len(),
                log_value(target, key) == log_value(logv.take(i as int), key),
            decreases i,
        {
            i = i - 1;
            proof {
                assert(logv.take(i + 1 as int).last() == logv[i as int]);
                assert(logv.take(i + 1 as int).drop_last() =~= logv.take(i as int));
                assert(logv[i as int].writes == self.log@[i as int].writes@);
            }
            let found = write_value(&self.log[i].writes, key);
            if found.is_some() {
                proof {
                    assert(log_value(logv.take(i + 1 as int), key) == found);
                }
                return found;
            }
        }
        proof {
            assert(logv.take(0) =~= Seq::<TxnView>::empty());
        }
        None
    }

    /// Atomically append `txns` at `first_version`; with a ledger info,
    /// also persist it as the new latest.  The write is owed exactly when
    /// `first_version` continues the persisted log; otherwise the store is
    /// left unchanged and the version skew is reported.
    #[verifier::rlimit(50)]
    pub fn save_transactions(
        &mut self,
        txns: &Vec<Transaction>,
        first_version: u64,
        ledger_info: Option<&LedgerInfoWithSignatures>,
    ) -> (r: Result<(), Error>)
        requires
            old(self).wf(),
        ensures
            final(self).wf(),
            first_version == old(self)@.log.len() ==> {
                &&& r is Ok
                &&& final(self)@.log == old(self)@.log + txn_views(txns@)
                &&& final(self)@.latest_li == (match ledger_info {
                    Some(li) => Some(li@),
                    None => old(self)@.latest_li,
                })
            },
            first_version != old(self)@.log.len() ==> {
                &&& r == Err::<(), Error>(Error::StorageError)
                &&& final(self)@ == old(self)@
            },
    {
        proof {
            assert(self@.log.len() == self.log@.len());
        }
        if self.log.len() as u64 != first_version {
            return Err(Error::StorageError);
        }
        let ghost old_log = self@.log;
        let ghost added = txn_views(txns@);

        let mut i: usize = 0;
        proof {
            assert(old_log + added.take(0) =~= old_log);
        }
        while i < txns.len()
            invariant
                txn_views(self.log@) == old_log + added.take(i as int),
                added == txn_views(txns@),
                i <= txns.len(),
                self.accumulator_root == old(self).accumulator_root,
                self.state_root == old(self).state_root,
                opt_li_view(self.latest_li) == old(self)@.latest_li,
            decreases txns.len() - i,
        {
            let ghost prev = self.log@;
            let c = txns[i].clone();
            let ghost cv = c@;
            self.log.push(c);
            proof {
                assert(cv == added[i as int]);
                lemma_txn_views_push(prev, c);
                assert((old_log + added.take(i as int)).push(cv) =~= old_log + added.take(i + 1));
            }
            i = i + 1;
        }
        proof {
            assert(added.take(added.len() as int) =~= added);
        }

        let mut acc_root: u64 = self.accumulator_root;
        let mut j: usize = 0;
        proof {
            assert(hashes_of(added.take(0)) =~= Seq::<u64>::empty());
            assert(acc_root == root_of(hashes_of(old_log)));
            assert(extend_root(root_of(hashes_of(old_log)), hashes_of(added.take(0)))
                == root_of(hashes_of(old_log)));
        }
        while j < txns.len()
            invariant
                added == txn_views(txns@),
                j <= txns.len(),
                acc_root == extend_root(
                    root_of(hashes_of(old_log)),
                    hashes_of(added.take(j as int)),
                ),
            decreases txns.len() - j,
        {
            acc_root = mix_exec(acc_root, txns[j].hash);
            proof {
                assert(hashes_of(added.take(j + 1)).drop_last() =~= hashes_of(
                    added.take(j as int),
                ));
                assert(hashes_of(added.take(j + 1)).last() == added[j as int].hash);
                assert(added[j as int].hash == txns@[j as int].hash);
            }
            j = j + 1;
        }

        let mut state_root: u64 = self.state_root;
        let mut k: usize = 0;
        proof {
            assert(added.take(0) =~= Seq::<TxnView>::empty());
            assert(state_root == extend_state_root_txns(EMPTY_ROOT, old_log));
            assert(extend_state_root_txns(extend_state_root_txns(EMPTY_ROOT, old_log), added.take(0))
                == extend_state_root_txns(EMPTY_ROOT, old_log));
        }
        while k < txns.len()
            invariant
                added == txn_views(txns@),
                k <= txns.len(),
                state_root == extend_state_root_txns(
                    extend_state_root_txns(EMPTY_ROOT, old_log),
                    added.take(k as int),
                ),
            decreases txns.len() - k,
        {
            state_root = extend_state_root_exec(state_root, &txns[k].writes);
            proof {
                assert(added.take(k + 1).drop_last() =~= added.take(k as int));
                assert(added.take(k + 1).last() == added[k as int]);
                assert(added[k as int].writes == txns@[k as int].writes@);
            }
            k = k + 1;
        }
        proof {
            assert(added.take(added.len() as int) =~= added);
            lemma_root_of_concat(hashes_of(old_log), hashes_of(added));
            lemma_hashes_of_concat(old_log, added);
            lemma_extend_state_root_txns_concat(EMPTY_ROOT, old_log, added);
        }
        self.accumulator_root = acc_root;
        self.state_root = state_root;
        match ledger_info {
            Some(li) => {
                self.latest_li = Some(li.clone());
            },
            None => {},
        }
        Ok(())
    }
}

} // verus!
