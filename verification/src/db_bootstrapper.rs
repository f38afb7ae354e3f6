//! The genesis pipeline: compute the waypoint a genesis transaction
//! commits to, and, when the persisted ledger expects it, execute and
//! persist that transaction.
//!
//! The pipeline works on an empty ledger (true genesis) or on an existing
//! chain (re-genesis after quorum loss).  On an existing chain the genesis
//! transaction must bump the on-chain epoch by exactly one and carry a
//! fresh on-chain timestamp; in every case it must commit at least one
//! transaction and emit a reconfiguration.

use crate::accumulator::LedgerView;
use crate::chunk::{executed_view, hashes_of, ChunkOutput, ChunkView, ExecutedChunk};
use crate::storage::{log_value, Db, DbView};
use crate::types::{
    ledger_info_digest, txn_views, Error, LedgerInfo, LedgerInfoWithSignatures,
    LedgerInfoWithSignaturesView, Transaction, TreeState, TxnView, Waypoint, CONFIG_STATE_KEY,
    GENESIS_EPOCH, GENESIS_ROUND, GENESIS_TIMESTAMP_USECS, TIMESTAMP_STATE_KEY,
};
use vstd::prelude::*;

verus! {

/// Value of `key` as seen through `overlay` layered over the persisted
/// ledger.
pub open spec fn overlay_value(overlay: Seq<TxnView>, db: DbView, key: u64) -> Option<u64> {
    match log_value(overlay, key) {
        Some(v) => Some(v),
        None => log_value(db.log, key),
    }
}

/// The id under which the genesis block commits.
pub fn genesis_block_id() -> (r: u64)
    ensures
        r == 0,
{
    0
}

/// The chunk produced by executing the genesis transaction on the
/// persisted tip.
pub open spec fn spec_genesis_chunk(db: DbView, txn: TxnView) -> ChunkView {
    executed_view(
        hashes_of(db.log),
        crate::chunk::extend_state_root_txns(crate::hashing::EMPTY_ROOT, db.log),
        seq![txn],
    )
}

/// Epoch in force before genesis: the genesis epoch on an empty ledger,
/// else the on-chain configuration epoch.
pub open spec fn spec_prior_epoch(db: DbView) -> Option<u64> {
    if db.log.len() == 0 {
        Some(GENESIS_EPOCH)
    } else {
        log_value(db.log, CONFIG_STATE_KEY)
    }
}

/// All the checks genesis must pass: the transaction commits, it
/// reconfigures, and on a non-empty ledger the prior epoch is readable,
/// bumped by exactly one in the new state, and a new timestamp is present.
pub open spec fn spec_genesis_ok(db: DbView, txn: TxnView) -> bool {
    let chunk = spec_genesis_chunk(db, txn);
    &&& chunk.txns.len() > 0
    &&& chunk.next_epoch_state is Some
    &&& db.log.len() > 0 ==> {
        &&& spec_prior_epoch(db) is Some
        &&& spec_prior_epoch(db).unwrap() + 1 <= u64::MAX
        &&& overlay_value(chunk.txns, db, CONFIG_STATE_KEY) == Some(
            (spec_prior_epoch(db).unwrap() + 1) as u64,
        )
        &&& overlay_value(chunk.txns, db, TIMESTAMP_STATE_KEY) is Some
    }
}

/// The timestamp genesis records: the constant on an empty ledger, else
/// the on-chain timestamp of the new state.
pub open spec fn spec_genesis_timestamp(db: DbView, txn: TxnView) -> u64 {
    if db.log.len() == 0 {
        GENESIS_TIMESTAMP_USECS
    } else {
        overlay_value(spec_genesis_chunk(db, txn).txns, db, TIMESTAMP_STATE_KEY).unwrap()
    }
}

/// The ledger info genesis signs nothing over: genesis round, the zero
/// block id, the executed accumulator root, and the epoch state of the
/// reconfiguration.
pub open spec fn spec_genesis_ledger_info(db: DbView, txn: TxnView) -> LedgerInfo {
    let chunk = spec_genesis_chunk(db, txn);
    LedgerInfo {
        epoch: spec_prior_epoch(db).unwrap(),
        round: GENESIS_ROUND,
        consensus_block_id: 0,
        executed_state_id: crate::hashing::root_of(chunk.leaves),
        version: db.log.len() as u64,
        timestamp_usecs: spec_genesis_timestamp(db, txn),
        next_epoch_state: chunk.next_epoch_state,
        consensus_data_hash: 0,
    }
}

/// The chunk the genesis committer holds: the executed chunk with the
/// genesis ledger info attached.
pub open spec fn spec_genesis_output(db: DbView, txn: TxnView) -> ChunkView {
    ChunkView {
        ledger_info: Some(
            LedgerInfoWithSignaturesView {
                ledger_info: spec_genesis_ledger_info(db, txn),
                signatures: Seq::empty(),
            },
        ),
        ..spec_genesis_chunk(db, txn)
    }
}

/// The waypoint genesis commits to.
pub open spec fn spec_genesis_waypoint(db: DbView, txn: TxnView) -> Waypoint {
    Waypoint {
        version: db.log.len() as u64,
        value: ledger_info_digest(spec_genesis_ledger_info(db, txn)),
    }
}

/// Most recent value of `key` in `txns`, scanned from the back.
pub fn txns_value(txns: &Vec<Transaction>, key: u64) -> (r: Option<u64>)
    ensures
        r == log_value(txn_views(txns@), key),
{
    let ghost tv = txn_views(txns@);
    let mut i: usize = txns.len();
    proof {
        assert(tv.take(i as int) =~= tv);
    }
    while i > 0
        invariant
            tv == txn_views(txns@),
            i <= txns.len(),
            log_value(tv, key) == log_value(tv.take(i as int), key),
        decreases i,
    {
        i = i - 1;
        proof {
            assert(tv.take(i + 1 as int).last() == tv[i as int]);
            assert(tv.take(i + 1 as int).drop_last() =~= tv.take(i as int));
            assert(tv[i as int].writes == txns@[i as int].writes@);
        }
        let found = crate::storage::write_value(&txns[i].writes, key);
        if found.is_some() {
            return found;
        }
    }
    proof {
        assert(tv.take(0) =~= Seq::<TxnView>::empty());
    }
    None
}

/// On-chain configuration epoch seen through `overlay` over the persisted
/// ledger; missing configuration refuses bootstrap.
pub fn get_state_epoch(db: &Db, overlay: &Vec<Transaction>) -> (r: Result<u64, Error>)
    ensures
        match overlay_value(txn_views(overlay@), db@, CONFIG_STATE_KEY) {
            Some(e) => r == Ok::<u64, Error>(e),
            None => r == Err::<u64, Error>(Error::BootstrapMismatch),
        },
{
    match txns_value(overlay, CONFIG_STATE_KEY) {
        Some(e) => Ok(e),
        None => match db.state_view_at_version(None, CONFIG_STATE_KEY) {
            Some(e) => Ok(e),
            None => Err(Error::BootstrapMismatch),
        },
    }
}

/// On-chain timestamp seen through `overlay` over the persisted ledger;
/// missing timestamp refuses bootstrap.
pub fn get_state_timestamp(db: &Db, overlay: &Vec<Transaction>) -> (r: Result<u64, Error>)
    ensures
        match overlay_value(txn_views(overlay@), db@, TIMESTAMP_STATE_KEY) {
            Some(e) => r == Ok::<u64, Error>(e),
            None => r == Err::<u64, Error>(Error::BootstrapMismatch),
        },
{
    match txns_value(overlay, TIMESTAMP_STATE_KEY) {
        Some(e) => Ok(e),
        None => match db.state_view_at_version(None, TIMESTAMP_STATE_KEY) {
            Some(e) => Ok(e),
            None => Err(Error::BootstrapMismatch),
        },
    }
}

/// Holds a fully calculated genesis: the executed chunk with its ledger
/// info, and the waypoint committing to it, ready to persist.
pub struct GenesisCommitter {
    /// The executed genesis chunk, ledger info attached.
    pub output: ExecutedChunk,
    /// Waypoint over the attached ledger info.
    pub waypoint: Waypoint,
}

impl GenesisCommitter {
    /// The chunk's accumulator agrees with its leaves and its committed
    /// transactions do not outnumber them.
    pub open spec fn wf(self) -> bool {
        &&& self.output.wf()
        &&& self.output@.txns.len() <= self.output@.leaves.len()
    }

    /// A committer over `output`; owed exactly when `output` carries a
    /// ledger info that ends its epoch.
    pub fn new(output: ExecutedChunk) -> (r: Result<GenesisCommitter, Error>)
        requires
            output.wf(),
            output@.txns.len() <= output@.leaves.len(),
        ensures
            match output@.ledger_info {
                Some(lis) => {
                    &&& lis.ledger_info.spec_ends_epoch() ==> {
                        &&& r is Ok
                        &&& r.unwrap().output@ == output@
                        &&& r.unwrap().wf()
                        &&& r.unwrap().waypoint == (Waypoint {
                            version: lis.ledger_info.version,
                            value: ledger_info_digest(lis.ledger_info),
                        })
                    }
                    &&& !lis.ledger_info.spec_ends_epoch() ==> r == Err::<
                        GenesisCommitter,
                        Error,
                    >(Error::BootstrapMismatch)
                },
                None => r == Err::<GenesisCommitter, Error>(Error::BootstrapMismatch),
            },
    {
        let li: LedgerInfo = match &output.ledger_info {
            Some(lis) => lis.ledger_info,
            None => {
                return Err(Error::BootstrapMismatch);
            },
        };
        let waypoint = match Waypoint::new_epoch_boundary(&li) {
            Ok(w) => w,
            Err(e) => {
                return Err(e);
            },
        };
        Ok(GenesisCommitter { output, waypoint })
    }

    /// The waypoint this committer would persist up to.
    pub fn waypoint(&self) -> (r: Waypoint)
        ensures
            r == self.waypoint,
    {
        self.waypoint
    }

    /// Persist the genesis chunk and its ledger info.  Owed exactly when
    /// the chunk's first version continues the persisted log.
    pub fn commit(self, db: &mut Db) -> (r: Result<(), Error>)
        requires
            self.wf(),
            old(db).wf(),
        ensures
            final(db).wf(),
            ({
                let first = self.output@.leaves.len() - self.output@.txns.len();
                &&& first == old(db)@.log.len() ==> {
                    &&& r is Ok
                    &&& final(db)@.log == old(db)@.log + self.output@.txns
                    &&& final(db)@.latest_li == (match self.output@.ledger_info {
                        Some(lis) => Some(lis),
                        None => old(db)@.latest_li,
                    })
                }
                &&& first != old(db)@.log.len() ==> {
                    &&& r == Err::<(), Error>(Error::StorageError)
                    &&& final(db)@ == old(db)@
                }
            }),
    {
        let num_leaves: u64 = self.output.result_view.txn_accumulator.num_leaves;
        let first_version: u64 = num_leaves - self.output.txns.len() as u64;
        db.save_transactions(&self.output.txns, first_version, self.output.ledger_info.as_ref())
    }
}

/// Execute the genesis transaction against the persisted tip and package
/// the result: the executed chunk, its ledger info, and the waypoint.
/// Owed exactly when the genesis checks pass.
pub fn calculate_genesis(db: &Db, tree_state: TreeState, genesis_txn: &Transaction) -> (r: Result<
    GenesisCommitter,
    Error,
>)
    requires
        db.wf(),
        db@.log.len() < u64::MAX,
        tree_state.num_transactions == db@.log.len(),
    ensures
        spec_genesis_ok(db@, genesis_txn@) ==> {
            &&& r is Ok
            &&& r.unwrap().output@ == spec_genesis_output(db@, genesis_txn@)
            &&& r.unwrap().wf()
            &&& r.unwrap().waypoint == spec_genesis_waypoint(db@, genesis_txn@)
        },
        !spec_genesis_ok(db@, genesis_txn@) ==> r == Err::<GenesisCommitter, Error>(
            Error::BootstrapMismatch,
        ),
{
    let genesis_version: u64 = tree_state.num_transactions;
    let base_view: LedgerView = db.base_ledger_view();

    let empty_overlay: Vec<Transaction> = Vec::new();
    proof {
        assert(txn_views(empty_overlay@) =~= Seq::<TxnView>::empty());
    }
    let epoch: u64 = if genesis_version == 0 {
        GENESIS_EPOCH
    } else {
        match get_state_epoch(db, &empty_overlay) {
            Ok(e) => e,
            Err(e) => {
                return Err(e);
            },
        }
    };

    let mut txns: Vec<Transaction> = Vec::new();
    txns.push(genesis_txn.clone());
    proof {
        assert(txn_views(txns@) =~= seq![genesis_txn@]);
        crate::chunk::lemma_kept_len(txn_views(txns@));
    }
    let co = ChunkOutput::by_transaction_execution(txns);
    let (mut chunk, _discarded, _retried) = co.apply_to_ledger(&base_view);
    if chunk.txns.len() == 0 {
        return Err(Error::BootstrapMismatch);
    }

    let timestamp_usecs: u64 = if genesis_version == 0 {
        GENESIS_TIMESTAMP_USECS
    } else {
        if epoch == u64::MAX {
            return Err(Error::BootstrapMismatch);
        }
        let next_epoch: u64 = epoch + 1;
        let state_epoch = match get_state_epoch(db, &chunk.txns) {
            Ok(e) => e,
            Err(e) => {
                return Err(e);
            },
        };
        if state_epoch != next_epoch {
            return Err(Error::BootstrapMismatch);
        }
        match get_state_timestamp(db, &chunk.txns) {
            Ok(t) => t,
            Err(e) => {
                return Err(e);
            },
        }
    };
    if chunk.next_epoch_state.is_none() {
        return Err(Error::BootstrapMismatch);
    }

    let ledger_info = LedgerInfo {
        epoch,
        round: GENESIS_ROUND,
        consensus_block_id: genesis_block_id(),
        executed_state_id: chunk.result_view.txn_accumulator.root_hash,
        version: genesis_version,
        timestamp_usecs,
        next_epoch_state: chunk.next_epoch_state,
        consensus_data_hash: 0,
    };
    chunk.ledger_info = Some(
        LedgerInfoWithSignatures { ledger_info, signatures: Vec::new() },
    );
    proof {
        assert(chunk@.ledger_info == Some(
            LedgerInfoWithSignaturesView { ledger_info, signatures: Seq::empty() },
        ));
    }
    GenesisCommitter::new(chunk)
}

/// Compute the waypoint the genesis transaction commits the persisted
/// ledger to.  Owed exactly when the genesis checks pass.
pub fn generate_waypoint(db: &Db, genesis_txn: &Transaction) -> (r: Result<Waypoint, Error>)
    requires
        db.wf(),
        db@.log.len() < u64::MAX,
    ensures
        spec_genesis_ok(db@, genesis_txn@) ==> r == Ok::<Waypoint, Error>(
            spec_genesis_waypoint(db@, genesis_txn@),
        ),
        !spec_genesis_ok(db@, genesis_txn@) ==> r == Err::<Waypoint, Error>(
            Error::BootstrapMismatch,
        ),
{
    let tree_state = db.get_latest_tree_state();
    match calculate_genesis(db, tree_state, genesis_txn) {
        Ok(committer) => Ok(committer.waypoint()),
        Err(e) => Err(e),
    }
}

/// Execute and persist the genesis transaction when the persisted ledger
/// stands exactly at the waypoint's version and the recomputed waypoint
/// matches; report `false` when the ledger is elsewhere (state sync will
/// catch it up), and refuse a mismatched waypoint.
pub fn maybe_bootstrap(db: &mut Db, genesis_txn: &Transaction, waypoint: Waypoint) -> (r: Result<
    bool,
    Error,
>)
    requires
        old(db).wf(),
        old(db)@.log.len() < u64::MAX,
    ensures
        final(db).wf(),
        old(db)@.log.len() != waypoint.version ==> {
            &&& r == Ok::<bool, Error>(false)
            &&& final(db)@ == old(db)@
        },
        old(db)@.log.len() == waypoint.version && !spec_genesis_ok(old(db)@, genesis_txn@) ==> {
            &&& r == Err::<bool, Error>(Error::BootstrapMismatch)
            &&& final(db)@ == old(db)@
        },
        old(db)@.log.len() == waypoint.version && spec_genesis_ok(old(db)@, genesis_txn@)
            && waypoint != spec_genesis_waypoint(old(db)@, genesis_txn@) ==> {
            &&& r == Err::<bool, Error>(Error::BootstrapMismatch)
            &&& final(db)@ == old(db)@
        },
        old(db)@.log.len() == waypoint.version && spec_genesis_ok(old(db)@, genesis_txn@)
            && waypoint == spec_genesis_waypoint(old(db)@, genesis_txn@) ==> {
            &&& r == Ok::<bool, Error>(true)
            &&& final(db)@.log == old(db)@.log + spec_genesis_output(
                old(db)@,
                genesis_txn@,
            ).txns
            &&& final(db)@.latest_li == spec_genesis_output(old(db)@, genesis_txn@).ledger_info
        },
{
    let tree_state = db.get_latest_tree_state();
    if tree_state.num_transactions != waypoint.version {
        return Ok(false);
    }
    let committer = match calculate_genesis(db, tree_state, genesis_txn) {
        Ok(c) => c,
        Err(e) => {
            return Err(e);
        },
    };
    if waypoint != committer.waypoint() {
        return Err(Error::BootstrapMismatch);
    }
    proof {
        crate::chunk::lemma_kept_len(seq![genesis_txn@]);
        assert(committer.output@.txns.len() >= 1);
        assert(committer.output@.leaves.len() == old(db)@.log.len()
            + committer.output@.txns.len());
    }
    match committer.commit(db) {
        Ok(_) => Ok(true),
        Err(_) => {
            proof {
                assert(false);
            }
            Err(Error::BootstrapMismatch)
        },
    }
}

} // verus!
