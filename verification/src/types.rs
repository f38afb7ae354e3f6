//! Plain data carried across the executor's interfaces.

use crate::hashing::{mix, mix_exec};
use vstd::prelude::*;

verus! {

/// Epoch of a ledger that has never committed a reconfiguration.
pub const GENESIS_EPOCH: u64 = 0;

/// Consensus round recorded in the genesis ledger info.
pub const GENESIS_ROUND: u64 = 0;

/// Timestamp recorded when genesis executes on an empty ledger.
pub const GENESIS_TIMESTAMP_USECS: u64 = 0;

/// State key under which the configuration resource (the on-chain epoch)
/// is stored.
pub const CONFIG_STATE_KEY: u64 = 1;

/// State key under which the on-chain timestamp resource is stored.
pub const TIMESTAMP_STATE_KEY: u64 = 2;

/// A deterministic input to the transaction evaluator, addressed by its
/// content digest.
///
/// The evaluator is an external collaborator; what it would compute for a
/// transaction is carried on the transaction itself: the writes it performs,
/// the gas it burns, whether the evaluator discards it, and whether it emits
/// a reconfiguration event ending the current epoch (`epoch_change` then
/// holds the epoch the event establishes).
#[derive(Debug, PartialEq, Eq)]
pub struct Transaction {
    /// Content digest; leaf of the transaction accumulator.
    pub hash: u64,
    /// Post-image writes `key := value`, applied in order.
    pub writes: Vec<(u64, u64)>,
    /// Gas burnt by the evaluation.
    pub gas_used: u64,
    /// True when the evaluator rejects the transaction: it is excluded from
    /// commit and performs no writes.
    pub discard: bool,
    /// `Some(e)` when the kept transaction emits a reconfiguration event
    /// establishing epoch `e`.
    pub epoch_change: Option<u64>,
}

/// Mathematical image of a [`Transaction`].
pub ghost struct TxnView {
    /// Content digest; leaf of the transaction accumulator.
    pub hash: u64,
    /// Post-image writes `key := value`, applied in order.
    pub writes: Seq<(u64, u64)>,
    /// Gas burnt by the evaluation.
    pub gas_used: u64,
    /// True when the evaluator rejects the transaction.
    pub discard: bool,
    /// Epoch established by the transaction's reconfiguration event, if any.
    pub epoch_change: Option<u64>,
}

impl View for Transaction {
    type V = TxnView;

    open spec fn view(&self) -> TxnView {
        TxnView {
            hash: self.hash,
            writes: self.writes@,
            gas_used: self.gas_used,
            discard: self.discard,
            epoch_change: self.epoch_change,
        }
    }
}

/// Images of a sequence of transactions, element for element.
pub open spec fn txn_views(s: Seq<Transaction>) -> Seq<TxnView> {
    s.map_values(|t: Transaction| t@)
}

/// The image of a pushed sequence is the image with the pushed element's
/// image.
pub proof fn lemma_txn_views_push(s: Seq<Transaction>, t: Transaction)
    ensures
        txn_views(s.push(t)) == txn_views(s).push(t@),
{
    assert(txn_views(s.push(t)) =~= txn_views(s).push(t@));
}

/// The image of a concatenation is the concatenation of the images.
pub proof fn lemma_txn_views_concat(a: Seq<Transaction>, b: Seq<Transaction>)
    ensures
        txn_views(a + b) == txn_views(a) + txn_views(b),
{
    assert(txn_views(a + b) =~= txn_views(a) + txn_views(b));
}

/// Copy of a write set, element for element.
pub fn clone_writes(v: &Vec<(u64, u64)>) -> (r: Vec<(u64, u64)>)
    ensures
        r@ == v@,
{
    let mut r: Vec<(u64, u64)> = Vec::new();
    let mut i: usize = 0;
    while i < v.len()
        invariant
            i <= v.len(),
            r@ == v@.take(i as int),
        decreases v.len() - i,
    {
        r.push(v[i]);
        proof {
            assert(v@.take(i + 1 as int) =~= v@.take(i as int).push(v@[i as int]));
        }
        i = i + 1;
    }
    proof {
        assert(v@.take(v@.len() as int) =~= v@);
    }
    r
}

impl Clone for Transaction {
    /// The copy has the image of the original.
    fn clone(&self) -> (r: Self)
        ensures
            r@ == self@,
    {
        Transaction {
            hash: self.hash,
            writes: clone_writes(&self.writes),
            gas_used: self.gas_used,
            discard: self.discard,
            epoch_change: self.epoch_change,
        }
    }
}

/// Copy of a transaction sequence: the images agree, element for element.
pub fn clone_txns(v: &Vec<Transaction>) -> (r: Vec<Transaction>)
    ensures
        txn_views(r@) == txn_views(v@),
{
    let mut r: Vec<Transaction> = Vec::new();
    let mut i: usize = 0;
    while i < v.len()
        invariant
            i <= v.len(),
            r@.len() == i as int,
            forall|k: int| 0 <= k < i as int ==> r@[k]@ == v@[k]@,
        decreases v.len() - i,
    {
        r.push(v[i].clone());
        i = i + 1;
    }
    proof {
        assert(txn_views(r@) =~= txn_views(v@));
    }
    r
}

/// Outcome of one transaction within an executed block.
#[derive(Clone, Copy, Debug, PartialEq, Eq, Structural)]
pub enum TxnStatus {
    /// Evaluated successfully; part of the committed suffix.
    Kept,
    /// Rejected by the evaluator; excluded from commit.
    Discarded,
    /// Not evaluated: an earlier transaction of the block reconfigured.
    Retried,
}

/// Descriptor of the epoch a reconfiguration establishes.
#[derive(Clone, Copy, Debug, PartialEq, Eq, Structural)]
pub struct EpochState {
    /// The epoch in force after the reconfiguration.
    pub epoch: u64,
}

/// Statement bound by consensus signatures: a ledger tip and the block that
/// produced it.
#[derive(Clone, Copy, Debug, PartialEq, Eq)]
pub struct LedgerInfo {
    /// Epoch in which the block was proposed.
    pub epoch: u64,
    /// Consensus round of the block.
    pub round: u64,
    /// Id of the block this info commits.
    pub consensus_block_id: u64,
    /// Root of the transaction accumulator at `version`.
    pub executed_state_id: u64,
    /// Highest transaction version covered: the ledger holds
    /// `version + 1` transactions.
    pub version: u64,
    /// Block timestamp, in microseconds.
    pub timestamp_usecs: u64,
    /// Present when the committed block ends its epoch.
    pub next_epoch_state: Option<EpochState>,
    /// Digest of the consensus payload.
    pub consensus_data_hash: u64,
}

impl LedgerInfo {
    /// True when committing this info ends the epoch.
    pub open spec fn spec_ends_epoch(self) -> bool {
        self.next_epoch_state is Some
    }

    /// True when committing this info ends the epoch.
    pub fn ends_epoch(&self) -> (r: bool)
        ensures
            r == self.spec_ends_epoch(),
    {
        self.next_epoch_state.is_some()
    }
}

/// A ledger info together with the signatures that quorum put on it.
/// Signatures are opaque to the executor; genesis carries none.
#[derive(Debug, PartialEq, Eq)]
pub struct LedgerInfoWithSignatures {
    /// The signed statement.
    pub ledger_info: LedgerInfo,
    /// Digests of the signatures collected on it.
    pub signatures: Vec<u64>,
}

/// Mathematical image of a [`LedgerInfoWithSignatures`].
pub ghost struct LedgerInfoWithSignaturesView {
    /// The signed statement.
    pub ledger_info: LedgerInfo,
    /// Digests of the signatures collected on it.
    pub signatures: Seq<u64>,
}

impl View for LedgerInfoWithSignatures {
    type V = LedgerInfoWithSignaturesView;

    open spec fn view(&self) -> LedgerInfoWithSignaturesView {
        LedgerInfoWithSignaturesView {
            ledger_info: self.ledger_info,
            signatures: self.signatures@,
        }
    }
}

/// Image of an optional ledger info with signatures.
pub open spec fn opt_li_view(o: Option<LedgerInfoWithSignatures>) -> Option<
    LedgerInfoWithSignaturesView,
> {
    match o {
        Some(l) => Some(l@),
        None => None,
    }
}

/// Copy of a digest sequence, element for element.
pub fn clone_digests(v: &Vec<u64>) -> (r: Vec<u64>)
    ensures
        r@ == v@,
{
    let mut r: Vec<u64> = Vec::new();
    let mut i: usize = 0;
    while i < v.len()
        invariant
            i <= v.len(),
            r@ == v@.take(i as int),
        decreases v.len() - i,
    {
        r.push(v[i]);
        proof {
            assert(v@.take(i + 1 as int) =~= v@.take(i as int).push(v@[i as int]));
        }
        i = i + 1;
    }
    proof {
        assert(v@.take(v@.len() as int) =~= v@);
    }
    r
}

impl Clone for LedgerInfoWithSignatures {
    /// The copy has the image of the original.
    fn clone(&self) -> (r: Self)
        ensures
            r@ == self@,
    {
        LedgerInfoWithSignatures {
            ledger_info: self.ledger_info,
            signatures: clone_digests(&self.signatures),
        }
    }
}

/// Digest of a ledger info, binding every field a waypoint commits to.
pub open spec fn ledger_info_digest(li: LedgerInfo) -> u64 {
    let epoch_part = match li.next_epoch_state {
        Some(s) => mix(1, s.epoch),
        None => mix(0, 0),
    };
    mix(
        mix(
            mix(
                mix(
                    mix(mix(mix(li.epoch, li.round), li.consensus_block_id), li.executed_state_id),
                    li.version,
                ),
                li.timestamp_usecs,
            ),
            li.consensus_data_hash,
        ),
        epoch_part,
    )
}

/// Executable counterpart of [`ledger_info_digest`].
pub fn ledger_info_digest_exec(li: &LedgerInfo) -> (r: u64)
    ensures
        r == ledger_info_digest(*li),
{
    let epoch_part: u64 = match li.next_epoch_state {
        Some(s) => mix_exec(1, s.epoch),
        None => mix_exec(0, 0),
    };
    mix_exec(
        mix_exec(
            mix_exec(
                mix_exec(
                    mix_exec(
                        mix_exec(mix_exec(li.epoch, li.round), li.consensus_block_id),
                        li.executed_state_id,
                    ),
                    li.version,
                ),
                li.timestamp_usecs,
            ),
            li.consensus_data_hash,
        ),
        epoch_part,
    )
}

/// Compact commitment `(version, digest)` to an epoch-boundary ledger info,
/// used to anchor bootstrap.
#[derive(Clone, Copy, Debug, PartialEq, Eq, Structural)]
pub struct Waypoint {
    /// Version of the committed ledger info.
    pub version: u64,
    /// Digest of the committed ledger info.
    pub value: u64,
}

impl Waypoint {
    /// The waypoint committing to `li`, owed exactly when `li` ends its
    /// epoch.
    pub fn new_epoch_boundary(li: &LedgerInfo) -> (r: Result<Waypoint, Error>)
        ensures
            li.spec_ends_epoch() ==> r == Ok::<Waypoint, Error>(
                Waypoint { version: li.version, value: ledger_info_digest(*li) },
            ),
            !li.spec_ends_epoch() ==> r == Err::<Waypoint, Error>(Error::BootstrapMismatch),
    {
        if li.ends_epoch() {
            Ok(Waypoint { version: li.version, value: ledger_info_digest_exec(li) })
        } else {
            Err(Error::BootstrapMismatch)
        }
    }
}

/// Snapshot of the persisted ledger, as storage reports it.
#[derive(Clone, Copy, Debug, PartialEq, Eq, Structural)]
pub struct TreeState {
    /// Number of committed transactions.
    pub num_transactions: u64,
    /// Root of the transaction accumulator over them.
    pub root_hash: u64,
    /// Root of the persisted state tree.
    pub state_root: u64,
}

/// What the executor hands back to consensus for one executed block.
#[derive(Debug, PartialEq, Eq)]
pub struct StateComputeResult {
    /// Accumulator root after the block.
    pub root_hash: u64,
    /// Number of accumulator leaves after the block.
    pub num_leaves: u64,
    /// Number of accumulator leaves before the block.
    pub parent_num_leaves: u64,
    /// Outcome of each input transaction, in input order.
    pub txn_statuses: Vec<TxnStatus>,
    /// Present when the block ends its epoch.
    pub next_epoch_state: Option<EpochState>,
}

/// Mathematical image of a [`StateComputeResult`].
pub ghost struct StateComputeResultView {
    /// Accumulator root after the block.
    pub root_hash: u64,
    /// Number of accumulator leaves after the block.
    pub num_leaves: u64,
    /// Number of accumulator leaves before the block.
    pub parent_num_leaves: u64,
    /// Outcome of each input transaction, in input order.
    pub txn_statuses: Seq<TxnStatus>,
    /// Present when the block ends its epoch.
    pub next_epoch_state: Option<EpochState>,
}

impl View for StateComputeResult {
    type V = StateComputeResultView;

    open spec fn view(&self) -> StateComputeResultView {
        StateComputeResultView {
            root_hash: self.root_hash,
            num_leaves: self.num_leaves,
            parent_num_leaves: self.parent_num_leaves,
            txn_statuses: self.txn_statuses@,
            next_epoch_state: self.next_epoch_state,
        }
    }
}

/// Failures surfaced by the execution core.
#[derive(Clone, Copy, Debug, PartialEq, Eq)]
pub enum Error {
    /// The named block is missing from the speculative tree.
    BlockNotFound(u64),
    /// The flattened commit suffix does not reach the target version.
    BadNumTxnsToCommit {
        /// First version the suffix would occupy.
        first_version: u64,
        /// Number of transactions in the suffix.
        to_commit: usize,
        /// Version the ledger info commits to.
        target_version: u64,
    },
    /// The transaction evaluator failed in a way that must not be trusted.
    /// The deterministic evaluator modelled here never fails; a node wiring
    /// an external evaluator surfaces its failures under this kind.
    VmError,
    /// The persistent backend refused the write: the versions to append at
    /// do not continue the persisted log.
    StorageError,
    /// Bootstrap found a ledger that does not match the expected genesis:
    /// wrong waypoint, no reconfiguration, or no epoch bump.
    BootstrapMismatch,
}

} // verus!
