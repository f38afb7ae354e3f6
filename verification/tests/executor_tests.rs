use executor::block_executor::BlockExecutor;
use executor::chunk::ChunkOutput;
use executor::hashing::{EMPTY_ROOT, MIX_MULTIPLIER, MIX_OFFSET};
use executor::storage::Db;
use executor::types::{EpochState, Error, Transaction, TxnStatus};

fn plain_txn(hash: u64) -> Transaction {
    Transaction { hash, writes: vec![(100 + hash, hash)], gas_used: 1, discard: false, epoch_change: None }
}

fn plain_txns(hashes: &[u64]) -> Vec<Transaction> {
    hashes.iter().map(|h| plain_txn(*h)).collect()
}

fn reconfig_txn(hash: u64, epoch: u64) -> Transaction {
    Transaction {
        hash,
        writes: vec![(executor::types::CONFIG_STATE_KEY, epoch)],
        gas_used: 1,
        discard: false,
        epoch_change: Some(epoch),
    }
}

fn ledger_info(version: u64, block_id: u64) -> executor::types::LedgerInfoWithSignatures {
    executor::types::LedgerInfoWithSignatures {
        ledger_info: executor::types::LedgerInfo {
            epoch: 0,
            round: 1,
            consensus_block_id: block_id,
            executed_state_id: 0,
            version,
            timestamp_usecs: 0,
            next_epoch_state: None,
            consensus_data_hash: 0,
        },
        signatures: vec![],
    }
}

fn mix_reference(a: u64, b: u64) -> u64 {
    ((a as u128 * MIX_MULTIPLIER as u128 + b as u128 + MIX_OFFSET as u128)
        % (1u128 << 64)) as u64
}

#[test]
fn two_block_linear_chain() {
    let mut exec = BlockExecutor::new(Db::new());
    let b1: u64 = 11;
    let b2: u64 = 12;
    let r1 = exec.execute_block((b1, plain_txns(&[1, 2, 3, 4, 5])), 0).unwrap();
    assert_eq!(r1.parent_num_leaves, 0);
    assert_eq!(r1.num_leaves, 5);
    let r2 = exec.execute_block((b2, plain_txns(&[6, 7, 8])), b1).unwrap();
    assert_eq!(r2.parent_num_leaves, 5);
    assert_eq!(r2.num_leaves, 8);
    exec.commit_blocks(vec![b1, b2], ledger_info(7, b2)).unwrap();
    assert_eq!(exec.db.log.len(), 8);
    assert_eq!(exec.committed_block_id(), b2);
    // the pre-existing root is gone from the tree
    match exec.block_tree.get_blocks(&vec![0u64]) {
        Err(Error::BlockNotFound(id)) => assert_eq!(id, 0),
        _ => panic!("old root should be gone"),
    }
}

#[test]
fn speculative_fork_then_prune() {
    let mut exec = BlockExecutor::new(Db::new());
    let b1a: u64 = 21;
    let b1b: u64 = 22;
    exec.execute_block((b1a, plain_txns(&[1, 2])), 0).unwrap();
    exec.execute_block((b1b, plain_txns(&[3, 4])), 0).unwrap();
    exec.commit_blocks(vec![b1a], ledger_info(1, b1a)).unwrap();
    assert_eq!(exec.committed_block_id(), b1a);
    match exec.block_tree.get_blocks(&vec![b1b]) {
        Err(Error::BlockNotFound(id)) => assert_eq!(id, b1b),
        _ => panic!("pruned fork should be gone"),
    }
}

#[test]
fn bad_num_txns_to_commit() {
    let mut exec = BlockExecutor::new(Db::new());
    let b1: u64 = 31;
    exec.execute_block((b1, plain_txns(&[1, 2, 3, 4, 5])), 0).unwrap();
    let r = exec.commit_blocks(vec![b1], ledger_info(10, b1));
    assert_eq!(
        r,
        Err(Error::BadNumTxnsToCommit { first_version: 0, to_commit: 5, target_version: 10 })
    );
    // no storage writes happened
    assert_eq!(exec.db.log.len(), 0);
    assert!(exec.db.get_latest_ledger_info().is_none());
}

#[test]
fn reconfig_then_suffix() {
    let mut exec = BlockExecutor::new(Db::new());
    let b1: u64 = 41;
    let b2: u64 = 42;
    let mut txns = plain_txns(&[1, 2]);
    txns.push(reconfig_txn(3, 1));
    let r1 = exec.execute_block((b1, txns), 0).unwrap();
    assert_eq!(r1.next_epoch_state, Some(EpochState { epoch: 1 }));
    let r2 = exec.execute_block((b2, plain_txns(&[4, 5])), b1).unwrap();
    // the child commits nothing and inherits the parent's epoch state
    assert_eq!(r2.num_leaves, r1.num_leaves);
    assert_eq!(r2.root_hash, r1.root_hash);
    assert!(r2.txn_statuses.is_empty());
    assert_eq!(r2.next_epoch_state, Some(EpochState { epoch: 1 }));
    let stored = exec.block_tree.get_blocks(&vec![b2]).unwrap();
    assert!(stored[0].output.txns.is_empty());
    assert_eq!(stored[0].output.next_epoch_state, Some(EpochState { epoch: 1 }));
}

#[test]
fn retry_execute_is_idempotent() {
    let mut exec = BlockExecutor::new(Db::new());
    let b1: u64 = 51;
    let r1 = exec.execute_block((b1, plain_txns(&[1, 2, 3])), 0).unwrap();
    let nodes_after_first = exec.block_tree.blocks.len();
    let r2 = exec.execute_block((b1, plain_txns(&[1, 2, 3])), 0).unwrap();
    assert_eq!(r1, r2);
    assert_eq!(exec.block_tree.blocks.len(), nodes_after_first);
    assert_eq!(exec.block_tree.get_blocks(&vec![b1]).unwrap().len(), 1);
}

#[test]
fn execute_is_deterministic_across_executors() {
    let mut exec1 = BlockExecutor::new(Db::new());
    let mut exec2 = BlockExecutor::new(Db::new());
    let r1 = exec1.execute_block((61, plain_txns(&[1, 2, 3])), 0).unwrap();
    let r2 = exec2.execute_block((61, plain_txns(&[1, 2, 3])), 0).unwrap();
    assert_eq!(r1, r2);
}

#[test]
fn commit_is_idempotent() {
    let mut exec = BlockExecutor::new(Db::new());
    let b1: u64 = 71;
    exec.execute_block((b1, plain_txns(&[1, 2])), 0).unwrap();
    exec.commit_blocks(vec![b1], ledger_info(1, b1)).unwrap();
    let len_after_first = exec.db.log.len();
    // the same ledger info again is a no-op success, whatever ids come with it
    exec.commit_blocks(vec![b1], ledger_info(1, b1)).unwrap();
    exec.commit_blocks(vec![], ledger_info(1, b1)).unwrap();
    assert_eq!(exec.db.log.len(), len_after_first);
}

#[test]
fn commit_versions_grow_strictly() {
    let mut exec = BlockExecutor::new(Db::new());
    let b1: u64 = 81;
    let b2: u64 = 82;
    exec.execute_block((b1, plain_txns(&[1, 2])), 0).unwrap();
    assert_eq!(exec.db.log.len(), 0);
    exec.commit_blocks(vec![b1], ledger_info(1, b1)).unwrap();
    assert_eq!(exec.db.log.len(), 2);
    exec.execute_block((b2, plain_txns(&[3])), b1).unwrap();
    exec.commit_blocks(vec![b2], ledger_info(2, b2)).unwrap();
    assert_eq!(exec.db.log.len(), 3);
    let li = exec.db.get_latest_ledger_info().unwrap();
    assert_eq!(li.ledger_info.version, 2);
}

#[test]
fn accumulator_root_matches_fold() {
    let mut exec = BlockExecutor::new(Db::new());
    let r = exec.execute_block((91, plain_txns(&[10, 20])), 0).unwrap();
    let expected = mix_reference(mix_reference(EMPTY_ROOT, 10), 20);
    assert_eq!(r.root_hash, expected);
}

#[test]
fn accumulator_continuity_across_blocks() {
    let mut exec = BlockExecutor::new(Db::new());
    let r1 = exec.execute_block((101, plain_txns(&[10])), 0).unwrap();
    let r2 = exec.execute_block((102, plain_txns(&[20, 30])), 101).unwrap();
    // the child root extends the parent root by exactly the new hashes
    let expected = mix_reference(mix_reference(r1.root_hash, 20), 30);
    assert_eq!(r2.root_hash, expected);
}

#[test]
fn execute_unknown_parent_fails() {
    let mut exec = BlockExecutor::new(Db::new());
    let r = exec.execute_block((111, plain_txns(&[1])), 999);
    assert_eq!(r, Err(Error::BlockNotFound(999)));
    assert_eq!(exec.block_tree.blocks.len(), 1);
}

#[test]
fn commit_unknown_block_fails() {
    let mut exec = BlockExecutor::new(Db::new());
    exec.execute_block((121, plain_txns(&[1, 2])), 0).unwrap();
    let r = exec.commit_blocks(vec![777], ledger_info(1, 777));
    assert_eq!(r, Err(Error::BlockNotFound(777)));
    assert_eq!(exec.db.log.len(), 0);
}

#[test]
fn chunk_classification_statuses() {
    let txns = vec![
        plain_txn(1),
        Transaction { hash: 2, writes: vec![], gas_used: 0, discard: true, epoch_change: None },
        plain_txn(3),
    ];
    let co = ChunkOutput::by_transaction_execution(txns);
    assert_eq!(
        co.statuses,
        vec![TxnStatus::Kept, TxnStatus::Discarded, TxnStatus::Kept]
    );
    assert_eq!(co.kept.len(), 2);
    assert_eq!(co.discarded.len(), 1);
    assert!(co.retried.is_empty());
    assert!(co.next_epoch_state.is_none());
}

#[test]
fn chunk_retries_after_reconfiguration() {
    let txns = vec![plain_txn(1), reconfig_txn(2, 9), plain_txn(3), plain_txn(4)];
    let co = ChunkOutput::by_transaction_execution(txns);
    assert_eq!(
        co.statuses,
        vec![TxnStatus::Kept, TxnStatus::Kept, TxnStatus::Retried, TxnStatus::Retried]
    );
    assert_eq!(co.kept.len(), 2);
    assert_eq!(co.retried.len(), 2);
    assert_eq!(co.next_epoch_state, Some(EpochState { epoch: 9 }));
    assert_eq!(co.retried[0].hash, 3);
    assert_eq!(co.retried[1].hash, 4);
}

#[test]
fn reset_rebuilds_root_from_storage() {
    let mut exec = BlockExecutor::new(Db::new());
    let b1: u64 = 131;
    let b2: u64 = 132;
    exec.execute_block((b1, plain_txns(&[1])), 0).unwrap();
    exec.commit_blocks(vec![b1], ledger_info(0, b1)).unwrap();
    exec.execute_block((b2, plain_txns(&[2])), b1).unwrap();
    assert_eq!(exec.block_tree.blocks.len(), 2);
    exec.reset().unwrap();
    assert_eq!(exec.block_tree.blocks.len(), 1);
    assert_eq!(exec.committed_block_id(), b1);
}

#[test]
fn storage_refuses_version_skew() {
    let mut db = Db::new();
    let r = db.save_transactions(&plain_txns(&[1]), 5, None);
    assert_eq!(r, Err(Error::StorageError));
    assert_eq!(db.log.len(), 0);
}

#[test]
fn state_lookup_sees_latest_write() {
    let mut exec = BlockExecutor::new(Db::new());
    let b1: u64 = 141;
    let txns = vec![
        Transaction { hash: 1, writes: vec![(5, 50)], gas_used: 0, discard: false, epoch_change: None },
        Transaction { hash: 2, writes: vec![(5, 60), (6, 70)], gas_used: 0, discard: false, epoch_change: None },
    ];
    exec.execute_block((b1, txns), 0).unwrap();
    exec.commit_blocks(vec![b1], ledger_info(1, b1)).unwrap();
    assert_eq!(exec.db.state_view_at_version(None, 5), Some(60));
    assert_eq!(exec.db.state_view_at_version(None, 6), Some(70));
    assert_eq!(exec.db.state_view_at_version(None, 7), None);
    assert_eq!(exec.db.state_view_at_version(Some(0), 5), Some(50));
    assert_eq!(exec.db.fetch_synced_version(), Some(1));
}

#[test]
fn layered_state_view_walks_ancestors() {
    let mut exec = BlockExecutor::new(Db::new());
    let b1: u64 = 151;
    let b2: u64 = 152;
    let t1 = Transaction { hash: 1, writes: vec![(5, 50)], gas_used: 0, discard: false, epoch_change: None };
    let t2 = Transaction { hash: 2, writes: vec![(6, 60)], gas_used: 0, discard: false, epoch_change: None };
    exec.execute_block((b1, vec![t1]), 0).unwrap();
    exec.execute_block((b2, vec![t2]), b1).unwrap();
    // nothing persisted yet: the speculative views still see the writes
    assert_eq!(exec.db.log.len(), 0);
    assert_eq!(exec.state_value_at_block(b2, 6).unwrap(), Some(60));
    assert_eq!(exec.state_value_at_block(b2, 5).unwrap(), Some(50));
    assert_eq!(exec.state_value_at_block(b1, 6).unwrap(), None);
    assert_eq!(exec.state_value_at_block(b1, 5).unwrap(), Some(50));
    assert_eq!(
        exec.state_value_at_block(777, 5),
        Err(Error::BlockNotFound(777))
    );
}

#[test]
fn descendants_survive_incremental_commit() {
    let mut exec = BlockExecutor::new(Db::new());
    let b1: u64 = 161;
    let b2: u64 = 162;
    exec.execute_block((b1, plain_txns(&[1, 2])), 0).unwrap();
    exec.execute_block((b2, plain_txns(&[3])), b1).unwrap();
    // committing the parent keeps the already-executed child speculative
    exec.commit_blocks(vec![b1], ledger_info(1, b1)).unwrap();
    assert_eq!(exec.committed_block_id(), b1);
    assert_eq!(exec.block_tree.get_blocks(&vec![b2]).unwrap().len(), 1);
    // the child can then be committed without re-execution
    exec.commit_blocks(vec![b2], ledger_info(2, b2)).unwrap();
    assert_eq!(exec.committed_block_id(), b2);
    assert_eq!(exec.db.log.len(), 3);
}

#[test]
fn accumulator_append_folds_hashes() {
    let mut acc = executor::accumulator::Accumulator::new_empty();
    assert_eq!(acc.num_leaves, 0);
    assert_eq!(acc.root_hash, EMPTY_ROOT);
    acc.append(&vec![10, 20]);
    assert_eq!(acc.num_leaves, 2);
    assert_eq!(acc.version(), 1);
    assert_eq!(acc.root_hash, mix_reference(mix_reference(EMPTY_ROOT, 10), 20));
    acc.append(&vec![30]);
    assert_eq!(acc.num_leaves, 3);
    assert_eq!(acc.root_hash, mix_reference(mix_reference(mix_reference(EMPTY_ROOT, 10), 20), 30));
}
