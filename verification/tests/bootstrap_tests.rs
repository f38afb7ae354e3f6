use executor::block_executor::BlockExecutor;
use executor::db_bootstrapper::{
    calculate_genesis, generate_waypoint, genesis_block_id, maybe_bootstrap,
};
use executor::storage::Db;
use executor::types::{
    Error, Transaction, CONFIG_STATE_KEY, TIMESTAMP_STATE_KEY,
};

fn genesis_txn(epoch: u64, timestamp: u64) -> Transaction {
    Transaction {
        hash: 900 + epoch,
        writes: vec![(CONFIG_STATE_KEY, epoch), (TIMESTAMP_STATE_KEY, timestamp)],
        gas_used: 0,
        discard: false,
        epoch_change: Some(epoch),
    }
}

fn plain_txn(hash: u64) -> Transaction {
    Transaction { hash, writes: vec![], gas_used: 1, discard: false, epoch_change: None }
}

#[test]
fn genesis_on_empty_db() {
    let db = Db::new();
    let tx = genesis_txn(1, 777);
    let waypoint = generate_waypoint(&db, &tx).unwrap();
    assert_eq!(waypoint.version, 0);
    let mut db = db;
    assert!(maybe_bootstrap(&mut db, &tx, waypoint).unwrap());
    assert_eq!(db.log.len(), 1);
    let li = db.get_latest_ledger_info().unwrap();
    assert_eq!(li.ledger_info.version, 0);
    assert_eq!(li.ledger_info.consensus_block_id, genesis_block_id());
    assert!(li.signatures.is_empty());
    let exec = BlockExecutor::new(db);
    assert_eq!(exec.committed_block_id(), genesis_block_id());
}

#[test]
fn waypoint_round_trip_skips_other_versions() {
    let db = Db::new();
    let tx = genesis_txn(1, 777);
    let waypoint = generate_waypoint(&db, &tx).unwrap();
    let mut other = Db::new();
    // a ledger at another version is skipped, not bootstrapped
    other
        .save_transactions(&vec![plain_txn(1)], 0, None)
        .unwrap();
    let wrong_version = waypoint;
    assert!(!maybe_bootstrap(&mut other, &tx, wrong_version).unwrap());
    assert_eq!(other.log.len(), 1);
}

#[test]
fn bootstrap_refuses_wrong_waypoint() {
    let db = Db::new();
    let tx = genesis_txn(1, 777);
    let mut waypoint = generate_waypoint(&db, &tx).unwrap();
    waypoint.value = waypoint.value.wrapping_add(1);
    let mut db = db;
    assert_eq!(
        maybe_bootstrap(&mut db, &tx, waypoint),
        Err(Error::BootstrapMismatch)
    );
    assert_eq!(db.log.len(), 0);
}

#[test]
fn genesis_must_reconfigure() {
    let db = Db::new();
    let mut tx = genesis_txn(1, 777);
    tx.epoch_change = None;
    assert_eq!(generate_waypoint(&db, &tx), Err(Error::BootstrapMismatch));
}

#[test]
fn genesis_must_commit() {
    let db = Db::new();
    let mut tx = genesis_txn(1, 777);
    tx.discard = true;
    assert_eq!(generate_waypoint(&db, &tx), Err(Error::BootstrapMismatch));
}

#[test]
fn regenesis_bumps_epoch_on_chain() {
    // bootstrap a first ledger, then re-anchor it with a second genesis
    let mut db = Db::new();
    let tx1 = genesis_txn(1, 777);
    let wp1 = generate_waypoint(&db, &tx1).unwrap();
    assert!(maybe_bootstrap(&mut db, &tx1, wp1).unwrap());
    assert_eq!(db.log.len(), 1);

    let tx2 = genesis_txn(2, 888);
    let wp2 = generate_waypoint(&db, &tx2).unwrap();
    assert_eq!(wp2.version, 1);
    assert!(maybe_bootstrap(&mut db, &tx2, wp2).unwrap());
    assert_eq!(db.log.len(), 2);
    let li = db.get_latest_ledger_info().unwrap();
    assert_eq!(li.ledger_info.version, 1);
    assert_eq!(li.ledger_info.epoch, 1);
    assert_eq!(li.ledger_info.timestamp_usecs, 888);
}

#[test]
fn regenesis_refuses_epoch_skip() {
    let mut db = Db::new();
    let tx1 = genesis_txn(1, 777);
    let wp1 = generate_waypoint(&db, &tx1).unwrap();
    assert!(maybe_bootstrap(&mut db, &tx1, wp1).unwrap());
    // jumping from epoch 1 to epoch 3 is refused
    let tx3 = genesis_txn(3, 888);
    assert_eq!(generate_waypoint(&db, &tx3), Err(Error::BootstrapMismatch));
}

#[test]
fn calculate_genesis_attaches_ledger_info() {
    let db = Db::new();
    let tx = genesis_txn(1, 777);
    let committer = calculate_genesis(&db, db.get_latest_tree_state(), &tx).unwrap();
    let li = committer.output.ledger_info.as_ref().unwrap();
    assert_eq!(li.ledger_info.version, 0);
    assert_eq!(li.ledger_info.epoch, 0);
    assert_eq!(committer.waypoint().version, 0);
    assert_eq!(committer.output.txns.len(), 1);
}

#[test]
fn empty_ledger_uses_genesis_timestamp() {
    let db = Db::new();
    let tx = genesis_txn(1, 777);
    let committer = calculate_genesis(&db, db.get_latest_tree_state(), &tx).unwrap();
    let li = committer.output.ledger_info.as_ref().unwrap();
    assert_eq!(
        li.ledger_info.timestamp_usecs,
        executor::types::GENESIS_TIMESTAMP_USECS
    );
}
