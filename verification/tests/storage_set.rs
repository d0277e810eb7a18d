use dozer_runtime::keys::LmdbKey;
use dozer_runtime::set::LmdbSet;
use dozer_runtime::storage::{Environment, ReadTransaction, StorageError};

#[test]
fn test_lmdb_set() {
    let mut env = Environment::new();
    let set = LmdbSet::<u32>::new(&mut env, Some("test"), true).unwrap();

    let mut txn = env.begin_rw_txn();

    assert_eq!(set.count(&txn).unwrap(), 0);

    set.insert(&mut txn, &1).unwrap();

    assert_eq!(set.count(&txn).unwrap(), 1);

    assert!(set.contains(&txn, &1).unwrap());
    assert!(!set.contains(&txn, &2).unwrap());

    assert!(!set.remove(&mut txn, &2).unwrap());
    assert!(set.remove(&mut txn, &1).unwrap());
    assert_eq!(set.count(&txn).unwrap(), 0);

    set.extend(&mut txn, &vec![5, 4, 3]).unwrap();
    assert_eq!(set.iter(&txn).unwrap(), vec![3, 4, 5]);

    set.clear(&mut txn).unwrap();
    assert_eq!(set.iter(&txn).unwrap(), Vec::<u32>::new());
}

#[test]
fn set_insert_then_contains() {
    let mut env = Environment::new();
    let set = LmdbSet::<u64>::new(&mut env, None, true).unwrap();
    let mut txn = env.begin_rw_txn();
    assert!(set.insert(&mut txn, &7).unwrap());
    assert!(set.contains(&txn, &7).unwrap());
    assert!(!set.insert(&mut txn, &7).unwrap());
    assert_eq!(set.count(&txn).unwrap(), 1);
    assert!(set.remove(&mut txn, &7).unwrap());
    assert!(!set.contains(&txn, &7).unwrap());
}

#[test]
fn set_extend_present_keys_leaves_count() {
    let mut env = Environment::new();
    let set = LmdbSet::<u32>::new(&mut env, Some("s"), true).unwrap();
    let mut txn = env.begin_rw_txn();
    set.extend(&mut txn, &vec![1, 2]).unwrap();
    assert_eq!(set.count(&txn).unwrap(), 2);
    set.extend(&mut txn, &vec![1, 2]).unwrap();
    assert_eq!(set.count(&txn).unwrap(), 2);
    set.extend(&mut txn, &vec![2, 9]).unwrap();
    assert_eq!(set.count(&txn).unwrap(), 3);
}

#[test]
fn set_ordered_iteration() {
    let mut env = Environment::new();
    let set = LmdbSet::<u32>::new(&mut env, Some("ordered"), true).unwrap();
    let mut txn = env.begin_rw_txn();
    set.insert(&mut txn, &5).unwrap();
    set.insert(&mut txn, &4).unwrap();
    set.insert(&mut txn, &3).unwrap();
    assert_eq!(set.iter(&txn).unwrap(), vec![3, 4, 5]);
    // big-endian width keeps numeric order across byte boundaries
    set.insert(&mut txn, &256).unwrap();
    set.insert(&mut txn, &255).unwrap();
    assert_eq!(set.iter(&txn).unwrap(), vec![3, 4, 5, 255, 256]);
}

#[test]
fn set_clear_empties_everything() {
    let mut env = Environment::new();
    let set = LmdbSet::<u64>::new(&mut env, Some("c"), true).unwrap();
    let mut txn = env.begin_rw_txn();
    set.extend(&mut txn, &vec![10, 20, 30, 40]).unwrap();
    assert_eq!(set.count(&txn).unwrap(), 4);
    set.clear(&mut txn).unwrap();
    assert_eq!(set.count(&txn).unwrap(), 0);
    assert_eq!(set.iter(&txn).unwrap(), Vec::<u64>::new());
    assert!(!set.contains(&txn, &10).unwrap());
}

#[test]
fn key_encoding_round_trip() {
    let k: u32 = 0x0102_0304;
    let bytes = k.encode();
    assert_eq!(bytes, vec![1, 2, 3, 4]);
    assert_eq!(u32::decode(&bytes), Some(k));
    assert_eq!(u32::decode(&vec![1, 2, 3]), None);

    let big: u64 = 0x0102_0304_0506_0708;
    let bytes = big.encode();
    assert_eq!(bytes, vec![1, 2, 3, 4, 5, 6, 7, 8]);
    assert_eq!(u64::decode(&bytes), Some(big));
}

#[test]
fn open_or_create_not_found() {
    let mut env = Environment::new();
    let missing = LmdbSet::<u32>::new(&mut env, Some("missing"), false);
    assert_eq!(missing.err(), Some(StorageError::NotFound));
    let created = LmdbSet::<u32>::new(&mut env, Some("missing"), true);
    assert!(created.is_ok());
    // a second open finds the same database
    let reopened = LmdbSet::<u32>::new(&mut env, Some("missing"), false).unwrap();
    assert_eq!(reopened.db, created.unwrap().db);
}

#[test]
fn snapshot_reads_are_isolated() {
    let mut env = Environment::new();
    let set = LmdbSet::<u32>::new(&mut env, Some("snap"), true).unwrap();

    let mut txn = env.begin_rw_txn();
    set.insert(&mut txn, &1).unwrap();
    env.commit(txn);

    let snapshot = env.begin_ro_txn();
    assert_eq!(set.count(&snapshot).unwrap(), 1);

    let mut txn = env.begin_rw_txn();
    set.insert(&mut txn, &2).unwrap();
    // the open snapshot still sees the state as of its start
    assert_eq!(set.count(&snapshot).unwrap(), 1);
    env.commit(txn);
    // it still does after the writer committed
    assert_eq!(set.count(&snapshot).unwrap(), 1);
    // a snapshot taken now sees the committed mutation
    let fresh = env.begin_ro_txn();
    assert_eq!(set.count(&fresh).unwrap(), 2);
}

#[test]
fn single_writer_discipline() {
    let mut env = Environment::new();
    let set = LmdbSet::<u32>::new(&mut env, Some("w"), true).unwrap();
    assert!(env.can_begin_write());
    let mut txn = env.begin_rw_txn();
    assert!(!env.can_begin_write());
    set.insert(&mut txn, &1).unwrap();
    env.abort(txn);
    assert!(env.can_begin_write());
    // the aborted mutation never became visible
    let ro = env.begin_ro_txn();
    assert_eq!(set.count(&ro).unwrap(), 0);
}

#[test]
fn ro_transaction_reads_keys_in_byte_order() {
    let mut env = Environment::new();
    let set = LmdbSet::<u64>::new(&mut env, Some("ro"), true).unwrap();
    let mut txn = env.begin_rw_txn();
    set.extend(&mut txn, &vec![300, 2, 100_000]).unwrap();
    env.commit(txn);
    let ro = env.begin_ro_txn();
    assert_eq!(set.iter(&ro).unwrap(), vec![2, 300, 100_000]);
    assert_eq!(ro.db_count(set.db), 3);
}
