use dozer_runtime::checkpoint::{commit_boundary, CheckpointStore};
use dozer_runtime::set::LmdbSet;
use dozer_runtime::storage::{Environment, RwTransaction, StorageError};

#[test]
fn commit_then_resume_continues_after_checkpoint() {
    let mut env = Environment::new();
    let store = CheckpointStore::new(&mut env, Some("checkpoints"), true).unwrap();

    // state mutation and checkpoint written in the same transaction
    let mut txn = env.begin_rw_txn();
    store.write_checkpoint(&mut txn, 7, 41, 9);
    env.commit(txn);

    let ro = env.begin_ro_txn();
    assert_eq!(store.read_checkpoint(&ro, 7).unwrap(), Some((41, 9)));
    assert_eq!(store.resume_sequence(&ro, 7).unwrap(), 42);
    // a source that never checkpointed starts at the very beginning
    assert_eq!(store.read_checkpoint(&ro, 8).unwrap(), None);
    assert_eq!(store.resume_sequence(&ro, 8).unwrap(), 0);
}

#[test]
fn crash_before_commit_loses_nothing_durable() {
    let mut env = Environment::new();
    let store = CheckpointStore::new(&mut env, Some("checkpoints"), true).unwrap();

    let mut txn = env.begin_rw_txn();
    store.write_checkpoint(&mut txn, 7, 10, 1);
    env.commit(txn);

    // a later transaction is abandoned — the crash before its commit
    let mut txn = env.begin_rw_txn();
    store.write_checkpoint(&mut txn, 7, 20, 2);
    env.abort(txn);

    let ro = env.begin_ro_txn();
    assert_eq!(store.read_checkpoint(&ro, 7).unwrap(), Some((10, 1)));
    assert_eq!(store.resume_sequence(&ro, 7).unwrap(), 11);
}

#[test]
fn checkpoint_overwrites_monotonically() {
    let mut env = Environment::new();
    let store = CheckpointStore::new(&mut env, Some("checkpoints"), true).unwrap();
    let mut txn = env.begin_rw_txn();
    store.write_checkpoint(&mut txn, 1, 5, 100);
    store.write_checkpoint(&mut txn, 1, 6, 101);
    store.write_checkpoint(&mut txn, 2, 9, 101);
    env.commit(txn);
    let ro = env.begin_ro_txn();
    assert_eq!(store.read_checkpoint(&ro, 1).unwrap(), Some((6, 101)));
    assert_eq!(store.read_checkpoint(&ro, 2).unwrap(), Some((9, 101)));
}

#[test]
fn events_at_or_below_checkpoint_are_not_reemitted() {
    assert!(!CheckpointStore::should_emit(Some((41, 9)), 40));
    assert!(!CheckpointStore::should_emit(Some((41, 9)), 41));
    assert!(CheckpointStore::should_emit(Some((41, 9)), 42));
    assert!(CheckpointStore::should_emit(None, 0));
}

#[test]
fn commit_boundary_persists_state_and_checkpoint_together() {
    let mut env = Environment::new();
    let dedup = LmdbSet::<u64>::new(&mut env, Some("processed"), true).unwrap();
    let store = CheckpointStore::new(&mut env, Some("checkpoints"), true).unwrap();
    commit_boundary(&mut env, &dedup, &store, &vec![100, 101, 102], 7, 102, 5);
    let ro = env.begin_ro_txn();
    assert!(dedup.contains(&ro, &100).unwrap());
    assert!(dedup.contains(&ro, &102).unwrap());
    assert!(!dedup.contains(&ro, &99).unwrap());
    assert_eq!(store.read_checkpoint(&ro, 7).unwrap(), Some((102, 5)));
    assert_eq!(store.resume_sequence(&ro, 7).unwrap(), 103);
}

#[test]
fn resume_at_the_largest_recordable_sequence() {
    let mut env = Environment::new();
    let store = CheckpointStore::new(&mut env, Some("checkpoints"), true).unwrap();
    let mut txn = env.begin_rw_txn();
    store.write_checkpoint(&mut txn, 3, dozer_runtime::MAX_SEQUENCE, 1);
    env.commit(txn);
    let ro = env.begin_ro_txn();
    assert_eq!(store.resume_sequence(&ro, 3).unwrap(), u64::MAX);
}

#[test]
fn garbage_record_is_corruption() {
    let mut env = Environment::new();
    let store = CheckpointStore::new(&mut env, Some("checkpoints"), true).unwrap();
    let mut txn: RwTransaction = env.begin_rw_txn();
    // three raw bytes under the source key: no checkpoint stores that
    let key = vec![0, 0, 0, 0, 0, 0, 0, 7];
    txn.db_insert(store.db, &key, &vec![1, 2, 3]);
    env.commit(txn);
    let ro = env.begin_ro_txn();
    assert_eq!(store.read_checkpoint(&ro, 7), Err(StorageError::Corruption));
    assert_eq!(store.resume_sequence(&ro, 7), Err(StorageError::Corruption));
}
