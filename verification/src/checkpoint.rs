//! The checkpoint side of the commit protocol. Whenever a commit boundary
//! reaches a durability-responsible stage, the stage writes the source's
//! position — (source id, source sequence, transaction id) — in the same
//! read-write transaction as its state mutation, so the two are committed
//! together and recovery sees them mutually consistent. On restart the
//! source resumes from the sequence after the recorded one.

use vstd::prelude::*;
use crate::keys::LmdbKey;
use crate::set::LmdbSet;
use crate::storage::{
    state_wf, view_contains, view_get, DbHandle, Environment, ReadTransaction, RwTransaction,
    StorageError,
};
use crate::MAX_SEQUENCE;

verus! {

/// The bytes a checkpoint record stores: the sequence, then the
/// transaction id, each big-endian.
pub open spec fn checkpoint_value(sequence: u64, tx_id: u64) -> Seq<u8> {
    sequence.spec_encode() + tx_id.spec_encode()
}

/// No two (sequence, transaction id) pairs store the same bytes.
pub proof fn lemma_checkpoint_value_injective(s1: u64, t1: u64, s2: u64, t2: u64)
    ensures
        checkpoint_value(s1, t1) == checkpoint_value(s2, t2) ==> s1 == s2 && t1 == t2,
{
    if checkpoint_value(s1, t1) == checkpoint_value(s2, t2) {
        assert(s1.spec_encode() =~= checkpoint_value(s1, t1).subrange(0, 8));
        assert(t1.spec_encode() =~= checkpoint_value(s1, t1).subrange(8, 16));
        assert(s2.spec_encode() =~= checkpoint_value(s2, t2).subrange(0, 8));
        assert(t2.spec_encode() =~= checkpoint_value(s2, t2).subrange(8, 16));
        u64::lemma_encode_injective(s1, s2);
        u64::lemma_encode_injective(t1, t2);
    }
}

/// One checkpoint database: source id, big-endian, to checkpoint record.
#[derive(Clone, Copy, Debug)]
pub struct CheckpointStore {
    pub db: DbHandle,
}

impl CheckpointStore {
    /// Opens or creates the backing database in the environment.
    pub fn new(c: &mut Environment, name: Option<&str>, create_if_not_exist: bool) -> (r: Result<
        Self,
        StorageError,
    >)
        requires
            old(c).well_formed(),
        ensures
            final(c).well_formed(),
            final(c).writer_active == old(c).writer_active,
            r matches Ok(s) ==> s.db.index < final(c).state().len() && final(
                c).names_view()[s.db.index as int] == crate::storage::opt_name_view(name),
            old(c).has_name(crate::storage::opt_name_view(name)) ==> r is Ok && *final(c) == *old(c),
            !old(c).has_name(crate::storage::opt_name_view(name)) && create_if_not_exist ==> (
            r matches Ok(s) && s.db.index == old(c).state().len()) && final(c).state() == old(
                c).state().push(Seq::empty()) && final(c).names_view() == old(
                c).names_view().push(crate::storage::opt_name_view(name)),
            !old(c).has_name(crate::storage::opt_name_view(name)) && !create_if_not_exist ==> r
                == Err::<Self, StorageError>(StorageError::NotFound) && *final(c) == *old(c),
    {
        match c.open_or_create(name, create_if_not_exist) {
            Ok(h) => Ok(CheckpointStore { db: h }),
            Err(e) => Err(e),
        }
    }

    /// Records the checkpoint for `source` inside the caller's open
    /// read-write transaction — the same transaction that carries the
    /// covered state mutation, which is what makes the pair atomic.
    pub fn write_checkpoint(
        &self,
        txn: &mut RwTransaction,
        source: u64,
        sequence: u64,
        tx_id: u64,
    )
        requires
            state_wf(old(txn).state()),
            self.db.index < old(txn).state().len(),
            sequence <= MAX_SEQUENCE,
        ensures
            state_wf(final(txn).state()),
            final(txn).state().len() == old(txn).state().len(),
            forall|j: int|
                0 <= j < old(txn).state().len() && j != self.db.index ==> #[trigger] final(txn).state()[j] == old(txn).state()[j],
            view_get(final(txn).state()[self.db.index as int], source.spec_encode()) == Some(
                checkpoint_value(sequence, tx_id),
            ),
            forall|k2: Seq<u8>|
                k2 != source.spec_encode() ==> #[trigger] view_contains(
                    final(txn).state()[self.db.index as int],
                    k2,
                ) == view_contains(old(txn).state()[self.db.index as int], k2),
            forall|k2: Seq<u8>|
                k2 != source.spec_encode() ==> #[trigger] view_get(
                    final(txn).state()[self.db.index as int],
                    k2,
                ) == view_get(old(txn).state()[self.db.index as int], k2),
    {
        let key = source.encode();
        let mut value = sequence.encode();
        let mut rest = tx_id.encode();
        value.append(&mut rest);
        proof {
            assert(value@ =~= checkpoint_value(sequence, tx_id));
        }
        let _ = txn.db_remove(self.db, &key);
        let _ = txn.db_insert(self.db, &key, &value);
    }

    /// Reads the checkpoint recorded for `source`, if any; a stored
    /// record that is not a checkpoint at all is corruption.
    pub fn read_checkpoint<T: ReadTransaction>(&self, txn: &T, source: u64) -> (r: Result<
        Option<(u64, u64)>,
        StorageError,
    >)
        requires
            state_wf(txn.state()),
            self.db.index < txn.state().len(),
        ensures
            r == Ok::<Option<(u64, u64)>, StorageError>(None::<(u64, u64)>) <==> !view_contains(
                txn.state()[self.db.index as int],
                source.spec_encode(),
            ),
            r matches Ok(Some(c)) ==> view_get(
                txn.state()[self.db.index as int],
                source.spec_encode(),
            ) == Some(checkpoint_value(c.0, c.1)),
            r matches Err(e) ==> e == StorageError::Corruption && (forall|s: u64, t: u64|
                view_get(txn.state()[self.db.index as int], source.spec_encode()) != Some(
                    #[trigger] checkpoint_value(s, t),
                )),
    {
        let key = source.encode();
        let stored = match txn.db_get(self.db, &key) {
            None => {
                return Ok(None);
            },
            Some(v) => v,
        };
        if stored.len() != 16 {
            proof {
                assert forall|s: u64, t: u64|
                    view_get(txn.state()[self.db.index as int], source.spec_encode()) != Some(
                        #[trigger] checkpoint_value(s, t),
                    ) by {
                    assert(checkpoint_value(s, t).len() == 16);
                }
            }
            return Err(StorageError::Corruption);
        }
        let mut first: Vec<u8> = Vec::new();
        let mut second: Vec<u8> = Vec::new();
        let mut i: usize = 0;
        while i < 8
            invariant
                stored@.len() == 16,
                i <= 8,
                first@ == stored@.subrange(0, i as int),
            decreases 8 - i,
        {
            first.push(stored[i]);
            i += 1;
        }
        let mut j: usize = 8;
        while j < 16
            invariant
                stored@.len() == 16,
                8 <= j <= 16,
                second@ == stored@.subrange(8, j as int),
            decreases 16 - j,
        {
            second.push(stored[j]);
            j += 1;
        }
        let sequence = match u64::decode(&first) {
            Some(s) => s,
            None => {
                proof {
                    assert forall|s: u64, t: u64|
                        view_get(txn.state()[self.db.index as int], source.spec_encode()) != Some(
                            #[trigger] checkpoint_value(s, t),
                        ) by {
                        if stored@ == checkpoint_value(s, t) {
                            assert(s.spec_encode() =~= stored@.subrange(0, 8));
                            assert(s.spec_encode() == first@);
                            assert(false);
                        }
                    }
                }
                return Err(StorageError::Corruption);
            },
        };
        let tx_id = match u64::decode(&second) {
            Some(t) => t,
            None => {
                proof {
                    assert forall|s: u64, t: u64|
                        view_get(txn.state()[self.db.index as int], source.spec_encode()) != Some(
                            #[trigger] checkpoint_value(s, t),
                        ) by {
                        if stored@ == checkpoint_value(s, t) {
                            assert(t.spec_encode() =~= stored@.subrange(8, 16));
                            assert(t.spec_encode() == second@);
                            assert(false);
                        }
                    }
                }
                return Err(StorageError::Corruption);
            },
        };
        proof {
            assert(stored@ =~= first@ + second@);
            assert(stored@ == checkpoint_value(sequence, tx_id));
        }
        Ok(Some((sequence, tx_id)))
    }

    /// Where `source` must resume after recovery: the sequence after the
    /// recorded checkpoint, or the very beginning when none is recorded.
    /// Events at or past the result may still arrive twice and must be
    /// de-duplicable downstream; events before it are never re-emitted.
    pub fn resume_sequence<T: ReadTransaction>(&self, txn: &T, source: u64) -> (r: Result<
        u64,
        StorageError,
    >)
        requires
            state_wf(txn.state()),
            self.db.index < txn.state().len(),
        ensures
            !view_contains(txn.state()[self.db.index as int], source.spec_encode()) ==> r == Ok::<
                u64,
                StorageError,
            >(0),
            forall|s: u64, t: u64|
                s <= MAX_SEQUENCE && view_get(
                    txn.state()[self.db.index as int],
                    source.spec_encode(),
                ) == Some(#[trigger] checkpoint_value(s, t)) ==> r == Ok::<u64, StorageError>(
                    (s + 1) as u64,
                ),
    {
        match self.read_checkpoint(txn, source) {
            Ok(None) => Ok(0),
            Ok(Some((s, _t))) => {
                if s > MAX_SEQUENCE {
                    proof {
                        assert forall|s2: u64, t2: u64|
                            s2 <= MAX_SEQUENCE && view_get(
                                txn.state()[self.db.index as int],
                                source.spec_encode(),
                            ) == Some(#[trigger] checkpoint_value(s2, t2)) implies false by {
                            lemma_checkpoint_value_injective(s, _t, s2, t2);
                        }
                    }
                    Err(StorageError::Corruption)
                } else {
                    proof {
                        assert forall|s2: u64, t2: u64|
                            view_get(txn.state()[self.db.index as int], source.spec_encode())
                                == Some(#[trigger] checkpoint_value(s2, t2)) implies s2 == s by {
                            lemma_checkpoint_value_injective(s, _t, s2, t2);
                        }
                    }
                    Ok(s + 1)
                }
            },
            Err(e) => {
                proof {
                    assert forall|s2: u64, t2: u64|
                        s2 <= MAX_SEQUENCE && view_get(
                            txn.state()[self.db.index as int],
                            source.spec_encode(),
                        ) == Some(#[trigger] checkpoint_value(s2, t2)) implies false by {}
                }
                Err(e)
            },
        }
    }

    /// Whether a recovered source must emit the event with sequence `id`:
    /// everything past the checkpoint, and everything at all when no
    /// checkpoint was recorded. Events at or below a recorded checkpoint
    /// are never emitted again.
    pub fn should_emit(checkpoint: Option<(u64, u64)>, id: u64) -> (r: bool)
        ensures
            r == match checkpoint {
                None => true,
                Some(c) => id > c.0,
            },
    {
        match checkpoint {
            None => true,
            Some((s, _)) => id > s,
        }
    }
}

/// One commit boundary, end to end: within a single read-write
/// transaction, records every processed id in the de-duplication set
/// (the state mutation the data events implied) and the new checkpoint,
/// then commits — both become the committed state together, so recovery
/// sees them mutually consistent and resumes right after `sequence`.
pub fn commit_boundary(
    env: &mut Environment,
    dedup: &LmdbSet<u64>,
    store: &CheckpointStore,
    processed: &Vec<u64>,
    source: u64,
    sequence: u64,
    tx_id: u64,
)
    requires
        old(env).well_formed(),
        !old(env).writer_active,
        dedup.db.index < old(env).state().len(),
        store.db.index < old(env).state().len(),
        dedup.db.index != store.db.index,
        sequence <= MAX_SEQUENCE,
    ensures
        final(env).well_formed(),
        !final(env).writer_active,
        final(env).state().len() == old(env).state().len(),
        final(env).names_view() == old(env).names_view(),
        forall|j: int|
            0 <= j < old(env).state().len() && j != dedup.db.index && j != store.db.index
                ==> #[trigger] final(env).state()[j] == old(env).state()[j],
        view_get(final(env).state()[store.db.index as int], source.spec_encode()) == Some(
            checkpoint_value(sequence, tx_id),
        ),
        forall|k: Seq<u8>|
            k != source.spec_encode() ==> #[trigger] view_get(
                final(env).state()[store.db.index as int],
                k,
            ) == view_get(old(env).state()[store.db.index as int], k),
        forall|i: int|
            0 <= i < processed@.len() ==> view_contains(
                final(env).state()[dedup.db.index as int],
                (#[trigger] processed@[i]).spec_encode(),
            ),
        forall|k: Seq<u8>|
            #[trigger] view_contains(old(env).state()[dedup.db.index as int], k)
                ==> view_contains(final(env).state()[dedup.db.index as int], k),
        forall|k: Seq<u8>|
            #[trigger] view_contains(final(env).state()[dedup.db.index as int], k)
                ==> view_contains(old(env).state()[dedup.db.index as int], k) || exists|i: int|
                0 <= i < processed@.len() && (#[trigger] processed@[i]).spec_encode() == k,
        forall|i: int|
            0 <= i < processed@.len() ==> view_get(
                final(env).state()[dedup.db.index as int],
                (#[trigger] processed@[i]).spec_encode(),
            ) == (if view_contains(
                old(env).state()[dedup.db.index as int],
                processed@[i].spec_encode(),
            ) {
                view_get(old(env).state()[dedup.db.index as int], processed@[i].spec_encode())
            } else {
                Some(Seq::<u8>::empty())
            }),
        forall|k: Seq<u8>|
            (forall|i: int|
                0 <= i < processed@.len() ==> (#[trigger] processed@[i]).spec_encode() != k)
                ==> #[trigger] view_get(final(env).state()[dedup.db.index as int], k) == view_get(
                old(env).state()[dedup.db.index as int],
                k,
            ),
        final(env).state()[dedup.db.index as int].len() == old(env).state()[dedup.db.index as int].len()
            + LmdbSet::<u64>::count_new(
            old(env).state()[dedup.db.index as int],
            processed@,
            processed@.len() as int,
        ),
{
    let mut txn = env.begin_rw_txn();
    let _ = dedup.extend(&mut txn, processed);
    store.write_checkpoint(&mut txn, source, sequence, tx_id);
    env.commit(txn);
}

} // verus!
