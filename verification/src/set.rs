//! A keyed set: a database whose records carry empty values, membership
//! being key presence alone. The degenerate case of the keyed map.

use vstd::prelude::*;
use crate::keys::LmdbKey;
use crate::storage::{
    bytes_lt, view_contains, view_get, view_sorted, DbHandle, Environment, ReadTransaction,
    RwTransaction, StorageError,
};

verus! {

/// A set of encodable keys stored in one database of the environment.
/// The handle is a small value reference: copying it never copies data.
#[derive(Debug)]
pub struct LmdbSet<K> {
    pub db: DbHandle,
    pub key_marker: core::marker::PhantomData<K>,
}

impl<K> Clone for LmdbSet<K> {
    fn clone(&self) -> (r: Self)
        ensures
            r.db == self.db,
    {
        LmdbSet { db: self.db, key_marker: core::marker::PhantomData }
    }
}

impl<K> Copy for LmdbSet<K> {

}

impl<K: LmdbKey> LmdbSet<K> {
    /// Whether the set, as seen through contents `state`, holds `k`.
    pub open spec fn spec_contains(self, state: Seq<Seq<(Seq<u8>, Seq<u8>)>>, k: K) -> bool {
        view_contains(state[self.db.index as int], k.spec_encode())
    }

    /// Opens or creates the backing database in the environment.
    pub fn new(c: &mut Environment, name: Option<&str>, create_if_not_exist: bool) -> (r: Result<
        Self,
        StorageError,
    >)
        requires
            old(c).well_formed(),
        ensures
            final(c).well_formed(),
            final(c).writer_active == old(c).writer_active,
            r matches Ok(s) ==> s.db.index < final(c).state().len() && final(c).names_view()[s.db.index as int] == crate::storage::opt_name_view(name),
            old(c).has_name(crate::storage::opt_name_view(name)) ==> r is Ok && *final(c) == *old(c),
            !old(c).has_name(crate::storage::opt_name_view(name)) && create_if_not_exist ==> (
            r matches Ok(s) && s.db.index == old(c).state().len()) && final(c).state() == old(c).state().push(Seq::empty()) && final(c).names_view() == old(c).names_view().push(
                crate::storage::opt_name_view(name),
            ),
            !old(c).has_name(crate::storage::opt_name_view(name)) && !create_if_not_exist ==> r
                == Err::<Self, StorageError>(StorageError::NotFound) && *final(c) == *old(c),
    {
        match c.open_or_create(name, create_if_not_exist) {
            Ok(h) => Ok(LmdbSet { db: h, key_marker: core::marker::PhantomData }),
            Err(e) => Err(e),
        }
    }

    /// How many keys the set holds.
    pub fn count<T: ReadTransaction>(&self, txn: &T) -> (r: Result<usize, StorageError>)
        requires
            crate::storage::state_wf(txn.state()),
            self.db.index < txn.state().len(),
        ensures
            r matches Ok(n) && n == txn.state()[self.db.index as int].len(),
    {
        Ok(txn.db_count(self.db))
    }

    /// Whether `key` is in the set.
    pub fn contains<T: ReadTransaction>(&self, txn: &T, key: &K) -> (r: Result<
        bool,
        StorageError,
    >)
        requires
            crate::storage::state_wf(txn.state()),
            self.db.index < txn.state().len(),
        ensures
            r matches Ok(b) && b == self.spec_contains(txn.state(), *key),
    {
        let encoded = key.encode();
        Ok(txn.db_contains(self.db, &encoded))
    }

    /// Puts `key` in the set; the result says whether the key was
    /// actually inserted, an already-present key leaving the set as it
    /// was.
    pub fn insert(&self, txn: &mut RwTransaction, key: &K) -> (r: Result<bool, StorageError>)
        requires
            crate::storage::state_wf(old(txn).state()),
            self.db.index < old(txn).state().len(),
        ensures
            crate::storage::state_wf(final(txn).state()),
            final(txn).state().len() == old(txn).state().len(),
            forall|j: int|
                0 <= j < old(txn).state().len() && j != self.db.index ==> #[trigger] final(txn).state()[j] == old(txn).state()[j],
            r matches Ok(b) && b == !self.spec_contains(old(txn).state(), *key),
            self.spec_contains(final(txn).state(), *key),
            forall|k2: Seq<u8>|
                k2 != key.spec_encode() ==> view_contains(
                    final(txn).state()[self.db.index as int],
                    k2,
                ) == view_contains(old(txn).state()[self.db.index as int], k2),
            final(txn).state()[self.db.index as int].len() == old(txn).state()[self.db.index as int].len() + if self.spec_contains(old(txn).state(), *key) {
                0int
            } else {
                1int
            },
            !self.spec_contains(old(txn).state(), *key) ==> view_get(
                final(txn).state()[self.db.index as int],
                key.spec_encode(),
            ) == Some(Seq::<u8>::empty()),
            forall|k2: Seq<u8>|
                k2 != key.spec_encode() ==> #[trigger] view_get(
                    final(txn).state()[self.db.index as int],
                    k2,
                ) == view_get(old(txn).state()[self.db.index as int], k2),
            self.spec_contains(old(txn).state(), *key) ==> final(txn).state() == old(txn).state(),
    {
        let encoded = key.encode();
        let empty: Vec<u8> = Vec::new();
        Ok(txn.db_insert(self.db, &encoded, &empty))
    }

    /// Takes `key` out of the set; the result says whether the key was
    /// actually removed.
    pub fn remove(&self, txn: &mut RwTransaction, key: &K) -> (r: Result<bool, StorageError>)
        requires
            crate::storage::state_wf(old(txn).state()),
            self.db.index < old(txn).state().len(),
        ensures
            crate::storage::state_wf(final(txn).state()),
            final(txn).state().len() == old(txn).state().len(),
            forall|j: int|
                0 <= j < old(txn).state().len() && j != self.db.index ==> #[trigger] final(txn).state()[j] == old(txn).state()[j],
            r matches Ok(b) && b == self.spec_contains(old(txn).state(), *key),
            !self.spec_contains(final(txn).state(), *key),
            forall|k2: Seq<u8>|
                k2 != key.spec_encode() ==> view_contains(
                    final(txn).state()[self.db.index as int],
                    k2,
                ) == view_contains(old(txn).state()[self.db.index as int], k2),
            final(txn).state()[self.db.index as int].len() == old(txn).state()[self.db.index as int].len() - if self.spec_contains(old(txn).state(), *key) {
                1int
            } else {
                0int
            },
            forall|k2: Seq<u8>|
                k2 != key.spec_encode() ==> #[trigger] view_get(
                    final(txn).state()[self.db.index as int],
                    k2,
                ) == view_get(old(txn).state()[self.db.index as int], k2),
            !self.spec_contains(old(txn).state(), *key) ==> final(txn).state() == old(txn).state(),
    {
        let encoded = key.encode();
        Ok(txn.db_remove(self.db, &encoded))
    }

    /// Empties the set, whatever it held.
    pub fn clear(&self, txn: &mut RwTransaction) -> (r: Result<(), StorageError>)
        requires
            crate::storage::state_wf(old(txn).state()),
            self.db.index < old(txn).state().len(),
        ensures
            r is Ok,
            crate::storage::state_wf(final(txn).state()),
            final(txn).state().len() == old(txn).state().len(),
            forall|j: int|
                0 <= j < old(txn).state().len() && j != self.db.index ==> #[trigger] final(txn).state()[j] == old(txn).state()[j],
            final(txn).state()[self.db.index as int].len() == 0,
            forall|k: K| !(#[trigger] self.spec_contains(final(txn).state(), k)),
    {
        txn.db_clear(self.db);
        Ok(())
    }

    /// All keys in the set, ascending in their natural order: restartable
    /// cursor iteration, valid for the transaction that produced it.
    pub fn iter<T: ReadTransaction>(&self, txn: &T) -> (r: Result<Vec<K>, StorageError>)
        requires
            crate::storage::state_wf(txn.state()),
            self.db.index < txn.state().len(),
        ensures
            r matches Ok(ks) ==> ks@.len() == txn.state()[self.db.index as int].len(),
            r matches Ok(ks) ==> forall|i: int|
                0 <= i < ks@.len() ==> (#[trigger] ks@[i]).spec_encode() == txn.state()[self.db.index as int][i].0,
            r matches Ok(ks) ==> forall|i: int, j: int|
                0 <= i < j < ks@.len() ==> (#[trigger] ks@[i]).key_lt(#[trigger] ks@[j]),
            r matches Err(e) ==> e == StorageError::Corruption && exists|i: int|
                #![trigger txn.state()[self.db.index as int][i]]
                0 <= i < txn.state()[self.db.index as int].len() && forall|k: K|
                    (#[trigger] k.spec_encode()) != txn.state()[self.db.index as int][i].0,
    {
        let stored = txn.db_keys(self.db);
        let ghost dbv = txn.state()[self.db.index as int];
        let mut ks: Vec<K> = Vec::new();
        let mut i: usize = 0;
        while i < stored.len()
            invariant
                dbv == txn.state()[self.db.index as int],
                self.db.index < txn.state().len(),
                crate::storage::state_wf(txn.state()),
                stored@.len() == dbv.len(),
                forall|j: int| 0 <= j < stored@.len() ==> #[trigger] stored@[j]@ == dbv[j].0,
                i <= stored@.len(),
                ks@.len() == i,
                forall|j: int| 0 <= j < i ==> (#[trigger] ks@[j]).spec_encode() == dbv[j].0,
            decreases stored@.len() - i,
        {
            match K::decode(&stored[i]) {
                Some(k) => {
                    ks.push(k);
                },
                None => {
                    proof {
                        assert(txn.state()[self.db.index as int][i as int] == dbv[i as int]);
                        assert(forall|k: K| (#[trigger] k.spec_encode()) != dbv[i as int].0);
                    }
                    return Err(StorageError::Corruption);
                },
            }
            i += 1;
        }
        proof {
            assert(crate::storage::state_wf(txn.state()));
            assert(view_sorted(dbv));
            assert forall|a: int, b: int| 0 <= a < b < ks@.len() implies (
            #[trigger] ks@[a]).key_lt(#[trigger] ks@[b]) by {
                assert(bytes_lt(dbv[a].0, dbv[b].0));
                K::lemma_encode_order(ks@[a], ks@[b]);
            }
        }
        Ok(ks)
    }

    /// How many of the first `n` listed keys a bulk insert actually adds
    /// to contents `v`: those neither stored already nor listed earlier.
    pub open spec fn count_new(v: Seq<(Seq<u8>, Seq<u8>)>, keys: Seq<K>, n: int) -> int
        decreases n,
    {
        if n <= 0 {
            0
        } else {
            Self::count_new(v, keys, n - 1) + if view_contains(
                v,
                keys[n - 1].spec_encode(),
            ) || (exists|j: int|
                0 <= j < n - 1 && (#[trigger] keys[j].spec_encode()) == keys[n
                    - 1].spec_encode()) {
                0int
            } else {
                1int
            }
        }
    }

    /// Puts every key of `keys` in the set; keys already present are left
    /// untouched, so extending with only present keys changes nothing.
    pub fn extend(&self, txn: &mut RwTransaction, keys: &Vec<K>) -> (r: Result<(), StorageError>)
        requires
            crate::storage::state_wf(old(txn).state()),
            self.db.index < old(txn).state().len(),
        ensures
            r is Ok,
            crate::storage::state_wf(final(txn).state()),
            final(txn).state().len() == old(txn).state().len(),
            forall|j: int|
                0 <= j < old(txn).state().len() && j != self.db.index ==> #[trigger] final(txn).state()[j] == old(txn).state()[j],
            forall|i: int|
                0 <= i < keys@.len() ==> self.spec_contains(
                    final(txn).state(),
                    #[trigger] keys@[i],
                ),
            forall|k2: Seq<u8>|
                (forall|i: int| 0 <= i < keys@.len() ==> (#[trigger] keys@[i]).spec_encode() != k2)
                    ==> #[trigger] view_contains(final(txn).state()[self.db.index as int], k2)
                    == view_contains(old(txn).state()[self.db.index as int], k2),
            forall|k2: Seq<u8>|
                #[trigger] view_contains(old(txn).state()[self.db.index as int], k2)
                    ==> view_contains(final(txn).state()[self.db.index as int], k2),
            forall|i: int|
                0 <= i < keys@.len() ==> view_get(
                    final(txn).state()[self.db.index as int],
                    (#[trigger] keys@[i]).spec_encode(),
                ) == (if view_contains(
                    old(txn).state()[self.db.index as int],
                    keys@[i].spec_encode(),
                ) {
                    view_get(old(txn).state()[self.db.index as int], keys@[i].spec_encode())
                } else {
                    Some(Seq::<u8>::empty())
                }),
            forall|k2: Seq<u8>|
                (forall|i: int| 0 <= i < keys@.len() ==> (#[trigger] keys@[i]).spec_encode() != k2)
                    ==> #[trigger] view_get(final(txn).state()[self.db.index as int], k2)
                    == view_get(old(txn).state()[self.db.index as int], k2),
            final(txn).state()[self.db.index as int].len() == old(txn).state()[self.db.index as int].len() + Self::count_new(
                old(txn).state()[self.db.index as int],
                keys@,
                keys@.len() as int,
            ),
            (forall|i: int|
                0 <= i < keys@.len() ==> self.spec_contains(old(txn).state(), #[trigger] keys@[i]))
                ==> final(txn).state() == old(txn).state(),
    {
        let ghost pre = txn.state();
        let mut i: usize = 0;
        while i < keys.len()
            invariant
                crate::storage::state_wf(txn.state()),
                self.db.index < txn.state().len(),
                txn.state().len() == pre.len(),
                forall|j: int|
                    0 <= j < pre.len() && j != self.db.index ==> #[trigger] txn.state()[j] == pre[j],
                i <= keys@.len(),
                forall|ii: int|
                    0 <= ii < i ==> self.spec_contains(txn.state(), #[trigger] keys@[ii]),
                forall|k2: Seq<u8>|
                    (forall|ii: int|
                        0 <= ii < i ==> (#[trigger] keys@[ii]).spec_encode() != k2)
                        ==> #[trigger] view_contains(txn.state()[self.db.index as int], k2)
                        == view_contains(pre[self.db.index as int], k2),
                forall|k2: Seq<u8>|
                    #[trigger] view_contains(pre[self.db.index as int], k2) ==> view_contains(
                        txn.state()[self.db.index as int],
                        k2,
                    ),
                forall|ii: int|
                    0 <= ii < i ==> view_get(
                        txn.state()[self.db.index as int],
                        (#[trigger] keys@[ii]).spec_encode(),
                    ) == (if view_contains(
                        pre[self.db.index as int],
                        keys@[ii].spec_encode(),
                    ) {
                        view_get(pre[self.db.index as int], keys@[ii].spec_encode())
                    } else {
                        Some(Seq::<u8>::empty())
                    }),
                forall|k2: Seq<u8>|
                    (forall|ii: int|
                        0 <= ii < i ==> (#[trigger] keys@[ii]).spec_encode() != k2)
                        ==> #[trigger] view_get(txn.state()[self.db.index as int], k2)
                        == view_get(pre[self.db.index as int], k2),
                txn.state()[self.db.index as int].len() == pre[self.db.index as int].len()
                    + Self::count_new(pre[self.db.index as int], keys@, i as int),
                (forall|ii: int|
                    0 <= ii < i ==> self.spec_contains(pre, #[trigger] keys@[ii])) ==> txn.state()
                    == pre,
            decreases keys@.len() - i,
        {
            let ghost cur = txn.state()[self.db.index as int];
            let ghost enc = keys@[i as int].spec_encode();
            proof {
                if view_contains(cur, enc) {
                    if !view_contains(pre[self.db.index as int], enc) && (forall|j: int|
                        0 <= j < i ==> (#[trigger] keys@[j].spec_encode()) != enc) {
                        assert(view_contains(cur, enc) == view_contains(
                            pre[self.db.index as int],
                            enc,
                        ));
                    }
                } else {
                    assert(!view_contains(pre[self.db.index as int], enc));
                    assert forall|j: int| 0 <= j < i implies (#[trigger] keys@[j].spec_encode())
                        != enc by {
                        assert(self.spec_contains(txn.state(), keys@[j]));
                    }
                }
            }
            let _ = self.insert(txn, &keys[i]);
            i += 1;
        }
        Ok(())
    }
}

} // verus!
