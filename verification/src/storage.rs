//! The keyed storage engine: ordered byte-keyed databases inside an
//! environment, read through snapshot transactions and mutated through a
//! single serialized read-write transaction.

use vstd::prelude::*;

verus! {

/// Strict lexicographic order on byte strings: the order in which stored
/// keys are kept and iterated.
pub open spec fn bytes_lt(a: Seq<u8>, b: Seq<u8>) -> bool
    decreases a.len(),
{
    if b.len() == 0 {
        false
    } else if a.len() == 0 {
        true
    } else if a[0] < b[0] {
        true
    } else if a[0] > b[0] {
        false
    } else {
        bytes_lt(a.subrange(1, a.len() as int), b.subrange(1, b.len() as int))
    }
}

/// Lexicographic order is irreflexive and asymmetric.
pub proof fn lemma_bytes_lt_asymmetric(a: Seq<u8>, b: Seq<u8>)
    ensures
        bytes_lt(a, b) ==> !bytes_lt(b, a),
        !bytes_lt(a, a),
    decreases a.len(),
{
    if a.len() > 0 && b.len() > 0 && a[0] == b[0] {
        lemma_bytes_lt_asymmetric(a.subrange(1, a.len() as int), b.subrange(1, b.len() as int));
    }
    if a.len() > 0 {
        lemma_bytes_lt_asymmetric(a.subrange(1, a.len() as int), a.subrange(1, a.len() as int));
    }
}

/// Any two distinct byte strings are ordered one way or the other.
pub proof fn lemma_bytes_lt_connected(a: Seq<u8>, b: Seq<u8>)
    ensures
        a == b || bytes_lt(a, b) || bytes_lt(b, a),
    decreases a.len(),
{
    if a.len() > 0 && b.len() > 0 && a[0] == b[0] {
        let at = a.subrange(1, a.len() as int);
        let bt = b.subrange(1, b.len() as int);
        lemma_bytes_lt_connected(at, bt);
        if at == bt {
            assert forall|j: int| 0 <= j < a.len() implies a[j] == b[j] by {
                if j > 0 {
                    assert(at[j - 1] == bt[j - 1]);
                }
            }
            assert(a =~= b);
        }
    } else if a.len() == 0 && b.len() == 0 {
        assert(a =~= b);
    }
}

/// Lexicographic order is transitive.
pub proof fn lemma_bytes_lt_transitive(a: Seq<u8>, b: Seq<u8>, c: Seq<u8>)
    ensures
        bytes_lt(a, b) && bytes_lt(b, c) ==> bytes_lt(a, c),
    decreases a.len(),
{
    if bytes_lt(a, b) && bytes_lt(b, c) {
        if a.len() > 0 && b.len() > 0 && c.len() > 0 && a[0] == b[0] && b[0] == c[0] {
            lemma_bytes_lt_transitive(
                a.subrange(1, a.len() as int),
                b.subrange(1, b.len() as int),
                c.subrange(1, c.len() as int),
            );
        }
    }
}

/// If two byte strings agree on their first `i` bytes, their order is
/// decided by what remains.
proof fn lemma_bytes_lt_common_prefix(a: Seq<u8>, b: Seq<u8>, i: int)
    requires
        0 <= i <= a.len(),
        i <= b.len(),
        forall|j: int| 0 <= j < i ==> a[j] == b[j],
    ensures
        bytes_lt(a, b) == bytes_lt(a.subrange(i, a.len() as int), b.subrange(i, b.len() as int)),
    decreases i,
{
    if i > 0 {
        let at = a.subrange(1, a.len() as int);
        let bt = b.subrange(1, b.len() as int);
        lemma_bytes_lt_common_prefix(at, bt, i - 1);
        assert(at.subrange(i - 1, at.len() as int) =~= a.subrange(i, a.len() as int));
        assert(bt.subrange(i - 1, bt.len() as int) =~= b.subrange(i, b.len() as int));
    } else {
        assert(a.subrange(0, a.len() as int) =~= a);
        assert(b.subrange(0, b.len() as int) =~= b);
    }
}

/// Decides the lexicographic order of two keys.
pub fn bytes_less(a: &Vec<u8>, b: &Vec<u8>) -> (r: bool)
    ensures
        r == bytes_lt(a@, b@),
{
    let mut i: usize = 0;
    loop
        invariant
            i <= a.len(),
            i <= b.len(),
            forall|j: int| 0 <= j < i ==> a@[j] == b@[j],
        decreases a.len() - i,
    {
        proof {
            lemma_bytes_lt_common_prefix(a@, b@, i as int);
        }
        if i == a.len() {
            return i < b.len();
        }
        if i == b.len() {
            return false;
        }
        if a[i] < b[i] {
            return true;
        }
        if a[i] > b[i] {
            return false;
        }
        i += 1;
    }
}

/// A database view is sorted strictly ascending by key, which also makes
/// every key unique.
pub open spec fn view_sorted(v: Seq<(Seq<u8>, Seq<u8>)>) -> bool {
    forall|i: int, j: int| 0 <= i < j < v.len() ==> bytes_lt(#[trigger] v[i].0, #[trigger] v[j].0)
}

/// Whether a database view holds the key.
pub open spec fn view_contains(v: Seq<(Seq<u8>, Seq<u8>)>, k: Seq<u8>) -> bool {
    exists|i: int| 0 <= i < v.len() && #[trigger] v[i].0 == k
}

/// The position of a key in a database view (meaningful when present and
/// the view is sorted, since sortedness makes keys unique).
pub open spec fn view_index_of(v: Seq<(Seq<u8>, Seq<u8>)>, k: Seq<u8>) -> int {
    choose|i: int| 0 <= i < v.len() && #[trigger] v[i].0 == k
}

/// The value stored under a key, if any.
pub open spec fn view_get(v: Seq<(Seq<u8>, Seq<u8>)>, k: Seq<u8>) -> Option<Seq<u8>> {
    if view_contains(v, k) {
        Some(v[view_index_of(v, k)].1)
    } else {
        None
    }
}

/// In a sorted view, an entry with key `k` at position `i` is the one
/// `view_get` speaks of.
pub proof fn lemma_view_get_is(v: Seq<(Seq<u8>, Seq<u8>)>, k: Seq<u8>, i: int)
    requires
        view_sorted(v),
        0 <= i < v.len(),
        v[i].0 == k,
    ensures
        view_contains(v, k),
        view_get(v, k) == Some(v[i].1),
        view_index_of(v, k) == i,
{
    assert(view_contains(v, k));
    let j = view_index_of(v, k);
    if j != i {
        if j < i {
            assert(bytes_lt(v[j].0, v[i].0));
        } else {
            assert(bytes_lt(v[i].0, v[j].0));
        }
        lemma_bytes_lt_asymmetric(k, k);
    }
}

/// If a scan past position `idx` saw only smaller keys, and the entry at
/// `idx` (when there is one) is neither smaller than nor equal to `k`,
/// then `k` is not in the sorted view.
proof fn lemma_scan_misses(v: Seq<(Seq<u8>, Seq<u8>)>, k: Seq<u8>, idx: int)
    requires
        view_sorted(v),
        0 <= idx <= v.len(),
        forall|i: int| 0 <= i < idx ==> bytes_lt(#[trigger] v[i].0, k),
        idx < v.len() ==> !bytes_lt(v[idx].0, k) && v[idx].0 != k,
    ensures
        !view_contains(v, k),
        forall|i: int| idx <= i < v.len() ==> bytes_lt(k, #[trigger] v[i].0),
{
    assert forall|i: int| idx <= i < v.len() implies bytes_lt(k, #[trigger] v[i].0) by {
        lemma_bytes_lt_connected(v[idx].0, k);
        if i > idx {
            assert(bytes_lt(v[idx].0, v[i].0));
            lemma_bytes_lt_transitive(k, v[idx].0, v[i].0);
        }
    }
    assert forall|i: int| 0 <= i < v.len() implies v[i].0 != k by {
        lemma_bytes_lt_asymmetric(v[i].0, k);
        lemma_bytes_lt_asymmetric(k, v[i].0);
    }
}

/// One stored record: a key and the bytes filed under it.
#[derive(Debug)]
pub struct DbEntry {
    pub key: Vec<u8>,
    pub value: Vec<u8>,
}

impl View for DbEntry {
    type V = (Seq<u8>, Seq<u8>);

    open spec fn view(&self) -> (Seq<u8>, Seq<u8>) {
        (self.key@, self.value@)
    }
}

/// One ordered byte-keyed database: records kept strictly ascending by
/// key, so iteration order is the key order and keys are unique.
#[derive(Debug)]
pub struct Db {
    pub entries: Vec<DbEntry>,
}

impl View for Db {
    type V = Seq<(Seq<u8>, Seq<u8>)>;

    open spec fn view(&self) -> Seq<(Seq<u8>, Seq<u8>)> {
        self.entries@.map_values(|e: DbEntry| e@)
    }
}

/// An owned copy of a byte string.
pub fn copy_bytes(v: &Vec<u8>) -> (r: Vec<u8>)
    ensures
        r@ == v@,
{
    let mut r: Vec<u8> = Vec::new();
    let mut i: usize = 0;
    while i < v.len()
        invariant
            i <= v.len(),
            r@ == v@.subrange(0, i as int),
        decreases v.len() - i,
    {
        r.push(v[i]);
        i += 1;
    }
    proof {
        assert(r@ =~= v@);
    }
    r
}

impl Db {
    /// A database is well formed when its records are strictly sorted.
    pub open spec fn well_formed(self) -> bool {
        view_sorted(self@)
    }

    /// A database with nothing in it.
    pub fn empty() -> (r: Db)
        ensures
            r@.len() == 0,
            r.well_formed(),
    {
        Db { entries: Vec::new() }
    }

    /// The position where `key` sits, or where it would be inserted.
    fn find(&self, key: &Vec<u8>) -> (r: usize)
        requires
            self.well_formed(),
        ensures
            r <= self@.len(),
            forall|i: int| 0 <= i < r ==> bytes_lt(#[trigger] self@[i].0, key@),
            r < self@.len() ==> !bytes_lt(self@[r as int].0, key@),
    {
        let mut i: usize = 0;
        while i < self.entries.len()
            invariant
                self.well_formed(),
                i <= self@.len(),
                forall|j: int| 0 <= j < i ==> bytes_lt(#[trigger] self@[j].0, key@),
            decreases self.entries.len() - i,
        {
            if !bytes_less(&self.entries[i].key, key) {
                return i;
            }
            i += 1;
        }
        i
    }

    /// How many records are stored.
    pub fn count(&self) -> (r: usize)
        ensures
            r == self@.len(),
    {
        self.entries.len()
    }

    /// The value filed under `key`, if the key is present.
    pub fn get<'a>(&'a self, key: &Vec<u8>) -> (r: Option<&'a Vec<u8>>)
        requires
            self.well_formed(),
        ensures
            (r is Some) == view_contains(self@, key@),
            match r {
                Some(v) => view_get(self@, key@) == Some(v@),
                None => view_get(self@, key@) is None,
            },
    {
        let idx = self.find(key);
        if idx < self.entries.len() && bytes_equal(&self.entries[idx].key, key) {
            proof {
                lemma_view_get_is(self@, key@, idx as int);
            }
            Some(&self.entries[idx].value)
        } else {
            proof {
                lemma_scan_misses(self@, key@, idx as int);
            }
            None
        }
    }

    /// Whether `key` is present.
    pub fn contains(&self, key: &Vec<u8>) -> (r: bool)
        requires
            self.well_formed(),
        ensures
            r == view_contains(self@, key@),
    {
        self.get(key).is_some()
    }

    /// Files `value` under `key` unless the key is already present; the
    /// result says whether the key was actually inserted, and a present
    /// key leaves the database untouched.
    pub fn insert(&mut self, key: &Vec<u8>, value: &Vec<u8>) -> (r: bool)
        requires
            old(self).well_formed(),
        ensures
            final(self).well_formed(),
            r == !view_contains(old(self)@, key@),
            view_contains(final(self)@, key@),
            view_get(final(self)@, key@) == if view_contains(old(self)@, key@) {
                view_get(old(self)@, key@)
            } else {
                Some(value@)
            },
            forall|k2: Seq<u8>|
                k2 != key@ ==> view_contains(final(self)@, k2) == view_contains(old(self)@, k2),
            forall|k2: Seq<u8>| k2 != key@ ==> view_get(final(self)@, k2) == view_get(old(self)@, k2),
            final(self)@.len() == old(self)@.len() + if view_contains(old(self)@, key@) {
                0int
            } else {
                1int
            },
            view_contains(old(self)@, key@) ==> final(self)@ == old(self)@,
    {
        let idx = self.find(key);
        if idx < self.entries.len() && bytes_equal(&self.entries[idx].key, key) {
            proof {
                lemma_view_get_is(self@, key@, idx as int);
            }
            return false;
        }
        proof {
            lemma_scan_misses(self@, key@, idx as int);
        }
        let ghost pre = self@;
        let entry = DbEntry { key: copy_bytes(key), value: copy_bytes(value) };
        let ghost ev = entry@;
        self.entries.insert(idx, entry);
        proof {
            assert(self@ =~= pre.insert(idx as int, ev));
            lemma_splice_in(pre, key@, value@, idx as int, self@);
        }
        true
    }

    /// Takes `key` out; the result says whether the key was present.
    pub fn remove(&mut self, key: &Vec<u8>) -> (r: bool)
        requires
            old(self).well_formed(),
        ensures
            final(self).well_formed(),
            r == view_contains(old(self)@, key@),
            !view_contains(final(self)@, key@),
            forall|k2: Seq<u8>|
                k2 != key@ ==> view_contains(final(self)@, k2) == view_contains(old(self)@, k2),
            forall|k2: Seq<u8>| k2 != key@ ==> view_get(final(self)@, k2) == view_get(old(self)@, k2),
            final(self)@.len() == old(self)@.len() - if view_contains(old(self)@, key@) {
                1int
            } else {
                0int
            },
            !view_contains(old(self)@, key@) ==> final(self)@ == old(self)@,
    {
        let idx = self.find(key);
        if idx < self.entries.len() && bytes_equal(&self.entries[idx].key, key) {
            proof {
                lemma_view_get_is(self@, key@, idx as int);
            }
            let ghost pre = self@;
            self.entries.remove(idx);
            proof {
                assert(self@ =~= pre.remove(idx as int));
                lemma_splice_out(pre, key@, idx as int, self@);
            }
            true
        } else {
            proof {
                lemma_scan_misses(self@, key@, idx as int);
            }
            false
        }
    }

    /// Empties the database.
    pub fn clear(&mut self)
        ensures
            final(self)@.len() == 0,
            final(self).well_formed(),
            forall|k2: Seq<u8>| !view_contains(final(self)@, k2),
    {
        self.entries = Vec::new();
    }

    /// All keys, in ascending storage order.
    pub fn keys(&self) -> (r: Vec<Vec<u8>>)
        ensures
            r@.len() == self@.len(),
            forall|i: int| 0 <= i < r@.len() ==> #[trigger] r@[i]@ == self@[i].0,
    {
        let mut r: Vec<Vec<u8>> = Vec::new();
        let mut i: usize = 0;
        while i < self.entries.len()
            invariant
                i <= self@.len(),
                r@.len() == i,
                forall|j: int| 0 <= j < i ==> #[trigger] r@[j]@ == self@[j].0,
            decreases self.entries.len() - i,
        {
            r.push(copy_bytes(&self.entries[i].key));
            i += 1;
        }
        r
    }
}

/// Inserting an absent key at its scan position keeps the view sorted and
/// changes nothing about the other keys.
proof fn lemma_splice_in(
    pre: Seq<(Seq<u8>, Seq<u8>)>,
    k: Seq<u8>,
    val: Seq<u8>,
    idx: int,
    post: Seq<(Seq<u8>, Seq<u8>)>,
)
    requires
        view_sorted(pre),
        0 <= idx <= pre.len(),
        forall|i: int| 0 <= i < idx ==> bytes_lt(#[trigger] pre[i].0, k),
        forall|i: int| idx <= i < pre.len() ==> bytes_lt(k, #[trigger] pre[i].0),
        post == pre.insert(idx, (k, val)),
    ensures
        view_sorted(post),
        view_contains(post, k),
        view_get(post, k) == Some(val),
        forall|k2: Seq<u8>| k2 != k ==> view_contains(post, k2) == view_contains(pre, k2),
        forall|k2: Seq<u8>| k2 != k ==> view_get(post, k2) == view_get(pre, k2),
{
    assert forall|i: int, j: int| 0 <= i < j < post.len() implies bytes_lt(
        #[trigger] post[i].0,
        #[trigger] post[j].0,
    ) by {
        if i < idx && j > idx {
            assert(bytes_lt(pre[i].0, k));
            assert(bytes_lt(k, pre[j - 1].0));
            lemma_bytes_lt_transitive(pre[i].0, k, pre[j - 1].0);
        }
    }
    lemma_view_get_is(post, k, idx);
    assert forall|k2: Seq<u8>| k2 != k implies view_contains(post, k2) == view_contains(pre, k2)
        && view_get(post, k2) == view_get(pre, k2) by {
        if view_contains(pre, k2) {
            let i = view_index_of(pre, k2);
            lemma_view_get_is(pre, k2, i);
            let i2 = if i < idx {
                i
            } else {
                i + 1
            };
            assert(post[i2] == pre[i]);
            lemma_view_get_is(post, k2, i2);
        } else {
            if view_contains(post, k2) {
                let i = view_index_of(post, k2);
                assert(post[i].0 == k2);
                if i < idx {
                    assert(pre[i].0 == k2);
                } else if i > idx {
                    assert(pre[i - 1].0 == k2);
                } else {
                    assert(post[i].0 == k);
                }
                assert(view_contains(pre, k2));
            }
        }
    }
}

/// Removing the entry that holds a key keeps the view sorted and changes
/// nothing about the other keys.
proof fn lemma_splice_out(
    pre: Seq<(Seq<u8>, Seq<u8>)>,
    k: Seq<u8>,
    idx: int,
    post: Seq<(Seq<u8>, Seq<u8>)>,
)
    requires
        view_sorted(pre),
        0 <= idx < pre.len(),
        pre[idx].0 == k,
        post == pre.remove(idx),
    ensures
        view_sorted(post),
        !view_contains(post, k),
        forall|k2: Seq<u8>| k2 != k ==> view_contains(post, k2) == view_contains(pre, k2),
        forall|k2: Seq<u8>| k2 != k ==> view_get(post, k2) == view_get(pre, k2),
{
    assert(view_sorted(post));
    if view_contains(post, k) {
        let i = view_index_of(post, k);
        let iorig = if i < idx {
            i
        } else {
            i + 1
        };
        assert(pre[iorig].0 == k);
        if iorig < idx {
            assert(bytes_lt(pre[iorig].0, pre[idx].0));
        } else {
            assert(bytes_lt(pre[idx].0, pre[iorig].0));
        }
        lemma_bytes_lt_asymmetric(k, k);
    }
    assert forall|k2: Seq<u8>| k2 != k implies view_contains(post, k2) == view_contains(pre, k2)
        && view_get(post, k2) == view_get(pre, k2) by {
        if view_contains(pre, k2) {
            let i = view_index_of(pre, k2);
            lemma_view_get_is(pre, k2, i);
            let i2 = if i < idx {
                i
            } else {
                i - 1
            };
            assert(post[i2] == pre[i]);
            lemma_view_get_is(post, k2, i2);
        } else {
            if view_contains(post, k2) {
                let i = view_index_of(post, k2);
                if i < idx {
                    assert(pre[i].0 == k2);
                } else {
                    assert(pre[i + 1].0 == k2);
                }
                assert(view_contains(pre, k2));
            }
        }
    }
}

/// The views of a sequence of databases.
pub open spec fn dbs_views(s: Seq<Db>) -> Seq<Seq<(Seq<u8>, Seq<u8>)>> {
    s.map_values(|d: Db| d@)
}

/// The view of an optional database name.
pub open spec fn opt_name_view(n: Option<&str>) -> Option<Seq<char>> {
    match n {
        Some(s) => Some(s@),
        None => None,
    }
}

/// What the storage engine reports when it fails; a second concurrent
/// writer is never an error (it waits), so there is no variant for it.
#[derive(Clone, Copy, Debug, PartialEq, Eq, Structural)]
pub enum StorageError {
    NotFound,
    AlreadyExists,
    Io,
    Corruption,
}

/// A small, freely copyable reference to one opened database: an index
/// into the environment's registry. Copying a handle never copies data.
#[derive(Clone, Copy, Debug, PartialEq, Eq, Structural)]
pub struct DbHandle {
    pub index: usize,
}

/// An owned copy of one database.
fn copy_db(db: &Db) -> (r: Db)
    ensures
        r@ == db@,
{
    let mut entries: Vec<DbEntry> = Vec::new();
    let mut i: usize = 0;
    while i < db.entries.len()
        invariant
            i <= db.entries@.len(),
            entries@.len() == i,
            forall|j: int| 0 <= j < i ==> #[trigger] entries@[j]@ == db.entries@[j]@,
        decreases db.entries.len() - i,
    {
        let e = DbEntry {
            key: copy_bytes(&db.entries[i].key),
            value: copy_bytes(&db.entries[i].value),
        };
        entries.push(e);
        i += 1;
    }
    let r = Db { entries };
    proof {
        assert(r@ =~= db@);
    }
    r
}

/// An owned copy of every database: the snapshot a read transaction keeps.
fn copy_all_dbs(dbs: &Vec<Db>) -> (r: Vec<Db>)
    ensures
        dbs_views(r@) == dbs_views(dbs@),
{
    let mut r: Vec<Db> = Vec::new();
    let mut i: usize = 0;
    while i < dbs.len()
        invariant
            i <= dbs@.len(),
            r@.len() == i,
            forall|j: int| 0 <= j < i ==> #[trigger] r@[j]@ == dbs@[j]@,
        decreases dbs.len() - i,
    {
        r.push(copy_db(&dbs[i]));
        i += 1;
    }
    proof {
        assert(dbs_views(r@) =~= dbs_views(dbs@));
    }
    r
}

/// The shared environment: a registry of named ordered databases, with at
/// most one read-write transaction open at a time.
#[derive(Debug)]
pub struct Environment {
    pub dbs: Vec<Db>,
    pub names: Vec<Option<String>>,
    pub writer_active: bool,
}

/// A snapshot-isolated read transaction: it owns a copy of the committed
/// state as of its start, so a concurrently open writer cannot reach it.
#[derive(Debug)]
pub struct RoTransaction {
    pub dbs: Vec<Db>,
}

/// The single read-write transaction: it mutates a working copy that the
/// environment only takes over on commit, all of it at once.
#[derive(Debug)]
pub struct RwTransaction {
    pub dbs: Vec<Db>,
}

impl Environment {
    /// The committed contents of every database, by handle index.
    pub open spec fn state(self) -> Seq<Seq<(Seq<u8>, Seq<u8>)>> {
        dbs_views(self.dbs@)
    }

    /// The registered names, by handle index.
    pub open spec fn names_view(self) -> Seq<Option<Seq<char>>> {
        self.names@.map_values(
            |n: Option<String>|
                match n {
                    Some(s) => Some(s@),
                    None => None,
                },
        )
    }

    /// Whether some database is registered under the name.
    pub open spec fn has_name(self, n: Option<Seq<char>>) -> bool {
        exists|i: int| 0 <= i < self.names_view().len() && #[trigger] self.names_view()[i] == n
    }

    /// Every database sorted, one name per database, and no name taken
    /// twice.
    pub open spec fn well_formed(self) -> bool {
        &&& self.dbs@.len() == self.names@.len()
        &&& forall|i: int| 0 <= i < self.dbs@.len() ==> (#[trigger] self.dbs@[i]).well_formed()
        &&& forall|i: int, j: int|
            0 <= i < j < self.names_view().len() ==> #[trigger] self.names_view()[i]
                != #[trigger] self.names_view()[j]
    }

    /// A fresh environment with no databases and no writer.
    pub fn new() -> (r: Environment)
        ensures
            r.well_formed(),
            r.state().len() == 0,
            !r.writer_active,
    {
        Environment { dbs: Vec::new(), names: Vec::new(), writer_active: false }
    }

    /// Whether a read-write transaction may begin right now; a caller
    /// that finds the writer taken waits rather than failing.
    pub fn can_begin_write(&self) -> (r: bool)
        ensures
            r == !self.writer_active,
    {
        !self.writer_active
    }

    /// Opens the database registered under `name`, or registers an empty
    /// one when it is absent and creation is allowed; fails with
    /// `NotFound` when it is absent and creation is disallowed.
    pub fn open_or_create(&mut self, name: Option<&str>, create_if_not_exist: bool) -> (r: Result<
        DbHandle,
        StorageError,
    >)
        requires
            old(self).well_formed(),
        ensures
            final(self).well_formed(),
            final(self).writer_active == old(self).writer_active,
            r matches Ok(h) ==> h.index < final(self).state().len() && final(
                self).names_view()[h.index as int] == opt_name_view(name),
            old(self).has_name(opt_name_view(name)) ==> r is Ok && *final(self) == *old(self),
            !old(self).has_name(opt_name_view(name)) && create_if_not_exist ==> (r matches Ok(h)
                && h.index == old(self).state().len()) && final(self).state() == old(
                self).state().push(Seq::empty()) && final(self).names_view() == old(
                self).names_view().push(opt_name_view(name)),
            !old(self).has_name(opt_name_view(name)) && !create_if_not_exist ==> r == Err::<
                DbHandle,
                StorageError,
            >(StorageError::NotFound) && *final(self) == *old(self),
    {
        let owned: Option<String> = match name {
            Some(s) => Some(s.to_owned()),
            None => None,
        };
        let mut i: usize = 0;
        while i < self.names.len()
            invariant
                self.well_formed(),
                i <= self.names@.len(),
                forall|j: int| 0 <= j < i ==> #[trigger] self.names_view()[j] != opt_name_view(
                    name,
                ),
                opt_name_view(name) == match owned {
                    Some(s) => Some(s@),
                    None => None::<Seq<char>>,
                },
            decreases self.names.len() - i,
        {
            let matched: bool = match (&self.names[i], &owned) {
                (None, None) => true,
                (Some(a), Some(b)) => a.eq(b),
                _ => false,
            };
            if matched {
                assert(self.names_view()[i as int] == opt_name_view(name));
                return Ok(DbHandle { index: i });
            }
            assert(self.names_view()[i as int] != opt_name_view(name));
            i += 1;
        }
        assert(!self.has_name(opt_name_view(name)));
        if !create_if_not_exist {
            return Err(StorageError::NotFound);
        }
        let ghost pre = *self;
        let handle = DbHandle { index: self.dbs.len() };
        self.dbs.push(Db::empty());
        self.names.push(owned);
        proof {
            assert forall|i: int| 0 <= i < self.dbs@.len() implies (#[trigger] self.dbs@[i]).well_formed() by {
                if i < pre.dbs@.len() {
                    assert(self.dbs@[i] == pre.dbs@[i]);
                }
            }
            assert(self.state() =~~= pre.state().push(Seq::empty()));
            assert(self.names_view() =~= pre.names_view().push(opt_name_view(name)));
        }
        Ok(handle)
    }

    /// Starts a snapshot read transaction; any number may be live at
    /// once, each seeing the committed state as of its start.
    pub fn begin_ro_txn(&self) -> (txn: RoTransaction)
        requires
            self.well_formed(),
        ensures
            txn.state() == self.state(),
            state_wf(txn.state()),
    {
        RoTransaction { dbs: copy_all_dbs(&self.dbs) }
    }

    /// Starts the read-write transaction; the caller must hold off while
    /// another writer is open (`can_begin_write`), which serializes all
    /// writers.
    pub fn begin_rw_txn(&mut self) -> (txn: RwTransaction)
        requires
            old(self).well_formed(),
            !old(self).writer_active,
        ensures
            final(self).well_formed(),
            final(self).writer_active,
            final(self).state() == old(self).state(),
            final(self).names_view() == old(self).names_view(),
            txn.state() == old(self).state(),
            state_wf(txn.state()),
    {
        self.writer_active = true;
        proof {
            assert(self.dbs == old(self).dbs);
            assert(self.dbs@.len() == self.names@.len());
            assert forall|i: int| 0 <= i < self.dbs@.len() implies (
            #[trigger] self.dbs@[i]).well_formed() by {
                assert(self.dbs@[i] == old(self).dbs@[i]);
                assert(old(self).dbs@[i].well_formed());
            }
            assert(self.names_view() =~= old(self).names_view());
            assert(self.well_formed());
        }
        RwTransaction { dbs: copy_all_dbs(&self.dbs) }
    }

    /// Commits the read-write transaction: every mutation it holds
    /// becomes the committed state together, in one step.
    pub fn commit(&mut self, txn: RwTransaction)
        requires
            old(self).well_formed(),
            old(self).writer_active,
            state_wf(txn.state()),
            txn.state().len() == old(self).state().len(),
        ensures
            final(self).well_formed(),
            !final(self).writer_active,
            final(self).state() == txn.state(),
            final(self).names_view() == old(self).names_view(),
    {
        proof {
            assert forall|i: int| 0 <= i < txn.dbs@.len() implies (
            #[trigger] txn.dbs@[i]).well_formed() by {
                assert(dbs_views(txn.dbs@)[i] == txn.dbs@[i]@);
                assert(view_sorted(txn.state()[i]));
            }
        }
        let ghost pre = *self;
        let RwTransaction { dbs } = txn;
        self.dbs = dbs;
        self.writer_active = false;
        proof {
            assert(self.names == pre.names);
            assert(self.names_view() =~= pre.names_view());
            assert(self.dbs@.len() == pre.dbs@.len());
            assert(self.well_formed());
        }
    }

    /// Abandons the read-write transaction: the committed state is
    /// exactly what it was, as after a crash before commit.
    pub fn abort(&mut self, txn: RwTransaction)
        requires
            old(self).writer_active,
        ensures
            final(self).dbs == old(self).dbs,
            final(self).names == old(self).names,
            final(self).state() == old(self).state(),
            final(self).names_view() == old(self).names_view(),
            !final(self).writer_active,
            old(self).well_formed() ==> final(self).well_formed(),
    {
        let RwTransaction { dbs: _ } = txn;
        self.writer_active = false;
    }
}

/// A transaction's visible contents are well formed when every database
/// is sorted.
pub open spec fn state_wf(s: Seq<Seq<(Seq<u8>, Seq<u8>)>>) -> bool {
    forall|i: int| 0 <= i < s.len() ==> view_sorted(#[trigger] s[i])
}

/// Read access shared by both transaction kinds, as the storage engine's
/// callers see it.
pub trait ReadTransaction {
    /// The contents this transaction sees, by handle index.
    spec fn state(&self) -> Seq<Seq<(Seq<u8>, Seq<u8>)>>;

    /// How many records the database holds.
    fn db_count(&self, db: DbHandle) -> (r: usize)
        requires
            state_wf(self.state()),
            db.index < self.state().len(),
        ensures
            r == self.state()[db.index as int].len(),
    ;

    /// The value filed under `key`, if present.
    fn db_get(&self, db: DbHandle, key: &Vec<u8>) -> (r: Option<&Vec<u8>>)
        requires
            state_wf(self.state()),
            db.index < self.state().len(),
        ensures
            (r is Some) == view_contains(self.state()[db.index as int], key@),
            match r {
                Some(v) => view_get(self.state()[db.index as int], key@) == Some(v@),
                None => view_get(self.state()[db.index as int], key@) is None,
            },
    ;

    /// Whether `key` is present.
    fn db_contains(&self, db: DbHandle, key: &Vec<u8>) -> (r: bool)
        requires
            state_wf(self.state()),
            db.index < self.state().len(),
        ensures
            r == view_contains(self.state()[db.index as int], key@),
    ;

    /// Every key of the database, in ascending byte order: the restart of
    /// cursor iteration.
    fn db_keys(&self, db: DbHandle) -> (r: Vec<Vec<u8>>)
        requires
            state_wf(self.state()),
            db.index < self.state().len(),
        ensures
            r@.len() == self.state()[db.index as int].len(),
            forall|i: int| 0 <= i < r@.len() ==> #[trigger] r@[i]@ == self.state()[db.index as int][i].0,
    ;
}

impl ReadTransaction for RoTransaction {
    open spec fn state(&self) -> Seq<Seq<(Seq<u8>, Seq<u8>)>> {
        dbs_views(self.dbs@)
    }

    fn db_count(&self, db: DbHandle) -> (r: usize) {
        proof {
            assert(self.state()[db.index as int] == self.dbs@[db.index as int]@);
        }
        self.dbs[db.index].count()
    }

    fn db_get(&self, db: DbHandle, key: &Vec<u8>) -> (r: Option<&Vec<u8>>) {
        proof {
            assert(self.state()[db.index as int] == self.dbs@[db.index as int]@);
        }
        self.dbs[db.index].get(key)
    }

    fn db_contains(&self, db: DbHandle, key: &Vec<u8>) -> (r: bool) {
        proof {
            assert(self.state()[db.index as int] == self.dbs@[db.index as int]@);
        }
        self.dbs[db.index].contains(key)
    }

    fn db_keys(&self, db: DbHandle) -> (r: Vec<Vec<u8>>) {
        proof {
            assert(self.state()[db.index as int] == self.dbs@[db.index as int]@);
        }
        self.dbs[db.index].keys()
    }
}

impl ReadTransaction for RwTransaction {
    open spec fn state(&self) -> Seq<Seq<(Seq<u8>, Seq<u8>)>> {
        dbs_views(self.dbs@)
    }

    fn db_count(&self, db: DbHandle) -> (r: usize) {
        proof {
            assert(self.state()[db.index as int] == self.dbs@[db.index as int]@);
        }
        self.dbs[db.index].count()
    }

    fn db_get(&self, db: DbHandle, key: &Vec<u8>) -> (r: Option<&Vec<u8>>) {
        proof {
            assert(self.state()[db.index as int] == self.dbs@[db.index as int]@);
        }
        self.dbs[db.index].get(key)
    }

    fn db_contains(&self, db: DbHandle, key: &Vec<u8>) -> (r: bool) {
        proof {
            assert(self.state()[db.index as int] == self.dbs@[db.index as int]@);
        }
        self.dbs[db.index].contains(key)
    }

    fn db_keys(&self, db: DbHandle) -> (r: Vec<Vec<u8>>) {
        proof {
            assert(self.state()[db.index as int] == self.dbs@[db.index as int]@);
        }
        self.dbs[db.index].keys()
    }
}

impl RwTransaction {
    /// The working contents this transaction will commit.
    pub open spec fn rw_state(self) -> Seq<Seq<(Seq<u8>, Seq<u8>)>> {
        dbs_views(self.dbs@)
    }

    /// Files `value` under `key` unless present; says whether the key was
    /// actually inserted.
    pub fn db_insert(&mut self, db: DbHandle, key: &Vec<u8>, value: &Vec<u8>) -> (r: bool)
        requires
            state_wf(old(self).state()),
            db.index < old(self).state().len(),
        ensures
            state_wf(final(self).state()),
            final(self).state().len() == old(self).state().len(),
            forall|j: int|
                0 <= j < old(self).state().len() && j != db.index ==> #[trigger] final(self).state()[j] == old(self).state()[j],
            r == !view_contains(old(self).state()[db.index as int], key@),
            view_contains(final(self).state()[db.index as int], key@),
            view_get(final(self).state()[db.index as int], key@) == if view_contains(
                old(self).state()[db.index as int],
                key@,
            ) {
                view_get(old(self).state()[db.index as int], key@)
            } else {
                Some(value@)
            },
            forall|k2: Seq<u8>|
                k2 != key@ ==> view_contains(final(self).state()[db.index as int], k2)
                    == view_contains(old(self).state()[db.index as int], k2),
            forall|k2: Seq<u8>|
                k2 != key@ ==> view_get(final(self).state()[db.index as int], k2) == view_get(
                    old(self).state()[db.index as int],
                    k2,
                ),
            final(self).state()[db.index as int].len() == old(self).state()[db.index as int].len() + if view_contains(old(self).state()[db.index as int], key@) {
                0int
            } else {
                1int
            },
            view_contains(old(self).state()[db.index as int], key@) ==> final(self).state() == old(self).state(),
    {
        let ghost pre = self.dbs@;
        let mut d = self.dbs.remove(db.index);
        let r = d.insert(key, value);
        self.dbs.insert(db.index, d);
        proof {
            lemma_put_back(pre, db.index as int, self.dbs@);
        }
        r
    }

    /// Takes `key` out; says whether the key was present.
    pub fn db_remove(&mut self, db: DbHandle, key: &Vec<u8>) -> (r: bool)
        requires
            state_wf(old(self).state()),
            db.index < old(self).state().len(),
        ensures
            state_wf(final(self).state()),
            final(self).state().len() == old(self).state().len(),
            forall|j: int|
                0 <= j < old(self).state().len() && j != db.index ==> #[trigger] final(self).state()[j] == old(self).state()[j],
            r == view_contains(old(self).state()[db.index as int], key@),
            !view_contains(final(self).state()[db.index as int], key@),
            forall|k2: Seq<u8>|
                k2 != key@ ==> view_contains(final(self).state()[db.index as int], k2)
                    == view_contains(old(self).state()[db.index as int], k2),
            forall|k2: Seq<u8>|
                k2 != key@ ==> view_get(final(self).state()[db.index as int], k2) == view_get(
                    old(self).state()[db.index as int],
                    k2,
                ),
            final(self).state()[db.index as int].len() == old(self).state()[db.index as int].len() - if view_contains(old(self).state()[db.index as int], key@) {
                1int
            } else {
                0int
            },
            !view_contains(old(self).state()[db.index as int], key@) ==> final(self).state()
                == old(self).state(),
    {
        let ghost pre = self.dbs@;
        let mut d = self.dbs.remove(db.index);
        let r = d.remove(key);
        self.dbs.insert(db.index, d);
        proof {
            lemma_put_back(pre, db.index as int, self.dbs@);
        }
        r
    }

    /// Empties the database.
    pub fn db_clear(&mut self, db: DbHandle)
        requires
            state_wf(old(self).state()),
            db.index < old(self).state().len(),
        ensures
            state_wf(final(self).state()),
            final(self).state().len() == old(self).state().len(),
            forall|j: int|
                0 <= j < old(self).state().len() && j != db.index ==> #[trigger] final(self).state()[j] == old(self).state()[j],
            final(self).state()[db.index as int].len() == 0,
            forall|k2: Seq<u8>| !view_contains(final(self).state()[db.index as int], k2),
    {
        let ghost pre = self.dbs@;
        let mut d = self.dbs.remove(db.index);
        d.clear();
        self.dbs.insert(db.index, d);
        proof {
            lemma_put_back(pre, db.index as int, self.dbs@);
        }
    }
}

/// Taking one database out of the registry and putting its successor back
/// at the same position leaves every other slot as it was.
proof fn lemma_put_back(pre: Seq<Db>, i: int, post: Seq<Db>)
    requires
        0 <= i < pre.len(),
        post == pre.remove(i).insert(i, post[i]),
        post.len() == pre.len(),
    ensures
        forall|j: int| 0 <= j < pre.len() && j != i ==> #[trigger] dbs_views(post)[j] == dbs_views(
            pre,
        )[j],
        dbs_views(post).len() == dbs_views(pre).len(),
{
    assert forall|j: int| 0 <= j < pre.len() && j != i implies #[trigger] dbs_views(post)[j]
        == dbs_views(pre)[j] by {
        assert(post[j] == pre[j]);
    }
}

/// Decides whether two keys are the same byte string.
pub fn bytes_equal(a: &Vec<u8>, b: &Vec<u8>) -> (r: bool)
    ensures
        r == (a@ == b@),
{
    if a.len() != b.len() {
        return false;
    }
    let mut i: usize = 0;
    while i < a.len()
        invariant
            a.len() == b.len(),
            i <= a.len(),
            forall|j: int| 0 <= j < i ==> a@[j] == b@[j],
        decreases a.len() - i,
    {
        if a[i] != b[i] {
            return false;
        }
        i += 1;
    }
    proof {
        assert(a@ =~= b@);
    }
    true
}

} // verus!
