//! An in-memory key-value store with column families, single writes and
//! atomic write batches.
use vstd::prelude::*;
use crate::transport::{push_str, string_of};
use vstd::slice::slice_to_vec;

pub mod meta_keys;

verus! {

// ─── Column families ─────────────────────────────────────────────────────────

/// Raw cell data keyed by cell hash.
pub const CF_CELLS: &'static str = "cells";

/// Block header bytes keyed by block hash.
pub const CF_BLOCKS: &'static str = "blocks";

/// Miscellaneous metadata.
pub const CF_META: &'static str = "meta";

/// The name of the cells column family.
pub open spec fn cells_cf() -> Seq<char> {
    seq!['c', 'e', 'l', 'l', 's']
}

/// The name of the blocks column family.
pub open spec fn blocks_cf() -> Seq<char> {
    seq!['b', 'l', 'o', 'c', 'k', 's']
}

/// The name of the metadata column family.
pub open spec fn meta_cf() -> Seq<char> {
    seq!['m', 'e', 't', 'a']
}

fn cf_cells() -> (s: &'static str)
    ensures
        s@ == cells_cf(),
{
    proof {
        reveal_strlit("cells");
    }
    CF_CELLS
}

fn cf_blocks() -> (s: &'static str)
    ensures
        s@ == blocks_cf(),
{
    proof {
        reveal_strlit("blocks");
    }
    CF_BLOCKS
}

fn cf_meta() -> (s: &'static str)
    ensures
        s@ == meta_cf(),
{
    proof {
        reveal_strlit("meta");
    }
    CF_META
}

// ─── Errors ──────────────────────────────────────────────────────────────────

/// Errors of storage operations.
#[derive(Debug, Clone, PartialEq, Eq)]
pub enum DbError {
    /// The requested key was not found.
    NotFound,
    /// The named column family does not exist.
    UnknownColumnFamily(String),
    /// The database is read-only.
    ReadOnly,
    /// Generic I/O or serialisation error.
    Io(String),
}

/// The sentence that describes a storage error.
pub open spec fn db_error_text(e: DbError) -> Seq<char> {
    match e {
        DbError::NotFound => "key not found"@,
        DbError::UnknownColumnFamily(cf) => "unknown column family: "@ + cf@,
        DbError::ReadOnly => "database is read-only"@,
        DbError::Io(msg) => "I/O error: "@ + msg@,
    }
}

impl DbError {
    /// A sentence that describes the error.
    pub fn message(&self) -> (s: String)
        ensures
            s@ == db_error_text(*self),
    {
        match self {
            DbError::NotFound => string_of("key not found"),
            DbError::UnknownColumnFamily(cf) => {
                let mut s = string_of("unknown column family: ");
                push_str(&mut s, cf.as_str());
                s
            },
            DbError::ReadOnly => string_of("database is read-only"),
            DbError::Io(msg) => {
                let mut s = string_of("I/O error: ");
                push_str(&mut s, msg.as_str());
                s
            },
        }
    }
}

/// The result of a storage operation.
pub type DbResult<T> = Result<T, DbError>;

/// The error `r` is `UnknownColumnFamily` naming `cf`.
pub open spec fn unknown_cf<T>(r: DbResult<T>, cf: Seq<char>) -> bool {
    r matches Err(DbError::UnknownColumnFamily(name)) && name@ == cf
}

// ─── Write batch ─────────────────────────────────────────────────────────────

/// One operation of a write batch.
#[derive(Debug, Clone)]
pub enum BatchOp {
    /// Store `value` under `key` in `cf`.
    Put { cf: String, key: Vec<u8>, value: Vec<u8> },
    /// Remove `key` from `cf`.
    Delete { cf: String, key: Vec<u8> },
}

/// The column family an operation writes to.
pub open spec fn op_cf(op: BatchOp) -> Seq<char> {
    match op {
        BatchOp::Put { cf, .. } => cf@,
        BatchOp::Delete { cf, .. } => cf@,
    }
}

/// An ordered collection of operations applied together.
#[derive(Debug, Clone)]
pub struct WriteBatch {
    ops: Vec<BatchOp>,
}

impl View for WriteBatch {
    type V = Seq<BatchOp>;

    closed spec fn view(&self) -> Seq<BatchOp> {
        self.ops@
    }
}

impl WriteBatch {
    /// Creates an empty batch.
    pub fn new() -> (b: WriteBatch)
        ensures
            b@ == Seq::<BatchOp>::empty(),
    {
        WriteBatch { ops: Vec::new() }
    }

    /// Queues a put.
    pub fn put(&mut self, cf: &str, key: Vec<u8>, value: Vec<u8>)
        ensures
            final(self)@.len() == old(self)@.len() + 1,
            final(self)@.subrange(0, old(self)@.len() as int) == old(self)@,
            final(self)@.last() matches BatchOp::Put { cf: c, key: k, value: v } && c@ == cf@ && k@
                == key@ && v@ == value@,
    {
        let ghost before = self.ops@;
        self.ops.push(BatchOp::Put { cf: cf.to_owned(), key, value });
        assert(self.ops@.subrange(0, before.len() as int) =~= before);
    }

    /// Queues a delete.
    pub fn delete(&mut self, cf: &str, key: Vec<u8>)
        ensures
            final(self)@.len() == old(self)@.len() + 1,
            final(self)@.subrange(0, old(self)@.len() as int) == old(self)@,
            final(self)@.last() matches BatchOp::Delete { cf: c, key: k } && c@ == cf@ && k@
                == key@,
    {
        let ghost before = self.ops@;
        self.ops.push(BatchOp::Delete { cf: cf.to_owned(), key });
        assert(self.ops@.subrange(0, before.len() as int) =~= before);
    }

    /// Returns the number of operations in the batch.
    pub fn len(&self) -> (n: usize)
        ensures
            n == self@.len(),
    {
        self.ops.len()
    }

    /// Returns `true` if the batch holds no operations.
    pub fn is_empty(&self) -> (r: bool)
        ensures
            r == (self@.len() == 0),
    {
        self.ops.len() == 0
    }
}

impl Default for WriteBatch {
    fn default() -> (b: Self)
        ensures
            b@ == Seq::<BatchOp>::empty(),
    {
        WriteBatch::new()
    }
}

// ─── Tables ──────────────────────────────────────────────────────────────────

/// The contents of the store: column family name → (key → value).
pub type DbModel = Map<Seq<char>, Map<Seq<u8>, Seq<u8>>>;

/// The map of a list of entries.
pub open spec fn entries_model(e: Seq<(Vec<u8>, Vec<u8>)>) -> Map<Seq<u8>, Seq<u8>>
    decreases e.len(),
{
    if e.len() == 0 {
        Map::empty()
    } else {
        entries_model(e.drop_last()).insert(e.last().0@, e.last().1@)
    }
}

/// The keys of a list of entries are pairwise distinct.
pub open spec fn distinct_keys(e: Seq<(Vec<u8>, Vec<u8>)>) -> bool {
    forall|i: int, j: int| 0 <= i < j < e.len() ==> (#[trigger] e[i]).0@ != (#[trigger] e[j]).0@
}

proof fn lemma_entries_model_index(e: Seq<(Vec<u8>, Vec<u8>)>)
    requires
        distinct_keys(e),
    ensures
        forall|k: Seq<u8>| #[trigger] entries_model(e).dom().contains(k) <==> exists|i: int|
            0 <= i < e.len() && e[i].0@ == k,
        forall|i: int| 0 <= i < e.len() ==> #[trigger] entries_model(e)[e[i].0@] == e[i].1@,
        entries_model(e).dom().finite(),
        entries_model(e).dom().len() == e.len(),
    decreases e.len(),
{
    if e.len() > 0 {
        let t = e.drop_last();
        assert(distinct_keys(t)) by {
            assert forall|i: int, j: int| 0 <= i < j < t.len() implies (#[trigger] t[i]).0@ != (
            #[trigger] t[j]).0@ by {
                assert(t[i] == e[i] && t[j] == e[j]);
            }
        }
        lemma_entries_model_index(t);
        let m = entries_model(t);
        let last = e.last();
        assert(!m.dom().contains(last.0@)) by {
            if m.dom().contains(last.0@) {
                let i = choose|i: int| 0 <= i < t.len() && t[i].0@ == last.0@;
                assert(e[i].0@ != e[e.len() - 1].0@);
            }
        }
        assert forall|k: Seq<u8>| #[trigger] entries_model(e).dom().contains(k) <==> exists|i: int|
            0 <= i < e.len() && e[i].0@ == k by {
            if m.dom().contains(k) {
                let i = choose|i: int| 0 <= i < t.len() && t[i].0@ == k;
                assert(e[i] == t[i]);
            }
            if exists|i: int| 0 <= i < e.len() && e[i].0@ == k {
                let i = choose|i: int| 0 <= i < e.len() && e[i].0@ == k;
                if i < t.len() {
                    assert(t[i] == e[i]);
                }
            }
        }
        assert forall|i: int| 0 <= i < e.len() implies #[trigger] entries_model(e)[e[i].0@] == e[i].1@ by {
            if i < t.len() {
                assert(t[i] == e[i]);
                assert(e[i].0@ != last.0@);
                assert(m[t[i].0@] == t[i].1@);
            }
        }
    }
}

/// Byte strings are equal.
fn bytes_eq(a: &[u8], b: &[u8]) -> (r: bool)
    ensures
        r == (a@ == b@),
{
    if a.len() != b.len() {
        return false;
    }
    let mut i: usize = 0;
    while i < a.len()
        invariant
            a@.len() == b@.len(),
            i <= a@.len(),
            forall|j: int| 0 <= j < i ==> a@[j] == b@[j],
        decreases a@.len() - i,
    {
        if a[i] != b[i] {
            return false;
        }
        i = i + 1;
    }
    assert(a@ =~= b@);
    true
}

/// The position of `key` among the entries, if present.
fn find_entry(e: &Vec<(Vec<u8>, Vec<u8>)>, key: &[u8]) -> (r: Option<usize>)
    ensures
        match r {
            Some(i) => i < e@.len() && e@[i as int].0@ == key@,
            None => forall|i: int| 0 <= i < e@.len() ==> (#[trigger] e@[i]).0@ != key@,
        },
{
    let mut i: usize = 0;
    while i < e.len()
        invariant
            i <= e@.len(),
            forall|j: int| 0 <= j < i ==> (#[trigger] e@[j]).0@ != key@,
        decreases e@.len() - i,
    {
        if bytes_eq(e[i].0.as_slice(), key) {
            return Some(i);
        }
        i = i + 1;
    }
    None
}

/// One column family: its name and its entries.
#[derive(Debug)]
struct ColumnFamily {
    name: String,
    entries: Vec<(Vec<u8>, Vec<u8>)>,
}

/// Stores `value` under `key` in a list of entries with distinct keys.
fn table_put(e: &mut Vec<(Vec<u8>, Vec<u8>)>, key: Vec<u8>, value: Vec<u8>)
    requires
        distinct_keys(old(e)@),
    ensures
        distinct_keys(final(e)@),
        entries_model(final(e)@) == entries_model(old(e)@).insert(key@, value@),
{
    proof {
        lemma_entries_model_index(e@);
    }
    match find_entry(e, key.as_slice()) {
        Some(i) => {
            let ghost old_e = e@;
            e.set(i, (key, value));
            proof {
                let new_e = e@;
                assert(distinct_keys(new_e)) by {
                    assert forall|a: int, b: int| 0 <= a < b < new_e.len() implies (
                    #[trigger] new_e[a]).0@ != (#[trigger] new_e[b]).0@ by {
                        if a != i && b != i {
                            assert(new_e[a] == old_e[a] && new_e[b] == old_e[b]);
                        } else if a == i {
                            assert(new_e[b] == old_e[b]);
                            assert(old_e[a].0@ != old_e[b].0@);
                        } else {
                            assert(new_e[a] == old_e[a]);
                            assert(old_e[a].0@ != old_e[b].0@);
                        }
                    }
                }
                lemma_entries_model_index(new_e);
                let m1 = entries_model(new_e);
                let m2 = entries_model(old_e).insert(key@, value@);
                assert forall|k: Seq<u8>| m1.dom().contains(k) <==> m2.dom().contains(k) by {
                    if m1.dom().contains(k) {
                        let j = choose|j: int| 0 <= j < new_e.len() && new_e[j].0@ == k;
                        if j != i {
                            assert(new_e[j] == old_e[j]);
                        }
                    }
                    if m2.dom().contains(k) && k != key@ {
                        let j = choose|j: int| 0 <= j < old_e.len() && old_e[j].0@ == k;
                        assert(j != i);
                        assert(new_e[j] == old_e[j]);
                    }
                    if k == key@ {
                        assert(new_e[i as int].0@ == key@);
                    }
                }
                assert forall|k: Seq<u8>| m1.dom().contains(k) implies m1[k] == m2[k] by {
                    let j = choose|j: int| 0 <= j < new_e.len() && new_e[j].0@ == k;
                    if j != i {
                        assert(new_e[j] == old_e[j]);
                        assert(old_e[j].0@ != old_e[i as int].0@);
                    }
                }
                assert(m1 =~= m2);
            }
        },
        None => {
            let ghost old_e = e@;
            e.push((key, value));
            proof {
                assert(e@.drop_last() =~= old_e);
                assert(distinct_keys(e@)) by {
                    assert forall|a: int, b: int| 0 <= a < b < e@.len() implies (
                    #[trigger] e@[a]).0@ != (#[trigger] e@[b]).0@ by {
                        if b < old_e.len() {
                            assert(e@[a] == old_e[a] && e@[b] == old_e[b]);
                        } else {
                            assert(e@[a] == old_e[a]);
                        }
                    }
                }
            }
        },
    }
}

/// Removes `key` from a list of entries with distinct keys.
fn table_remove(e: &mut Vec<(Vec<u8>, Vec<u8>)>, key: &[u8])
    requires
        distinct_keys(old(e)@),
    ensures
        distinct_keys(final(e)@),
        entries_model(final(e)@) == entries_model(old(e)@).remove(key@),
{
    proof {
        lemma_entries_model_index(e@);
    }
    match find_entry(e, key) {
        Some(i) => {
            let ghost old_e = e@;
            e.remove(i);
            proof {
                let new_e = e@;
                assert(new_e =~= old_e.remove(i as int));
                assert(distinct_keys(new_e)) by {
                    assert forall|a: int, b: int| 0 <= a < b < new_e.len() implies (
                    #[trigger] new_e[a]).0@ != (#[trigger] new_e[b]).0@ by {
                        let a1 = if a < i { a } else { a + 1 };
                        let b1 = if b < i { b } else { b + 1 };
                        assert(old_e[a1].0@ != old_e[b1].0@);
                    }
                }
                lemma_entries_model_index(new_e);
                let m1 = entries_model(new_e);
                let m2 = entries_model(old_e).remove(key@);
                assert forall|k: Seq<u8>| m1.dom().contains(k) <==> m2.dom().contains(k) by {
                    if m1.dom().contains(k) {
                        let j = choose|j: int| 0 <= j < new_e.len() && new_e[j].0@ == k;
                        let j1 = if j < i { j } else { j + 1 };
                        assert(new_e[j] == old_e[j1]);
                        assert(old_e[j1].0@ != old_e[i as int].0@);
                    }
                    if m2.dom().contains(k) {
                        let j = choose|j: int| 0 <= j < old_e.len() && old_e[j].0@ == k;
                        assert(j != i);
                        let j0 = if j < i { j } else { j - 1 };
                        assert(new_e[j0] == old_e[j]);
                    }
                }
                assert forall|k: Seq<u8>| m1.dom().contains(k) implies m1[k] == m2[k] by {
                    let j = choose|j: int| 0 <= j < new_e.len() && new_e[j].0@ == k;
                    let j1 = if j < i { j } else { j + 1 };
                    assert(new_e[j] == old_e[j1]);
                }
                assert(m1 =~= m2);
            }
        },
        None => {
            proof {
                assert(!entries_model(e@).dom().contains(key@));
                assert(entries_model(e@).remove(key@) =~= entries_model(e@));
            }
        },
    }
}

// ─── The store ───────────────────────────────────────────────────────────────

/// The value under `key` in `cf`: `None` for an unknown column family,
/// `Some(None)` for a missing key.
pub open spec fn lookup(m: DbModel, cf: Seq<char>, key: Seq<u8>) -> Option<Option<Seq<u8>>> {
    if !m.contains_key(cf) {
        None
    } else if !m[cf].contains_key(key) {
        Some(None)
    } else {
        Some(Some(m[cf][key]))
    }
}

/// The store after one batch operation, whose column family exists.
pub open spec fn apply_op(m: DbModel, op: BatchOp) -> DbModel {
    match op {
        BatchOp::Put { cf, key, value } => m.insert(cf@, m[cf@].insert(key@, value@)),
        BatchOp::Delete { cf, key } => m.insert(cf@, m[cf@].remove(key@)),
    }
}

/// The store after a sequence of batch operations, in order.
pub open spec fn apply_ops(m: DbModel, ops: Seq<BatchOp>) -> DbModel
    decreases ops.len(),
{
    if ops.len() == 0 {
        m
    } else {
        apply_op(apply_ops(m, ops.drop_last()), ops.last())
    }
}

/// The first operation naming a column family the store lacks, if any.
pub open spec fn first_unknown_cf(m: DbModel, ops: Seq<BatchOp>) -> Option<int> {
    if exists|i: int| 0 <= i < ops.len() && !m.contains_key(op_cf(#[trigger] ops[i])) {
        Some(
            choose|i: int|
                0 <= i < ops.len() && !m.contains_key(op_cf(#[trigger] ops[i])) && forall|j: int|
                    0 <= j < i ==> m.contains_key(op_cf(#[trigger] ops[j])),
        )
    } else {
        None
    }
}

/// An in-memory key-value store with column families.
#[derive(Debug)]
pub struct MemDb {
    cfs: Vec<ColumnFamily>,
    read_only: bool,
}

impl View for MemDb {
    type V = DbModel;

    closed spec fn view(&self) -> DbModel {
        Map::new(
            |name: Seq<char>| exists|i: int| 0 <= i < self.cfs@.len() && self.cfs@[i].name@ == name,
            |name: Seq<char>|
                entries_model(
                    self.cfs@[choose|i: int|
                        0 <= i < self.cfs@.len() && self.cfs@[i].name@ == name].entries@,
                ),
        )
    }
}

impl MemDb {
    /// Whether writes are refused.
    pub closed spec fn is_read_only(&self) -> bool {
        self.read_only
    }

    /// Column family names are distinct and each family's keys are distinct.
    pub closed spec fn wf(&self) -> bool {
        &&& forall|i: int, j: int|
            0 <= i < j < self.cfs@.len() ==> (#[trigger] self.cfs@[i]).name@ != (
            #[trigger] self.cfs@[j]).name@
        &&& forall|i: int| 0 <= i < self.cfs@.len() ==> distinct_keys((#[trigger] self.cfs@[i]).entries@)
    }

    proof fn lemma_view_at(&self, i: int)
        requires
            self.wf(),
            0 <= i < self.cfs@.len(),
        ensures
            self@.contains_key(self.cfs@[i].name@),
            self@[self.cfs@[i].name@] == entries_model(self.cfs@[i].entries@),
    {
        let name = self.cfs@[i].name@;
        let c = choose|j: int| 0 <= j < self.cfs@.len() && self.cfs@[j].name@ == name;
        if c != i {
            if c < i {
                assert(self.cfs@[c].name@ != self.cfs@[i].name@);
            } else {
                assert(self.cfs@[i].name@ != self.cfs@[c].name@);
            }
        }
    }

    /// The index of a column family by name.
    fn find_cf(&self, cf: &str) -> (r: Option<usize>)
        requires
            self.wf(),
        ensures
            match r {
                Some(i) => i < self.cfs@.len() && self.cfs@[i as int].name@ == cf@
                    && self@.contains_key(cf@) && self@[cf@] == entries_model(
                    self.cfs@[i as int].entries@,
                ),
                None => !self@.contains_key(cf@),
            },
    {
        let name = cf.to_owned();
        let mut i: usize = 0;
        while i < self.cfs.len()
            invariant
                self.wf(),
                name@ == cf@,
                i <= self.cfs@.len(),
                forall|j: int| 0 <= j < i ==> (#[trigger] self.cfs@[j]).name@ != cf@,
            decreases self.cfs@.len() - i,
        {
            if self.cfs[i].name == name {
                proof {
                    self.lemma_view_at(i as int);
                }
                return Some(i);
            }
            i = i + 1;
        }
        None
    }

    fn with_families(read_only: bool) -> (db: MemDb)
        ensures
            db.wf(),
            db.is_read_only() == read_only,
            db@ == standard_families(),
    {
        let mut cfs: Vec<ColumnFamily> = Vec::new();
        cfs.push(ColumnFamily { name: cf_cells().to_owned(), entries: Vec::new() });
        cfs.push(ColumnFamily { name: cf_blocks().to_owned(), entries: Vec::new() });
        cfs.push(ColumnFamily { name: cf_meta().to_owned(), entries: Vec::new() });
        let db = MemDb { cfs, read_only };
        proof {
            let e: Seq<(Vec<u8>, Vec<u8>)> = Seq::empty();
            assert(entries_model(e) =~= Map::<Seq<u8>, Seq<u8>>::empty());
            assert(cells_cf() != blocks_cf() && cells_cf()[0] != meta_cf()[0] && blocks_cf()[0]
                != meta_cf()[0]);
            assert(db.wf());
            db.lemma_view_at(0);
            db.lemma_view_at(1);
            db.lemma_view_at(2);
            assert(db@ =~= standard_families());
        }
        db
    }

    /// Creates a store with the three standard column families, all empty.
    pub fn open() -> (db: MemDb)
        ensures
            db.wf(),
            !db.is_read_only(),
            db@ == standard_families(),
    {
        MemDb::with_families(false)
    }

    /// Creates a read-only store: every write is refused with `ReadOnly`.
    pub fn open_read_only() -> (db: MemDb)
        ensures
            db.wf(),
            db.is_read_only(),
            db@ == standard_families(),
    {
        MemDb::with_families(true)
    }

    /// Reads the value under `key` in `cf`.
    pub fn get(&self, cf: &str, key: &[u8]) -> (r: DbResult<Vec<u8>>)
        requires
            self.wf(),
        ensures
            match lookup(self@, cf@, key@) {
                None => unknown_cf(r, cf@),
                Some(None) => r == Err::<Vec<u8>, DbError>(DbError::NotFound),
                Some(Some(v)) => r matches Ok(x) && x@ == v,
            },
    {
        let i = match self.find_cf(cf) {
            Some(i) => i,
            None => return Err(DbError::UnknownColumnFamily(cf.to_owned())),
        };
        proof {
            lemma_entries_model_index(self.cfs@[i as int].entries@);
        }
        match find_entry(&self.cfs[i].entries, key) {
            Some(j) => Ok(slice_to_vec(self.cfs[i].entries[j].1.as_slice())),
            None => Err(DbError::NotFound),
        }
    }

    /// Replaces the entries of family `i`.
    fn replace_entries(&mut self, i: usize, entries: Vec<(Vec<u8>, Vec<u8>)>)
        requires
            old(self).wf(),
            i < old(self).cfs@.len(),
            distinct_keys(entries@),
        ensures
            final(self).wf(),
            final(self).is_read_only() == old(self).is_read_only(),
            final(self)@ == old(self)@.insert(old(self).cfs@[i as int].name@, entries_model(entries@)),
    {
        let ghost old_cfs = self.cfs@;
        proof {
            old(self).lemma_view_at(i as int);
        }
        let name = self.cfs[i].name.clone();
        self.cfs.set(i, ColumnFamily { name, entries });
        proof {
            assert forall|a: int, b: int| 0 <= a < b < self.cfs@.len() implies (
            #[trigger] self.cfs@[a]).name@ != (#[trigger] self.cfs@[b]).name@ by {
                assert(self.cfs@[a].name@ == old_cfs[a].name@);
                assert(self.cfs@[b].name@ == old_cfs[b].name@);
            }
            assert(self.wf());
            let n = old_cfs[i as int].name@;
            let m1 = self@;
            let m2 = old(self)@.insert(n, entries_model(entries@));
            assert forall|k: Seq<char>| m1.contains_key(k) <==> m2.contains_key(k) by {
                if m1.contains_key(k) {
                    let j = choose|j: int| 0 <= j < self.cfs@.len() && self.cfs@[j].name@ == k;
                    assert(self.cfs@[j].name@ == old_cfs[j].name@);
                    old(self).lemma_view_at(j);
                }
                if k == n {
                    self.lemma_view_at(i as int);
                }
                if m2.contains_key(k) && k != n {
                    let j = choose|j: int| 0 <= j < old_cfs.len() && old_cfs[j].name@ == k;
                    self.lemma_view_at(j);
                }
            }
            assert forall|k: Seq<char>| m1.contains_key(k) implies m1[k] == m2[k] by {
                let j = choose|j: int| 0 <= j < self.cfs@.len() && self.cfs@[j].name@ == k;
                self.lemma_view_at(j);
                if j != i {
                    old(self).lemma_view_at(j);
                    assert(self.cfs@[j] == old_cfs[j]);
                }
            }
            assert(m1 =~= m2);
        }
    }

    /// Writes `value` under `key` in `cf`. Fails with `ReadOnly` on a
    /// read-only store, else with `UnknownColumnFamily` for an unknown
    /// family; neither changes anything.
    pub fn put(&mut self, cf: &str, key: Vec<u8>, value: Vec<u8>) -> (r: DbResult<()>)
        requires
            old(self).wf(),
        ensures
            final(self).wf(),
            final(self).is_read_only() == old(self).is_read_only(),
            old(self).is_read_only() ==> r == Err::<(), DbError>(DbError::ReadOnly) && final(self)@
                == old(self)@,
            !old(self).is_read_only() && !old(self)@.contains_key(cf@) ==> unknown_cf(r, cf@)
                && final(self)@ == old(self)@,
            !old(self).is_read_only() && old(self)@.contains_key(cf@) ==> r is Ok && final(self)@
                == old(self)@.insert(cf@, old(self)@[cf@].insert(key@, value@)),
    {
        if self.read_only {
            return Err(DbError::ReadOnly);
        }
        let i = match self.find_cf(cf) {
            Some(i) => i,
            None => return Err(DbError::UnknownColumnFamily(cf.to_owned())),
        };
        let mut entries = self.take_entries(i);
        table_put(&mut entries, key, value);
        self.replace_entries(i, entries);
        Ok(())
    }

    /// A copy of the entries of family `i`.
    fn take_entries(&self, i: usize) -> (e: Vec<(Vec<u8>, Vec<u8>)>)
        requires
            self.wf(),
            i < self.cfs@.len(),
        ensures
            distinct_keys(e@),
            entries_model(e@) == entries_model(self.cfs@[i as int].entries@),
    {
        let src = &self.cfs[i].entries;
        let mut e: Vec<(Vec<u8>, Vec<u8>)> = Vec::new();
        let mut k: usize = 0;
        while k < src.len()
            invariant
                k <= src@.len(),
                src@ == self.cfs@[i as int].entries@,
                distinct_keys(src@),
                e@.len() == k,
                forall|j: int| 0 <= j < k ==> (#[trigger] e@[j]).0@ == src@[j].0@ && e@[j].1@ == src@[j].1@,
            decreases src@.len() - k,
        {
            let key = slice_to_vec(src[k].0.as_slice());
            let value = slice_to_vec(src[k].1.as_slice());
            e.push((key, value));
            k = k + 1;
        }
        proof {
            assert(distinct_keys(e@)) by {
                assert forall|a: int, b: int| 0 <= a < b < e@.len() implies (#[trigger] e@[a]).0@ != (
                #[trigger] e@[b]).0@ by {
                    assert(src@[a].0@ != src@[b].0@);
                }
            }
            lemma_entries_model_index(e@);
            lemma_entries_model_index(src@);
            let m1 = entries_model(e@);
            let m2 = entries_model(src@);
            assert forall|key: Seq<u8>| m1.contains_key(key) <==> m2.contains_key(key) by {
                if m1.contains_key(key) {
                    let j = choose|j: int| 0 <= j < e@.len() && e@[j].0@ == key;
                    assert(src@[j].0@ == key);
                }
                if m2.contains_key(key) {
                    let j = choose|j: int| 0 <= j < src@.len() && src@[j].0@ == key;
                    assert(e@[j].0@ == key);
                }
            }
            assert forall|key: Seq<u8>| m1.contains_key(key) implies m1[key] == m2[key] by {
                let j = choose|j: int| 0 <= j < e@.len() && e@[j].0@ == key;
                assert(m1[e@[j].0@] == e@[j].1@);
                assert(m2[src@[j].0@] == src@[j].1@);
            }
            assert(m1 =~= m2);
        }
        e
    }

    /// Removes `key` from `cf` (doing nothing when it is absent). Fails
    /// with `ReadOnly` or `UnknownColumnFamily`, changing nothing.
    pub fn delete(&mut self, cf: &str, key: &[u8]) -> (r: DbResult<()>)
        requires
            old(self).wf(),
        ensures
            final(self).wf(),
            final(self).is_read_only() == old(self).is_read_only(),
            old(self).is_read_only() ==> r == Err::<(), DbError>(DbError::ReadOnly) && final(self)@
                == old(self)@,
            !old(self).is_read_only() && !old(self)@.contains_key(cf@) ==> unknown_cf(r, cf@)
                && final(self)@ == old(self)@,
            !old(self).is_read_only() && old(self)@.contains_key(cf@) ==> r is Ok && final(self)@
                == old(self)@.insert(cf@, old(self)@[cf@].remove(key@)),
    {
        if self.read_only {
            return Err(DbError::ReadOnly);
        }
        let i = match self.find_cf(cf) {
            Some(i) => i,
            None => return Err(DbError::UnknownColumnFamily(cf.to_owned())),
        };
        let mut entries = self.take_entries(i);
        table_remove(&mut entries, key);
        self.replace_entries(i, entries);
        Ok(())
    }

    /// Applies a batch atomically: on a read-only store it fails with
    /// `ReadOnly`; if any operation names an unknown column family it fails
    /// with `UnknownColumnFamily` for the first such one; in both cases
    /// nothing is written. Otherwise every operation is applied in order.
    pub fn write_batch(&mut self, batch: WriteBatch) -> (r: DbResult<()>)
        requires
            old(self).wf(),
        ensures
            final(self).wf(),
            final(self).is_read_only() == old(self).is_read_only(),
            old(self).is_read_only() ==> r == Err::<(), DbError>(DbError::ReadOnly) && final(self)@
                == old(self)@,
            !old(self).is_read_only() ==> match first_unknown_cf(old(self)@, batch@) {
                Some(i) => unknown_cf(r, op_cf(batch@[i])) && final(self)@ == old(self)@,
                None => r is Ok && final(self)@ == apply_ops(old(self)@, batch@),
            },
    {
        if self.read_only {
            return Err(DbError::ReadOnly);
        }
        let ops = batch.ops;
        let mut i: usize = 0;
        while i < ops.len()
            invariant
                self.wf(),
                *self == *old(self),
                !self.read_only,
                i <= ops@.len(),
                ops@ == batch@,
                forall|j: int| 0 <= j < i ==> self@.contains_key(op_cf(#[trigger] ops@[j])),
            decreases ops@.len() - i,
        {
            let name = match &ops[i] {
                BatchOp::Put { cf, .. } => cf,
                BatchOp::Delete { cf, .. } => cf,
            };
            if self.find_cf(name.as_str()).is_none() {
                proof {
                    assert(!self@.contains_key(op_cf(ops@[i as int])));
                    let f = first_unknown_cf(old(self)@, batch@);
                    let c = choose|c: int|
                        0 <= c < batch@.len() && !old(self)@.contains_key(op_cf(#[trigger] batch@[c]))
                            && forall|j: int| 0 <= j < c ==> old(self)@.contains_key(op_cf(#[trigger] batch@[j]));
                    assert(f == Some(c));
                    if c < i {
                        assert(self@.contains_key(op_cf(ops@[c])));
                    }
                    if c > i {
                        assert(old(self)@.contains_key(op_cf(batch@[i as int])));
                    }
                    assert(c == i);
                }
                return Err(DbError::UnknownColumnFamily(name.clone()));
            }
            i = i + 1;
        }
        proof {
            assert(first_unknown_cf(old(self)@, batch@) is None);
        }
        let n = ops.len();
        let mut k: usize = 0;
        let ghost all = ops@;
        while k < n
            invariant
                self.wf(),
                self.is_read_only() == old(self).is_read_only(),
                !self.is_read_only(),
                k <= n,
                n == all.len(),
                all == batch@,
                ops@ == all,
                forall|j: int| 0 <= j < n ==> old(self)@.contains_key(op_cf(#[trigger] all[j])),
                self@ == apply_ops(old(self)@, all.subrange(0, k as int)),
                self@.dom() == old(self)@.dom(),
            decreases n - k,
        {
            proof {
                assert(all.subrange(0, k + 1).drop_last() =~= all.subrange(0, k as int));
                assert(self@.contains_key(op_cf(all[k as int])));
            }
            let ghost before = self@;
            match &ops[k] {
                BatchOp::Put { cf, key, value } => {
                    let _ = self.put(
                        cf.as_str(),
                        slice_to_vec(key.as_slice()),
                        slice_to_vec(value.as_slice()),
                    );
                },
                BatchOp::Delete { cf, key } => {
                    let _ = self.delete(cf.as_str(), key.as_slice());
                },
            }
            proof {
                assert(self@.dom() =~= before.dom());
            }
            k = k + 1;
        }
        assert(all.subrange(0, n as int) =~= all);
        Ok(())
    }

    /// Returns `true` iff `key` is present in `cf`.
    pub fn key_exists(&self, cf: &str, key: &[u8]) -> (r: bool)
        requires
            self.wf(),
        ensures
            r == (lookup(self@, cf@, key@) matches Some(Some(_))),
    {
        match self.find_cf(cf) {
            Some(i) => {
                proof {
                    lemma_entries_model_index(self.cfs@[i as int].entries@);
                }
                find_entry(&self.cfs[i].entries, key).is_some()
            },
            None => false,
        }
    }

    /// Returns the number of entries in `cf` (0 for an unknown family).
    pub fn count(&self, cf: &str) -> (n: usize)
        requires
            self.wf(),
        ensures
            n == if self@.contains_key(cf@) {
                self@[cf@].dom().len()
            } else {
                0
            },
    {
        match self.find_cf(cf) {
            Some(i) => {
                proof {
                    lemma_entries_model_index(self.cfs@[i as int].entries@);
                }
                self.cfs[i].entries.len()
            },
            None => 0,
        }
    }

    /// Stores a raw cell blob keyed by its hash.
    pub fn put_cell(&mut self, hash: &[u8; 32], data: &[u8]) -> (r: DbResult<()>)
        requires
            old(self).wf(),
        ensures
            final(self).wf(),
            final(self).is_read_only() == old(self).is_read_only(),
            old(self).is_read_only() ==> r == Err::<(), DbError>(DbError::ReadOnly) && final(self)@
                == old(self)@,
            !old(self).is_read_only() && !old(self)@.contains_key(cells_cf()) ==> unknown_cf(
                r,
                cells_cf(),
            ) && final(self)@ == old(self)@,
            !old(self).is_read_only() && old(self)@.contains_key(cells_cf()) ==> r is Ok
                && final(self)@ == old(self)@.insert(
                cells_cf(),
                old(self)@[cells_cf()].insert(hash@, data@),
            ),
    {
        self.put(cf_cells(), slice_to_vec(hash.as_slice()), slice_to_vec(data))
    }

    /// Reads a raw cell blob by its hash.
    pub fn get_cell(&self, hash: &[u8; 32]) -> (r: DbResult<Vec<u8>>)
        requires
            self.wf(),
        ensures
            match lookup(self@, cells_cf(), hash@) {
                None => unknown_cf(r, cells_cf()),
                Some(None) => r == Err::<Vec<u8>, DbError>(DbError::NotFound),
                Some(Some(v)) => r matches Ok(x) && x@ == v,
            },
    {
        self.get(cf_cells(), hash.as_slice())
    }

    /// Stores a raw block header blob keyed by its hash.
    pub fn put_block(&mut self, hash: &[u8; 32], data: &[u8]) -> (r: DbResult<()>)
        requires
            old(self).wf(),
        ensures
            final(self).wf(),
            final(self).is_read_only() == old(self).is_read_only(),
            old(self).is_read_only() ==> r == Err::<(), DbError>(DbError::ReadOnly) && final(self)@
                == old(self)@,
            !old(self).is_read_only() && !old(self)@.contains_key(blocks_cf()) ==> unknown_cf(
                r,
                blocks_cf(),
            ) && final(self)@ == old(self)@,
            !old(self).is_read_only() && old(self)@.contains_key(blocks_cf()) ==> r is Ok
                && final(self)@ == old(self)@.insert(
                blocks_cf(),
                old(self)@[blocks_cf()].insert(hash@, data@),
            ),
    {
        self.put(cf_blocks(), slice_to_vec(hash.as_slice()), slice_to_vec(data))
    }

    /// Reads a raw block header blob by its hash.
    pub fn get_block(&self, hash: &[u8; 32]) -> (r: DbResult<Vec<u8>>)
        requires
            self.wf(),
        ensures
            match lookup(self@, blocks_cf(), hash@) {
                None => unknown_cf(r, blocks_cf()),
                Some(None) => r == Err::<Vec<u8>, DbError>(DbError::NotFound),
                Some(Some(v)) => r matches Ok(x) && x@ == v,
            },
    {
        self.get(cf_blocks(), hash.as_slice())
    }

    /// Writes a metadata value.
    pub fn put_meta(&mut self, key: &[u8], value: &[u8]) -> (r: DbResult<()>)
        requires
            old(self).wf(),
        ensures
            final(self).wf(),
            final(self).is_read_only() == old(self).is_read_only(),
            old(self).is_read_only() ==> r == Err::<(), DbError>(DbError::ReadOnly) && final(self)@
                == old(self)@,
            !old(self).is_read_only() && !old(self)@.contains_key(meta_cf()) ==> unknown_cf(
                r,
                meta_cf(),
            ) && final(self)@ == old(self)@,
            !old(self).is_read_only() && old(self)@.contains_key(meta_cf()) ==> r is Ok
                && final(self)@ == old(self)@.insert(
                meta_cf(),
                old(self)@[meta_cf()].insert(key@, value@),
            ),
    {
        self.put(cf_meta(), slice_to_vec(key), slice_to_vec(value))
    }

    /// Reads a metadata value.
    pub fn get_meta(&self, key: &[u8]) -> (r: DbResult<Vec<u8>>)
        requires
            self.wf(),
        ensures
            match lookup(self@, meta_cf(), key@) {
                None => unknown_cf(r, meta_cf()),
                Some(None) => r == Err::<Vec<u8>, DbError>(DbError::NotFound),
                Some(Some(v)) => r matches Ok(x) && x@ == v,
            },
    {
        self.get(cf_meta(), key)
    }
}

/// The three standard column families, all empty.
pub open spec fn standard_families() -> DbModel {
    Map::<Seq<char>, Map<Seq<u8>, Seq<u8>>>::empty().insert(cells_cf(), Map::empty()).insert(
        blocks_cf(),
        Map::empty(),
    ).insert(meta_cf(), Map::empty())
}

/// A read after a write in the same family gives the written value, and
/// leaves every other key as it was.
pub proof fn lemma_read_after_write(m: DbModel, cf: Seq<char>, key: Seq<u8>, value: Seq<u8>)
    requires
        m.contains_key(cf),
    ensures
        lookup(m.insert(cf, m[cf].insert(key, value)), cf, key) == Some(Some(value)),
        forall|c: Seq<char>, k: Seq<u8>|
            !(c == cf && k == key) ==> lookup(m.insert(cf, m[cf].insert(key, value)), c, k)
                == #[trigger] lookup(m, c, k),
{
}

/// A read after a delete finds nothing, and leaves every other key as it was.
pub proof fn lemma_read_after_delete(m: DbModel, cf: Seq<char>, key: Seq<u8>)
    requires
        m.contains_key(cf),
    ensures
        lookup(m.insert(cf, m[cf].remove(key)), cf, key) == Some(None::<Seq<u8>>),
        forall|c: Seq<char>, k: Seq<u8>|
            !(c == cf && k == key) ==> lookup(m.insert(cf, m[cf].remove(key)), c, k)
                == #[trigger] lookup(m, c, k),
{
}

} // verus!
