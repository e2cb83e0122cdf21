//! Bag-of-Cells: cells of at most 128 data bytes and 4 child references,
//! hashed over their data and their sorted child hashes, stored by hash in a
//! bag whose Merkle paths can be generated and checked.
use vstd::prelude::*;
use crate::transport::{decimal_string, push_decimal, push_hex_byte, push_str, spec_hex_encode, string_of};
use vstd::relations::{sorted_by, total_ordering};
use crate::block::hash_views;
use crate::bytemap::ByteMap;
use crate::pow::{hash_eq, push_hash, sha256, spec_sha256};

verus! {

broadcast use vstd::seq_lib::group_to_multiset_ensures;

/// Maximum bytes of raw data per cell.
pub const MAX_CELL_DATA_BYTES: usize = 128;

/// Maximum number of child references per cell.
pub const MAX_CELL_REFS: usize = 4;

// ─── Byte-string order ───────────────────────────────────────────────────────

/// Lexicographic order on byte strings (a proper prefix comes first).
pub open spec fn bytes_le(a: Seq<u8>, b: Seq<u8>) -> bool
    decreases a.len(),
{
    if a.len() == 0 {
        true
    } else if b.len() == 0 {
        false
    } else if a[0] != b[0] {
        a[0] < b[0]
    } else {
        bytes_le(a.drop_first(), b.drop_first())
    }
}

/// The lexicographic order as a relation.
pub open spec fn bytes_order() -> spec_fn(Seq<u8>, Seq<u8>) -> bool {
    |a: Seq<u8>, b: Seq<u8>| bytes_le(a, b)
}

pub proof fn lemma_bytes_le_reflexive(a: Seq<u8>)
    ensures
        bytes_le(a, a),
    decreases a.len(),
{
    if a.len() > 0 {
        lemma_bytes_le_reflexive(a.drop_first());
    }
}

pub proof fn lemma_bytes_le_antisymmetric(a: Seq<u8>, b: Seq<u8>)
    requires
        bytes_le(a, b),
        bytes_le(b, a),
    ensures
        a == b,
    decreases a.len(),
{
    if a.len() == 0 {
        assert(b.len() == 0);
        assert(a =~= b);
    } else {
        lemma_bytes_le_antisymmetric(a.drop_first(), b.drop_first());
        assert(a =~= seq![a[0]] + a.drop_first());
        assert(b =~= seq![b[0]] + b.drop_first());
    }
}

pub proof fn lemma_bytes_le_transitive(a: Seq<u8>, b: Seq<u8>, c: Seq<u8>)
    requires
        bytes_le(a, b),
        bytes_le(b, c),
    ensures
        bytes_le(a, c),
    decreases a.len(),
{
    if a.len() > 0 && b.len() > 0 && c.len() > 0 && a[0] == b[0] && b[0] == c[0] {
        lemma_bytes_le_transitive(a.drop_first(), b.drop_first(), c.drop_first());
    }
}

pub proof fn lemma_bytes_le_total(a: Seq<u8>, b: Seq<u8>)
    ensures
        bytes_le(a, b) || bytes_le(b, a),
    decreases a.len(),
{
    if a.len() > 0 && b.len() > 0 && a[0] == b[0] {
        lemma_bytes_le_total(a.drop_first(), b.drop_first());
    }
}

/// The lexicographic order on byte strings is a total order.
pub proof fn lemma_bytes_order_total()
    ensures
        total_ordering(bytes_order()),
{
    assert forall|a: Seq<u8>| #[trigger] bytes_order()(a, a) by {
        lemma_bytes_le_reflexive(a);
    }
    assert forall|a: Seq<u8>, b: Seq<u8>| #[trigger]
        bytes_order()(a, b) && #[trigger] bytes_order()(b, a) implies a == b by {
        lemma_bytes_le_antisymmetric(a, b);
    }
    assert forall|a: Seq<u8>, b: Seq<u8>, c: Seq<u8>| #[trigger]
        bytes_order()(a, b) && #[trigger] bytes_order()(b, c) implies bytes_order()(a, c) by {
        lemma_bytes_le_transitive(a, b, c);
    }
    assert forall|a: Seq<u8>, b: Seq<u8>| #[trigger]
        bytes_order()(a, b) || #[trigger] bytes_order()(b, a) by {
        lemma_bytes_le_total(a, b);
    }
}

/// Returns `true` iff `a` comes before or equals `b` lexicographically.
pub fn hash_le(a: &[u8; 32], b: &[u8; 32]) -> (r: bool)
    ensures
        r == bytes_le(a@, b@),
{
    let mut i: usize = 0;
    assert(a@.subrange(0, 32) =~= a@);
    assert(b@.subrange(0, 32) =~= b@);
    while i < 32
        invariant
            i <= 32,
            bytes_le(a@, b@) == bytes_le(a@.subrange(i as int, 32), b@.subrange(i as int, 32)),
        decreases 32 - i,
    {
        let ghost sa = a@.subrange(i as int, 32);
        let ghost sb = b@.subrange(i as int, 32);
        assert(sa[0] == a@[i as int]);
        assert(sb[0] == b@[i as int]);
        if a[i] != b[i] {
            return a[i] < b[i];
        }
        assert(sa.drop_first() =~= a@.subrange(i + 1, 32));
        assert(sb.drop_first() =~= b@.subrange(i + 1, 32));
        i = i + 1;
    }
    assert(a@.subrange(32, 32).len() == 0);
    true
}

// ─── Cell hashing ────────────────────────────────────────────────────────────

/// The child hashes in canonical (lexicographically sorted) order.
pub open spec fn sorted_refs(refs: Seq<[u8; 32]>) -> Seq<Seq<u8>> {
    hash_views(refs).sort_by(bytes_order())
}

/// The canonical cell hash: SHA-256 of the data followed by the sorted child hashes.
pub open spec fn cell_hash_of(data: Seq<u8>, refs: Seq<[u8; 32]>) -> Seq<u8> {
    spec_sha256(data + sorted_refs(refs).flatten())
}

/// Inputs small enough to hash.
pub open spec fn cell_hashable(data: Seq<u8>, refs: Seq<[u8; 32]>) -> bool {
    data.len() + 32 * refs.len() + 128 <= usize::MAX
}

/// Sorts a list of hashes lexicographically.
fn sort_hashes(refs: &[[u8; 32]]) -> (out: Vec<[u8; 32]>)
    ensures
        out@.len() == refs@.len(),
        hash_views(out@) == sorted_refs(refs@),
{
    proof {
        lemma_bytes_order_total();
    }
    let mut out: Vec<[u8; 32]> = Vec::new();
    let mut i: usize = 0;
    while i < refs.len()
        invariant
            i <= refs@.len(),
            out@.len() == i,
            total_ordering(bytes_order()),
            sorted_by(hash_views(out@), bytes_order()),
            hash_views(out@).to_multiset() == hash_views(refs@.subrange(0, i as int)).to_multiset(),
        decreases refs@.len() - i,
    {
        let x = refs[i];
        let mut pos: usize = 0;
        while pos < out.len() && !hash_le(&x, &out[pos])
            invariant
                pos <= out@.len(),
                forall|k: int| 0 <= k < pos ==> !bytes_le(x@, (#[trigger] out@[k])@),
            decreases out@.len() - pos,
        {
            pos = pos + 1;
        }
        let ghost before = hash_views(out@);
        out.insert(pos, x);
        proof {
            let after = hash_views(out@);
            assert(after =~= before.insert(pos as int, x@));
            assert forall|a: int, b: int| 0 <= a < b < after.len() implies #[trigger] bytes_order()(
                after[a],
                after[b],
            ) by {
                if b < pos {
                    assert(after[a] == before[a] && after[b] == before[b]);
                } else if b == pos {
                    assert(after[a] == before[a]);
                    assert(!bytes_le(x@, out@[a]@));
                    lemma_bytes_le_total(x@, before[a]);
                } else if a == pos {
                    assert(after[b] == before[b - 1]);
                    if pos < before.len() {
                        assert(bytes_le(x@, before[pos as int]));
                        if b - 1 > pos {
                            assert(bytes_order()(before[pos as int], before[b - 1]));
                            lemma_bytes_le_transitive(x@, before[pos as int], before[b - 1]);
                        }
                    }
                } else if a > pos {
                    assert(after[a] == before[a - 1] && after[b] == before[b - 1]);
                } else {
                    assert(after[a] == before[a] && after[b] == before[b - 1]);
                }
            }
            vstd::seq_lib::to_multiset_insert(before, pos as int, x@);
            assert(hash_views(refs@.subrange(0, i + 1)) =~= hash_views(
                refs@.subrange(0, i as int),
            ).push(x@));
        }
        i = i + 1;
    }
    proof {
        assert(refs@.subrange(0, i as int) =~= refs@);
        hash_views(refs@).lemma_sort_by_ensures(bytes_order());
        vstd::seq_lib::lemma_sorted_unique(
            hash_views(out@),
            sorted_refs(refs@),
            bytes_order(),
        );
    }
    out
}

/// Computes the canonical hash of a cell: SHA-256(data ++ child hashes sorted).
pub fn compute_cell_hash(data: &[u8], refs: &[[u8; 32]]) -> (h: [u8; 32])
    requires
        cell_hashable(data@, refs@),
    ensures
        h@ == cell_hash_of(data@, refs@),
{
    let sorted = sort_hashes(refs);
    let mut input: Vec<u8> = Vec::new();
    let mut i: usize = 0;
    while i < data.len()
        invariant
            i <= data@.len(),
            input@ == data@.subrange(0, i as int),
        decreases data@.len() - i,
    {
        input.push(data[i]);
        i = i + 1;
    }
    assert(input@ =~= data@);
    let mut k: usize = 0;
    while k < sorted.len()
        invariant
            k <= sorted@.len(),
            sorted@.len() == refs@.len(),
            cell_hashable(data@, refs@),
            input@ == data@ + hash_views(sorted@.subrange(0, k as int)).flatten(),
            input@.len() == data@.len() + 32 * k,
        decreases sorted@.len() - k,
    {
        push_hash(&mut input, &sorted[k]);
        proof {
            let pre = hash_views(sorted@.subrange(0, k as int));
            assert(hash_views(sorted@.subrange(0, k + 1)) =~= pre.push(sorted@[k as int]@));
            pre.lemma_flatten_push(sorted@[k as int]@);
        }
        k = k + 1;
    }
    assert(sorted@.subrange(0, k as int) =~= sorted@);
    sha256(input.as_slice())
}

/// The hash of a cell depends only on its data and on the multiset of its
/// child hashes, not on the order in which the children are listed.
pub proof fn lemma_cell_hash_order_independent(
    data: Seq<u8>,
    refs_a: Seq<[u8; 32]>,
    refs_b: Seq<[u8; 32]>,
)
    requires
        hash_views(refs_a).to_multiset() == hash_views(refs_b).to_multiset(),
    ensures
        cell_hash_of(data, refs_a) == cell_hash_of(data, refs_b),
{
    lemma_bytes_order_total();
    hash_views(refs_a).lemma_sort_by_ensures(bytes_order());
    hash_views(refs_b).lemma_sort_by_ensures(bytes_order());
    vstd::seq_lib::lemma_sorted_unique(sorted_refs(refs_a), sorted_refs(refs_b), bytes_order());
}

// ─── Cell ────────────────────────────────────────────────────────────────────

/// A single cell: up to 128 bytes of data and up to 4 child references.
#[derive(Debug, Clone, PartialEq, Eq)]
pub struct Cell {
    /// Raw payload (0–128 bytes).
    pub data: Vec<u8>,
    /// Hashes of child cells (0–4 entries).
    pub refs: Vec<[u8; 32]>,
    pub(crate) hash: [u8; 32],
}

/// Errors from cell operations.
#[derive(Debug, Clone, PartialEq, Eq)]
pub enum CellError {
    /// Cell data exceeds the 128-byte limit.
    DataTooLarge(usize),
    /// Cell has more than 4 references.
    TooManyRefs(usize),
    /// A referenced child cell was not found in the bag.
    RefNotFound([u8; 32]),
    /// A circular reference was detected.
    CircularReference,
}

/// The sentence that describes a cell error.
pub open spec fn cell_error_text(e: CellError) -> Seq<char> {
    match e {
        CellError::DataTooLarge(n) => "cell data too large: "@ + decimal_string(n as nat)
            + " bytes (max 128)"@,
        CellError::TooManyRefs(n) => "too many refs: "@ + decimal_string(n as nat) + " (max 4)"@,
        CellError::RefNotFound(h) => "referenced cell not found: "@ + spec_hex_encode(seq![h[0]])
            + spec_hex_encode(seq![h[1]]) + "..."@,
        CellError::CircularReference => "circular reference detected"@,
    }
}

impl CellError {
    /// A sentence that describes the error.
    pub fn message(&self) -> (s: String)
        ensures
            s@ == cell_error_text(*self),
    {
        match self {
            CellError::DataTooLarge(n) => {
                let mut s = string_of("cell data too large: ");
                push_decimal(&mut s, *n as u64);
                push_str(&mut s, " bytes (max 128)");
                s
            },
            CellError::TooManyRefs(n) => {
                let mut s = string_of("too many refs: ");
                push_decimal(&mut s, *n as u64);
                push_str(&mut s, " (max 4)");
                s
            },
            CellError::RefNotFound(h) => {
                let mut s = string_of("referenced cell not found: ");
                push_hex_byte(&mut s, h[0]);
                push_hex_byte(&mut s, h[1]);
                push_str(&mut s, "...");
                s
            },
            CellError::CircularReference => string_of("circular reference detected"),
        }
    }
}

impl Cell {
    /// The cell's data.
    pub open(crate) spec fn spec_data(&self) -> Seq<u8> {
        self.data@
    }

    /// The cell's child references.
    pub open(crate) spec fn spec_refs(&self) -> Seq<[u8; 32]> {
        self.refs@
    }

    /// The cell's stored hash.
    pub open(crate) spec fn spec_hash(&self) -> [u8; 32] {
        self.hash
    }

    /// Creates a cell and computes its hash. Fails with `DataTooLarge` when
    /// the data exceeds 128 bytes, else with `TooManyRefs` above 4 references.
    pub fn new(data: Vec<u8>, refs: Vec<[u8; 32]>) -> (r: Result<Cell, CellError>)
        ensures
            data@.len() > MAX_CELL_DATA_BYTES ==> r == Err::<Cell, CellError>(
                CellError::DataTooLarge(data@.len() as usize),
            ),
            data@.len() <= MAX_CELL_DATA_BYTES && refs@.len() > MAX_CELL_REFS ==> r == Err::<
                Cell,
                CellError,
            >(CellError::TooManyRefs(refs@.len() as usize)),
            data@.len() <= MAX_CELL_DATA_BYTES && refs@.len() <= MAX_CELL_REFS ==> (r matches Ok(c)
                && c.spec_data() == data@ && c.spec_refs() == refs@ && c.spec_hash()@
                == cell_hash_of(data@, refs@)),
    {
        if data.len() > MAX_CELL_DATA_BYTES {
            return Err(CellError::DataTooLarge(data.len()));
        }
        if refs.len() > MAX_CELL_REFS {
            return Err(CellError::TooManyRefs(refs.len()));
        }
        let hash = compute_cell_hash(data.as_slice(), refs.as_slice());
        Ok(Cell { data, refs, hash })
    }

    /// Creates a leaf cell (no children) with the given data.
    pub fn leaf(data: Vec<u8>) -> (r: Result<Cell, CellError>)
        ensures
            data@.len() > MAX_CELL_DATA_BYTES ==> r == Err::<Cell, CellError>(
                CellError::DataTooLarge(data@.len() as usize),
            ),
            data@.len() <= MAX_CELL_DATA_BYTES ==> (r matches Ok(c) && c.spec_data() == data@
                && c.spec_refs() == Seq::<[u8; 32]>::empty() && c.spec_hash()@ == cell_hash_of(
                data@,
                Seq::<[u8; 32]>::empty(),
            )),
    {
        let refs: Vec<[u8; 32]> = Vec::new();
        Cell::new(data, refs)
    }

    /// Returns the cell's hash.
    pub fn hash(&self) -> (h: &[u8; 32])
        ensures
            *h == self.spec_hash(),
    {
        &self.hash
    }

    /// Returns `true` if this cell has no children.
    pub fn is_leaf(&self) -> (r: bool)
        ensures
            r == (self.spec_refs().len() == 0),
    {
        self.refs.len() == 0
    }

    /// Returns the number of child references.
    pub fn ref_count(&self) -> (n: usize)
        ensures
            n == self.spec_refs().len(),
    {
        self.refs.len()
    }
}

// ─── Bag of Cells ────────────────────────────────────────────────────────────

/// The cells of a bag, by hash.
pub type CellMap = Map<[u8; 32], Cell>;

/// `p -> c` is an edge: `p` is in the bag and lists `c` among its references.
pub open spec fn is_edge(m: CellMap, p: [u8; 32], c: [u8; 32]) -> bool {
    m.dom().contains(p) && m[p].spec_refs().contains(c)
}

/// The step from position `i` to `i + 1` of `path` is an edge.
pub open spec fn step_ok(m: CellMap, path: Seq<[u8; 32]>, i: int) -> bool {
    is_edge(m, path[i], path[i + 1])
}

/// `path` is a non-empty chain of parent-child edges.
pub open spec fn is_path(m: CellMap, path: Seq<[u8; 32]>) -> bool {
    path.len() > 0 && forall|i: int| 0 <= i < path.len() - 1 ==> #[trigger] step_ok(m, path, i)
}

/// `path` leads from `from` to `to`.
pub open spec fn is_path_between(
    m: CellMap,
    path: Seq<[u8; 32]>,
    from: [u8; 32],
    to: [u8; 32],
) -> bool {
    is_path(m, path) && path[0] == from && path.last() == to
}

/// A collection of cells forming a DAG, with a designated root.
#[derive(Debug)]
pub struct BagOfCells {
    pub(crate) cells: ByteMap<Cell>,
    /// The hash of the root cell.
    pub root: Option<[u8; 32]>,
}

impl BagOfCells {
    /// The cells by hash.
    pub closed spec fn cell_map(&self) -> CellMap {
        self.cells@
    }

    /// The root hash.
    pub open(crate) spec fn spec_root(&self) -> Option<[u8; 32]> {
        self.root
    }

    /// Well-formedness of the cell store.
    pub closed spec fn wf(&self) -> bool {
        self.cells.wf()
    }

    /// Creates a new, empty bag.
    pub fn new() -> (b: BagOfCells)
        ensures
            b.wf(),
            b.cell_map() == Map::<[u8; 32], Cell>::empty(),
            b.spec_root() is None,
    {
        BagOfCells { cells: ByteMap::new(), root: None }
    }

    /// Inserts a cell under its hash, after checking that every child it
    /// references is already in the bag (the first missing one is reported).
    pub fn insert(&mut self, cell: Cell) -> (r: Result<[u8; 32], CellError>)
        requires
            old(self).wf(),
        ensures
            final(self).wf(),
            final(self).spec_root() == old(self).spec_root(),
            match r {
                Ok(h) => h == cell.spec_hash() && (forall|i: int|
                    0 <= i < cell.spec_refs().len() ==> old(self).cell_map().dom().contains(
                        #[trigger] cell.spec_refs()[i],
                    )) && final(self).cell_map() == old(self).cell_map().insert(h, cell),
                Err(e) => *final(self) == *old(self) && exists|i: int|
                    0 <= i < cell.spec_refs().len() && e == CellError::RefNotFound(
                        cell.spec_refs()[i],
                    ) && !old(self).cell_map().dom().contains(cell.spec_refs()[i]) && forall|
                        j: int,
                    |
                        0 <= j < i ==> old(self).cell_map().dom().contains(
                            #[trigger] cell.spec_refs()[j],
                        ),
            },
    {
        let mut i: usize = 0;
        while i < cell.refs.len()
            invariant
                self.wf(),
                *self == *old(self),
                i <= cell.refs@.len(),
                forall|j: int|
                    0 <= j < i ==> self.cells@.dom().contains(#[trigger] cell.refs@[j]),
            decreases cell.refs@.len() - i,
        {
            if !self.cells.contains_key(&cell.refs[i]) {
                assert(cell.spec_refs()[i as int] == cell.refs@[i as int]);
                return Err(CellError::RefNotFound(cell.refs[i]));
            }
            i = i + 1;
        }
        let hash = cell.hash;
        self.cells.insert(hash, cell);
        Ok(hash)
    }

    /// Inserts a cell and makes it the root of the bag.
    pub fn insert_root(&mut self, cell: Cell) -> (r: Result<[u8; 32], CellError>)
        requires
            old(self).wf(),
        ensures
            final(self).wf(),
            match r {
                Ok(h) => h == cell.spec_hash() && (forall|i: int|
                    0 <= i < cell.spec_refs().len() ==> old(self).cell_map().dom().contains(
                        #[trigger] cell.spec_refs()[i],
                    )) && final(self).cell_map() == old(self).cell_map().insert(h, cell)
                    && final(self).spec_root() == Some(h),
                Err(e) => *final(self) == *old(self) && exists|i: int|
                    0 <= i < cell.spec_refs().len() && e == CellError::RefNotFound(
                        cell.spec_refs()[i],
                    ) && !old(self).cell_map().dom().contains(cell.spec_refs()[i]) && forall|
                        j: int,
                    |
                        0 <= j < i ==> old(self).cell_map().dom().contains(
                            #[trigger] cell.spec_refs()[j],
                        ),
            },
    {
        let hash = match self.insert(cell) {
            Ok(h) => h,
            Err(e) => return Err(e),
        };
        self.root = Some(hash);
        Ok(hash)
    }

    /// Retrieves a cell by its hash.
    pub fn get(&self, hash: &[u8; 32]) -> (r: Option<&Cell>)
        requires
            self.wf(),
        ensures
            match r {
                Some(c) => self.cell_map().dom().contains(*hash) && self.cell_map()[*hash] == *c,
                None => !self.cell_map().dom().contains(*hash),
            },
    {
        self.cells.get(hash)
    }

    /// Returns the root cell, if the root is set and present.
    pub fn root_cell(&self) -> (r: Option<&Cell>)
        requires
            self.wf(),
        ensures
            match r {
                Some(c) => self.spec_root() matches Some(h) && self.cell_map().dom().contains(h)
                    && self.cell_map()[h] == *c,
                None => self.spec_root() matches Some(h) ==> !self.cell_map().dom().contains(h),
            },
    {
        match &self.root {
            Some(h) => self.cells.get(h),
            None => None,
        }
    }

    /// Returns the total number of cells in the bag.
    pub fn len(&self) -> (n: usize)
        requires
            self.wf(),
        ensures
            n == self.cell_map().dom().len(),
    {
        self.cells.len()
    }

    /// Returns `true` if the bag contains no cells.
    pub fn is_empty(&self) -> (r: bool)
        requires
            self.wf(),
        ensures
            r == (self.cell_map().dom().len() == 0),
    {
        self.cells.len() == 0
    }

    /// Generates a Merkle path from the root to `target`: the hashes from the
    /// root down to the target, each a child of the previous one. Returns
    /// `None` when there is no root or no such path.
    pub fn merkle_proof(&self, target: &[u8; 32]) -> (r: Option<Vec<[u8; 32]>>)
        requires
            self.wf(),
            self.cell_map().dom().len() < usize::MAX,
        ensures
            match r {
                Some(p) => self.spec_root() matches Some(root) && is_path_between(
                    self.cell_map(),
                    p@,
                    root,
                    *target,
                ),
                None => self.spec_root() matches Some(root) ==> forall|p: Seq<[u8; 32]>|
                    !#[trigger] is_path_between(self.cell_map(), p, root, *target),
            },
    {
        let root = match self.root {
            Some(h) => h,
            None => return None,
        };
        let mut path: Vec<[u8; 32]> = Vec::new();
        let fuel = self.cells.len() + 1;
        if self.dfs_path(&root, target, &mut path, fuel) {
            proof {
                assert(path@ =~= Seq::<[u8; 32]>::empty() + path@);
            }
            Some(path)
        } else {
            proof {
                assert forall|p: Seq<[u8; 32]>|
                    !#[trigger] is_path_between(self.cell_map(), p, root, *target) by {
                    if is_path_between(self.cell_map(), p, root, *target) {
                        self.cells.lemma_order();
                        let q = lemma_short_path(self.cell_map(), p);
                        assert(is_path_between(self.cell_map(), q, root, *target));
                    }
                }
            }
            None
        }
    }

    fn dfs_path(
        &self,
        current: &[u8; 32],
        target: &[u8; 32],
        path: &mut Vec<[u8; 32]>,
        fuel: usize,
    ) -> (found: bool)
        requires
            self.wf(),
        ensures
            found ==> exists|q: Seq<[u8; 32]>|
                #![trigger is_path_between(self.cell_map(), q, *current, *target)]
                final(path)@ == old(path)@ + q && is_path_between(
                    self.cell_map(),
                    q,
                    *current,
                    *target,
                ),
            !found ==> final(path)@ == old(path)@ && forall|q: Seq<[u8; 32]>|
                #[trigger] is_path_between(self.cell_map(), q, *current, *target) ==> q.len()
                    > fuel,
        decreases fuel,
    {
        if fuel == 0 {
            return false;
        }
        let ghost start = path@;
        path.push(*current);
        if hash_eq(current, target) {
            proof {
                assert(*current =~= *target);
                let q = seq![*current];
                assert(is_path_between(self.cell_map(), q, *current, *target));
                assert(path@ =~= start + q);
            }
            return true;
        }
        match self.cells.get(current) {
            Some(cell) => {
                let mut k: usize = 0;
                while k < cell.refs.len()
                    invariant
                        self.wf(),
                        fuel > 0,
                        *current != *target,
                        self.cells@.dom().contains(*current),
                        self.cells@[*current] == *cell,
                        path@ == start.push(*current),
                        start == old(path)@,
                        k <= cell.refs@.len(),
                        forall|j: int, q: Seq<[u8; 32]>|
                            0 <= j < k && #[trigger] is_path_between(
                                self.cell_map(),
                                q,
                                cell.refs@[j],
                                *target,
                            ) ==> q.len() > fuel - 1,
                    decreases cell.refs@.len() - k,
                {
                    let child = &cell.refs[k];
                    if self.dfs_path(child, target, path, fuel - 1) {
                        proof {
                            let q1 = choose|q1: Seq<[u8; 32]>|
                                #![trigger is_path_between(self.cell_map(), q1, *child, *target)]
                                path@ == start.push(*current) + q1 && is_path_between(
                                    self.cell_map(),
                                    q1,
                                    *child,
                                    *target,
                                );
                            let q = seq![*current] + q1;
                            assert(cell.spec_refs()[k as int] == *child);
                            assert(step_ok(self.cell_map(), q, 0));
                            assert forall|i: int| 0 <= i < q.len() - 1 implies #[trigger] step_ok(
                                self.cell_map(),
                                q,
                                i,
                            ) by {
                                if i > 0 {
                                    assert(step_ok(self.cell_map(), q1, i - 1));
                                }
                            }
                            assert(is_path_between(self.cell_map(), q, *current, *target));
                            assert(path@ =~= start + q);
                        }
                        return true;
                    }
                    k = k + 1;
                }
                proof {
                    assert forall|q: Seq<[u8; 32]>| #[trigger]
                        is_path_between(self.cell_map(), q, *current, *target) implies q.len()
                        > fuel by {
                        if q.len() <= fuel {
                            assert(q.len() >= 2);
                            assert(step_ok(self.cell_map(), q, 0));
                            let j = choose|j: int| 0 <= j < cell.refs@.len() && cell.refs@[j] == q[1];
                            let q1 = q.drop_first();
                            assert forall|i: int| 0 <= i < q1.len() - 1 implies #[trigger] step_ok(
                                self.cell_map(),
                                q1,
                                i,
                            ) by {
                                assert(step_ok(self.cell_map(), q, i + 1));
                            }
                            assert(is_path_between(self.cell_map(), q1, cell.refs@[j], *target));
                        }
                    }
                }
            },
            None => {
                proof {
                    assert forall|q: Seq<[u8; 32]>| #[trigger]
                        is_path_between(self.cell_map(), q, *current, *target) implies q.len()
                        > fuel by {
                        if q.len() >= 2 {
                            assert(step_ok(self.cell_map(), q, 0));
                        }
                    }
                }
            },
        }
        path.pop();
        assert(path@ =~= start);
        false
    }

    /// Checks a Merkle path: it is non-empty and each hash is a child of the
    /// cell stored under the previous hash.
    pub fn verify_proof(&self, proof: &[[u8; 32]]) -> (r: bool)
        requires
            self.wf(),
        ensures
            r == is_path(self.cell_map(), proof@),
    {
        if proof.len() == 0 {
            return false;
        }
        let mut i: usize = 0;
        let last: usize = proof.len() - 1;
        while i < last
            invariant
                last == proof@.len() - 1,
                self.wf(),
                proof@.len() > 0,
                i < proof@.len(),
                forall|j: int| 0 <= j < i ==> #[trigger] step_ok(self.cell_map(), proof@, j),
            decreases proof@.len() - i,
        {
            let next: usize = i + 1;
            match self.cells.get(&proof[i]) {
                Some(parent) => {
                    let mut found = false;
                    let mut k: usize = 0;
                    while k < parent.refs.len()
                        invariant
                            k <= parent.refs@.len(),
                            next == i + 1,
                            i + 1 < proof@.len(),
                            !found ==> forall|m: int|
                                0 <= m < k ==> parent.refs@[m] != proof@[i + 1],
                            found ==> parent.refs@.contains(proof@[i + 1]),
                        decreases parent.refs@.len() - k,
                    {
                        if hash_eq(&parent.refs[k], &proof[next]) {
                            proof {
                                assert(parent.refs@[k as int] =~= proof@[i + 1]);
                            }
                            found = true;
                        }
                        k = k + 1;
                    }
                    if !found {
                        proof {
                            assert(!step_ok(self.cell_map(), proof@, i as int));
                        }
                        return false;
                    }
                    assert(parent.spec_refs() == parent.refs@);
                },
                None => {
                    assert(!step_ok(self.cell_map(), proof@, i as int));
                    return false;
                },
            }
            i = i + 1;
        }
        true
    }
}

/// Any path can be shortened to one with the same endpoints whose length is
/// at most the number of cells plus one.
proof fn lemma_short_path(m: CellMap, p: Seq<[u8; 32]>) -> (q: Seq<[u8; 32]>)
    requires
        is_path(m, p),
        m.dom().finite(),
    ensures
        is_path(m, q),
        q[0] == p[0],
        q.last() == p.last(),
        q.len() <= m.dom().len() + 1,
    decreases p.len(),
{
    if p.len() <= m.dom().len() + 1 {
        p
    } else {
        let inner = p.subrange(0, p.len() - 1);
        assert forall|x: [u8; 32]| inner.to_set().contains(x) implies m.dom().contains(x) by {
            let w = choose|w: int| 0 <= w < inner.len() && inner[w] == x;
            assert(step_ok(m, p, w));
        }
        if inner.no_duplicates() {
            inner.unique_seq_to_set();
            vstd::set_lib::lemma_len_subset(inner.to_set(), m.dom());
            assert(false);
        }
        let (a, b) = choose|a: int, b: int|
            0 <= a < inner.len() && 0 <= b < inner.len() && a != b && inner[a] == inner[b];
        let i = if a < b { a } else { b };
        let j = if a < b { b } else { a };
        let shorter = p.subrange(0, i) + p.subrange(j, p.len() as int);
        assert(shorter.len() < p.len());
        assert forall|s: int| 0 <= s < shorter.len() - 1 implies #[trigger] step_ok(
            m,
            shorter,
            s,
        ) by {
            if s < i - 1 {
                assert(step_ok(m, p, s));
            } else if s == i - 1 {
                assert(step_ok(m, p, s));
                assert(shorter[s + 1] == p[j]);
            } else {
                assert(step_ok(m, p, s + (j - i)));
            }
        }
        assert(shorter[0] == p[0]);
        assert(shorter.last() == p.last());
        lemma_short_path(m, shorter)
    }
}

/// A Merkle path produced for a target verifies: every path `merkle_proof`
/// returns passes `verify_proof` and ends at the requested target.
pub proof fn lemma_generated_proof_verifies(bag: BagOfCells, p: Seq<[u8; 32]>, target: [u8; 32])
    requires
        bag.spec_root() matches Some(root) && is_path_between(bag.cell_map(), p, root, target),
    ensures
        is_path(bag.cell_map(), p),
        p.last() == target,
{
}

} // verus!
