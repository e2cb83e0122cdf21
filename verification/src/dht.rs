//! A Kademlia-style routing table: 256 k-buckets indexed by the position of
//! the highest differing bit of the XOR distance to the local node.
use vstd::prelude::*;
use std::collections::VecDeque;
use crate::cell::{
    bytes_le,
    hash_le,
    lemma_bytes_le_antisymmetric,
    lemma_bytes_le_reflexive,
    lemma_bytes_le_total,
    lemma_bytes_le_transitive,
};
use crate::pow::hash_eq;

verus! {

broadcast use {
    vstd::std_specs::bits::axiom_u8_leading_zeros,
    vstd::seq_lib::group_to_multiset_ensures,
    vstd::std_specs::vecdeque::group_vec_dequeue_axioms,
};

/// Maximum number of contacts stored per k-bucket.
pub const K_BUCKET_SIZE: usize = 20;

/// Number of parallel lookups per iteration.
pub const ALPHA: usize = 3;

/// Number of k-buckets: one per bit of the key space.
pub const NUM_BUCKETS: usize = 256;

/// A 256-bit node key.
pub type NodeId = [u8; 32];

/// The XOR distance of two identities, byte by byte.
pub open spec fn xor_distance(a: NodeId, b: NodeId) -> Seq<u8> {
    Seq::new(32, |i: int| a[i] ^ b[i])
}

/// `a` is at most as far from `t` as `b` is.
pub open spec fn closer_eq(t: NodeId, a: NodeId, b: NodeId) -> bool {
    bytes_le(xor_distance(t, a), xor_distance(t, b))
}

/// The bucket of a distance, scanning from byte `i`: the bit index (from the
/// most significant end) of its first set bit, or `None` when it is zero.
pub open spec fn bucket_from(d: Seq<u8>, i: int) -> Option<int>
    decreases d.len() - i,
{
    if i < 0 || i >= d.len() {
        None
    } else if d[i] != 0 {
        Some(i * 8 + d[i].leading_zeros() as int)
    } else {
        bucket_from(d, i + 1)
    }
}

/// The bucket of a distance.
pub open spec fn bucket_of(d: Seq<u8>) -> Option<int> {
    bucket_from(d, 0)
}

proof fn lemma_bucket_bound(d: Seq<u8>, i: int)
    requires
        0 <= i,
    ensures
        bucket_from(d, i) matches Some(k) ==> i * 8 <= k < d.len() * 8,
    decreases d.len() - i,
{
    if i < d.len() && d[i] == 0 {
        lemma_bucket_bound(d, i + 1);
    }
}

proof fn lemma_bucket_none_zero(d: Seq<u8>, i: int)
    requires
        0 <= i,
        bucket_from(d, i) is None,
    ensures
        forall|j: int| i <= j < d.len() ==> d[j] == 0,
    decreases d.len() - i,
{
    if i < d.len() {
        lemma_bucket_none_zero(d, i + 1);
    }
}

/// The distance of two identities has no bucket exactly when they are equal.
pub proof fn lemma_bucket_none_iff_same(a: NodeId, b: NodeId)
    ensures
        bucket_of(xor_distance(a, b)) is None <==> a == b,
{
    let d = xor_distance(a, b);
    if bucket_of(d) is None {
        lemma_bucket_none_zero(d, 0);
        assert forall|j: int| 0 <= j < 32 implies a[j] == b[j] by {
            let x = a[j];
            let y = b[j];
            assert(d[j] == 0);
            assert(x ^ y == 0 ==> x == y) by (bit_vector);
        }
        assert(a =~= b);
    }
    if a == b {
        assert forall|j: int| 0 <= j < 32 implies d[j] == 0 by {
            let x = a[j];
            assert(x ^ x == 0) by (bit_vector);
        }
        lemma_bucket_zero(d, 0);
    }
}

/// The XOR distance is symmetric.
pub proof fn lemma_distance_symmetric(a: NodeId, b: NodeId)
    ensures
        xor_distance(a, b) == xor_distance(b, a),
{
    assert forall|j: int| 0 <= j < 32 implies #[trigger] xor_distance(a, b)[j] == xor_distance(b, a)[j] by {
        let x = a[j];
        let y = b[j];
        assert(x ^ y == y ^ x) by (bit_vector);
    }
    assert(xor_distance(a, b) =~= xor_distance(b, a));
}

proof fn lemma_bucket_zero(d: Seq<u8>, i: int)
    requires
        0 <= i,
        forall|j: int| i <= j < d.len() ==> d[j] == 0,
    ensures
        bucket_from(d, i) is None,
    decreases d.len() - i,
{
    if i < d.len() {
        lemma_bucket_zero(d, i + 1);
    }
}

/// XOR distance between two node IDs, as big-endian bytes.
#[derive(Debug, Clone, PartialEq, Eq, PartialOrd, Ord)]
pub struct Distance(pub [u8; 32]);

impl Distance {
    /// Computes the XOR distance between two node IDs.
    pub fn between(a: &NodeId, b: &NodeId) -> (d: Distance)
        ensures
            d.0@ == xor_distance(*a, *b),
    {
        let mut d: [u8; 32] = [0u8; 32];
        let mut i: usize = 0;
        while i < 32
            invariant
                i <= 32,
                forall|j: int| 0 <= j < i ==> d[j] == a[j] ^ b[j],
            decreases 32 - i,
        {
            d[i] = a[i] ^ b[i];
            i = i + 1;
        }
        assert(d@ =~= xor_distance(*a, *b));
        Distance(d)
    }

    /// The bucket this distance falls into: the index of its highest set bit
    /// counted from the most significant end, or `None` for distance zero.
    pub fn bucket_index(&self) -> (r: Option<usize>)
        ensures
            match r {
                Some(k) => bucket_of(self.0@) == Some(k as int) && k < NUM_BUCKETS,
                None => bucket_of(self.0@) is None,
            },
    {
        let mut i: usize = 0;
        while i < 32
            invariant
                i <= 32,
                bucket_of(self.0@) == bucket_from(self.0@, i as int),
            decreases 32 - i,
        {
            let byte = self.0[i];
            if byte != 0 {
                let lz = byte.leading_zeros();
                proof {
                    lemma_bucket_bound(self.0@, 0);
                }
                return Some(i * 8 + lz as usize);
            }
            i = i + 1;
        }
        None
    }
}

/// Whether `a` is at most as far from `t` as `b`.
fn dist_le(t: &NodeId, a: &NodeId, b: &NodeId) -> (r: bool)
    ensures
        r == closer_eq(*t, *a, *b),
{
    let da = Distance::between(t, a);
    let db = Distance::between(t, b);
    hash_le(&da.0, &db.0)
}

/// A contact record.
#[derive(Debug, Clone, PartialEq, Eq)]
pub struct Contact {
    /// The node's identity.
    pub id: NodeId,
    /// An opaque network address string.
    pub address: String,
}

/// The identities of a list of contacts.
pub open spec fn contact_ids(s: Seq<Contact>) -> Seq<NodeId> {
    s.map_values(|c: Contact| c.id)
}

/// A bucket holds distinct identities and at most `K_BUCKET_SIZE` of them.
pub open spec fn kbucket_wf(s: Seq<Contact>) -> bool {
    contact_ids(s).no_duplicates() && s.len() <= K_BUCKET_SIZE
}

/// The bucket after `c` is seen: an earlier entry with its identity is
/// taken out, and `c` is appended (most recent) unless the bucket is full.
pub open spec fn bucket_after_update(s: Seq<Contact>, c: Contact) -> Seq<Contact> {
    let rest = if contact_ids(s).contains(c.id) {
        s.remove(contact_ids(s).index_of(c.id))
    } else {
        s
    };
    if rest.len() < K_BUCKET_SIZE {
        rest.push(c)
    } else {
        rest
    }
}

/// Least-recently-seen order: a contact seen again moves from wherever it
/// was to the back, keeping the order of the others; a new contact joins at
/// the back when there is room and is dropped when the bucket is full.
pub proof fn lemma_bucket_lru(s: Seq<Contact>, c: Contact, k: int)
    requires
        kbucket_wf(s),
    ensures
        0 <= k < s.len() && s[k].id == c.id ==> bucket_after_update(s, c) == s.remove(k).push(c),
        !contact_ids(s).contains(c.id) && s.len() < K_BUCKET_SIZE ==> bucket_after_update(s, c)
            == s.push(c),
        !contact_ids(s).contains(c.id) && s.len() >= K_BUCKET_SIZE ==> bucket_after_update(s, c)
            == s,
{
    if 0 <= k < s.len() && s[k].id == c.id {
        let ids = contact_ids(s);
        assert(ids[k] == c.id);
        let i = ids.index_of(c.id);
        assert(0 <= i < ids.len() && ids[i] == c.id);
        assert(i == k);
    }
}

/// A bounded queue of contacts, most recently seen at the back.
#[derive(Debug)]
pub struct KBucket {
    contacts: VecDeque<Contact>,
}

impl View for KBucket {
    type V = Seq<Contact>;

    closed spec fn view(&self) -> Seq<Contact> {
        self.contacts@
    }
}

impl KBucket {
    /// Creates an empty bucket.
    pub fn new() -> (b: KBucket)
        ensures
            b@ == Seq::<Contact>::empty(),
    {
        KBucket { contacts: VecDeque::new() }
    }

    /// Inserts or refreshes a contact: an existing entry with the same id is
    /// moved to the back; a new contact is appended unless the bucket is
    /// full, in which case it is dropped.
    pub fn update(&mut self, contact: Contact)
        requires
            kbucket_wf(old(self)@),
        ensures
            final(self)@ == bucket_after_update(old(self)@, contact),
            kbucket_wf(final(self)@),
    {
        let ghost s = self.contacts@;
        let mut pos: usize = 0;
        let mut found = false;
        while pos < self.contacts.len()
            invariant_except_break
                !found,
            invariant
                self.contacts@ == s,
                pos <= s.len(),
                forall|j: int| 0 <= j < pos ==> s[j].id != contact.id,
            ensures
                found ==> pos < s.len() && s[pos as int].id == contact.id,
                !found ==> pos == s.len() && forall|j: int| 0 <= j < s.len() ==> s[j].id
                    != contact.id,
            decreases s.len() - pos,
        {
            if hash_eq(&self.contacts[pos].id, &contact.id) {
                proof {
                    assert(s[pos as int].id =~= contact.id);
                }
                found = true;
                break;
            }
            pos = pos + 1;
        }
        proof {
            let ids = contact_ids(s);
            if found {
                assert(ids[pos as int] == contact.id);
                let k = ids.index_of(contact.id);
                assert(0 <= k < ids.len() && ids[k] == contact.id);
                assert(k == pos);
            } else {
                assert(!ids.contains(contact.id));
            }
        }
        if found {
            self.contacts.remove(pos);
        }
        let ghost rest = self.contacts@;
        proof {
            assert(contact_ids(rest).no_duplicates()) by {
                if found {
                    assert forall|a: int, b: int|
                        0 <= a < b < rest.len() implies contact_ids(rest)[a] != contact_ids(
                        rest,
                    )[b] by {
                        let a1 = if a < pos { a } else { a + 1 };
                        let b1 = if b < pos { b } else { b + 1 };
                        assert(contact_ids(s)[a1] != contact_ids(s)[b1]);
                    }
                }
            }
            assert forall|j: int| 0 <= j < rest.len() implies rest[j].id != contact.id by {
                if found {
                    let j1 = if j < pos { j } else { j + 1 };
                    assert(contact_ids(s)[j1] != contact_ids(s)[pos as int]);
                }
            }
        }
        if self.contacts.len() < K_BUCKET_SIZE {
            self.contacts.push_back(contact);
            proof {
                let t = self.contacts@;
                assert(contact_ids(t) =~= contact_ids(rest).push(contact.id));
                assert forall|a: int, b: int|
                    0 <= a < b < t.len() implies contact_ids(t)[a] != contact_ids(t)[b] by {
                    if b == t.len() - 1 {
                        assert(rest[a].id != contact.id);
                    } else {
                        assert(contact_ids(rest)[a] != contact_ids(rest)[b]);
                    }
                }
            }
        }
    }

    /// Returns up to `count` contacts, most recently seen first.
    pub fn closest(&self, count: usize) -> (r: Vec<&Contact>)
        ensures
            r@.len() == if count < self@.len() {
                count as int
            } else {
                self@.len() as int
            },
            forall|i: int| 0 <= i < r@.len() ==> *r@[i] == self@[self@.len() - 1 - i],
    {
        let n = self.contacts.len();
        let mut r: Vec<&Contact> = Vec::new();
        let mut i: usize = 0;
        while i < n && i < count
            invariant
                n == self@.len(),
                i <= n,
                i <= count,
                r@.len() == i,
                forall|j: int| 0 <= j < i ==> *r@[j] == self@[n - 1 - j],
            decreases n - i,
        {
            r.push(&self.contacts[n - 1 - i]);
            i = i + 1;
        }
        r
    }

    /// Returns the number of contacts in this bucket.
    pub fn len(&self) -> (n: usize)
        ensures
            n == self@.len(),
    {
        self.contacts.len()
    }

    /// Returns `true` if the bucket contains no contacts.
    pub fn is_empty(&self) -> (r: bool)
        ensures
            r == (self@.len() == 0),
    {
        self.contacts.len() == 0
    }
}

impl Default for KBucket {
    fn default() -> (b: Self)
        ensures
            b@ == Seq::<Contact>::empty(),
    {
        KBucket::new()
    }
}

/// The contacts of a list of references.
pub open spec fn derefs(s: Seq<&Contact>) -> Seq<Contact> {
    s.map_values(|c: &Contact| *c)
}

/// `s` is ordered by ascending distance to `t`.
pub open spec fn sorted_by_distance(t: NodeId, s: Seq<Contact>) -> bool {
    forall|i: int, j: int| 0 <= i < j < s.len() ==> closer_eq(t, #[trigger] s[i].id, #[trigger] s[j].id)
}

/// The buckets after `c` is offered to a table of local node `local`: it
/// goes to the bucket of its distance, and the local node itself is ignored.
pub open spec fn routing_after(
    local: NodeId,
    b: Seq<Seq<Contact>>,
    c: Contact,
) -> Seq<Seq<Contact>> {
    match bucket_of(xor_distance(local, c.id)) {
        Some(idx) => b.update(idx, bucket_after_update(b[idx], c)),
        None => b,
    }
}

/// The buckets after each of `seeds` is offered in order.
pub open spec fn routing_after_all(
    local: NodeId,
    b: Seq<Seq<Contact>>,
    seeds: Seq<Contact>,
) -> Seq<Seq<Contact>>
    decreases seeds.len(),
{
    if seeds.len() == 0 {
        b
    } else {
        routing_after(local, routing_after_all(local, b, seeds.drop_last()), seeds.last())
    }
}

/// A field-by-field copy of a contact.
fn copy_contact(c: &Contact) -> (r: Contact)
    ensures
        r == *c,
{
    Contact { id: c.id, address: c.address.clone() }
}

/// The full routing table of one local node: 256 k-buckets.
pub struct RoutingTable {
    /// This node's own ID.
    pub local_id: NodeId,
    pub(crate) buckets: Vec<KBucket>,
}

impl RoutingTable {
    /// The contents of the buckets.
    pub closed spec fn bucket_seqs(&self) -> Seq<Seq<Contact>> {
        self.buckets@.map_values(|b: KBucket| b@)
    }

    /// The local node's identity.
    pub open(crate) spec fn spec_local(&self) -> NodeId {
        self.local_id
    }

    /// All contacts, bucket after bucket.
    pub open spec fn contacts(&self) -> Seq<Contact> {
        self.bucket_seqs().flatten()
    }

    /// There are 256 buckets, each well formed, and each contact sits in the
    /// bucket of its distance to the local node.
    pub closed spec fn wf(&self) -> bool {
        &&& self.buckets@.len() == NUM_BUCKETS
        &&& forall|i: int| 0 <= i < NUM_BUCKETS ==> kbucket_wf(#[trigger] self.buckets@[i]@)
        &&& forall|i: int, j: int|
            0 <= i < NUM_BUCKETS && 0 <= j < self.buckets@[i]@.len() ==> bucket_of(
                xor_distance(self.local_id, #[trigger] self.buckets@[i]@[j].id),
            ) == Some(i)
    }

    /// Creates an empty routing table for the given local node ID.
    pub fn new(local_id: NodeId) -> (t: RoutingTable)
        ensures
            t.wf(),
            t.spec_local() == local_id,
            t.bucket_seqs() == Seq::new(NUM_BUCKETS as nat, |i: int| Seq::<Contact>::empty()),
    {
        let mut buckets: Vec<KBucket> = Vec::new();
        let mut i: usize = 0;
        while i < NUM_BUCKETS
            invariant
                i <= NUM_BUCKETS,
                buckets@.len() == i,
                forall|j: int| 0 <= j < i ==> (#[trigger] buckets@[j])@ == Seq::<Contact>::empty(),
            decreases NUM_BUCKETS - i,
        {
            buckets.push(KBucket::new());
            i = i + 1;
        }
        let t = RoutingTable { local_id, buckets };
        assert(t.bucket_seqs() =~= Seq::new(NUM_BUCKETS as nat, |i: int| Seq::<Contact>::empty()));
        t
    }

    /// Inserts or refreshes a contact in the bucket of its distance; the
    /// local node itself is ignored.
    pub fn update(&mut self, contact: Contact)
        requires
            old(self).wf(),
        ensures
            final(self).wf(),
            final(self).spec_local() == old(self).spec_local(),
            final(self).bucket_seqs() == routing_after(
                old(self).spec_local(),
                old(self).bucket_seqs(),
                contact,
            ),
    {
        if hash_eq(&contact.id, &self.local_id) {
            proof {
                assert(contact.id =~= self.local_id);
                lemma_bucket_none_iff_same(self.local_id, contact.id);
            }
            return;
        }
        let dist = Distance::between(&self.local_id, &contact.id);
        match dist.bucket_index() {
            Some(idx) => {
                let ghost old_buckets = self.buckets@;
                let ghost c = contact;
                self.buckets[idx].update(contact);
                proof {
                    assert(self.buckets@ =~= old_buckets.update(idx as int, self.buckets@[idx as int]));
                    assert(self.bucket_seqs() =~= old(self).bucket_seqs().update(
                        idx as int,
                        bucket_after_update(old(self).bucket_seqs()[idx as int], c),
                    ));
                    assert forall|i: int, j: int|
                        0 <= i < NUM_BUCKETS && 0 <= j < self.buckets@[i]@.len() implies bucket_of(
                        xor_distance(self.local_id, #[trigger] self.buckets@[i]@[j].id),
                    ) == Some(i) by {
                        if i == idx {
                            let s = old_buckets[i]@;
                            let t = self.buckets@[i]@;
                            if contact_ids(s).contains(c.id) {
                                let p = contact_ids(s).index_of(c.id);
                                let rest = s.remove(p);
                                if j < rest.len() {
                                    let j1 = if j < p { j } else { j + 1 };
                                    assert(t[j] == s[j1]);
                                    assert(old_buckets[i]@[j1] == s[j1]);
                                }
                            } else {
                                if j < s.len() {
                                    assert(old_buckets[i]@[j] == s[j]);
                                }
                            }
                        } else {
                            assert(self.buckets@[i] == old_buckets[i]);
                        }
                    }
                }
            },
            None => {
                proof {
                    lemma_bucket_none_iff_same(self.local_id, contact.id);
                    assert(contact.id =~= self.local_id);
                }
            },
        }
    }

    /// Returns the `k` contacts closest to `target`: the first `k` of all
    /// contacts ordered by ascending XOR distance to it.
    pub fn closest_to(&self, target: &NodeId, k: usize) -> (r: Vec<&Contact>)
        requires
            self.wf(),
        ensures
            r@.len() == if k < self.contacts().len() {
                k as int
            } else {
                self.contacts().len() as int
            },
            exists|s: Seq<Contact>|
                #![trigger sorted_by_distance(*target, s)]
                s.to_multiset() == self.contacts().to_multiset() && sorted_by_distance(*target, s)
                    && derefs(r@) == s.subrange(0, r@.len() as int),
    {
        let all = self.collect_contacts();
        assert(all@.len() == derefs(all@).len());
        let sorted = sort_by_distance(target, all);
        let mut r: Vec<&Contact> = Vec::new();
        let mut i: usize = 0;
        let n = sorted.len();
        while i < n && i < k
            invariant
                n == sorted@.len(),
                n == self.contacts().len(),
                i <= n,
                i <= k,
                r@.len() == i,
                forall|j: int| 0 <= j < i ==> r@[j] == sorted@[j],
            decreases n - i,
        {
            r.push(sorted[i]);
            i = i + 1;
        }
        proof {
            let s = derefs(sorted@);
            assert(derefs(r@) =~= s.subrange(0, r@.len() as int));
            assert(sorted_by_distance(*target, s));
        }
        r
    }

    /// References to all contacts, bucket after bucket.
    fn collect_contacts(&self) -> (all: Vec<&Contact>)
        requires
            self.wf(),
        ensures
            derefs(all@) == self.contacts(),
    {
        let mut all: Vec<&Contact> = Vec::new();
        let mut i: usize = 0;
        while i < NUM_BUCKETS
            invariant
                self.wf(),
                i <= NUM_BUCKETS,
                derefs(all@) == self.bucket_seqs().subrange(0, i as int).flatten(),
            decreases NUM_BUCKETS - i,
        {
            let bucket = &self.buckets[i];
            let len = bucket.contacts.len();
            let ghost start = derefs(all@);
            let mut j: usize = 0;
            while j < len
                invariant
                    len == bucket@.len(),
                    j <= len,
                    derefs(all@) == start + bucket@.subrange(0, j as int),
                decreases len - j,
            {
                let ghost pre = all@;
                let c = &bucket.contacts[j];
                assert(*c == bucket@[j as int]);
                all.push(c);
                proof {
                    assert(derefs(all@) =~= derefs(pre).push(*c));
                    assert(bucket@.subrange(0, j + 1) =~= bucket@.subrange(0, j as int).push(*c));
                    assert(derefs(all@) =~= start + bucket@.subrange(0, j + 1));
                }
                j = j + 1;
            }
            proof {
                let pre = self.bucket_seqs().subrange(0, i as int);
                assert(self.bucket_seqs().subrange(0, i + 1) =~= pre.push(bucket@));
                pre.lemma_flatten_push(bucket@);
                assert(bucket@.subrange(0, j as int) =~= bucket@);
            }
            i = i + 1;
        }
        assert(self.bucket_seqs().subrange(0, NUM_BUCKETS as int) =~= self.bucket_seqs());
        all
    }

    /// Returns the total number of contacts across all buckets.
    pub fn total_contacts(&self) -> (n: usize)
        requires
            self.wf(),
        ensures
            n == self.contacts().len(),
    {
        let mut n: usize = 0;
        let mut i: usize = 0;
        while i < NUM_BUCKETS
            invariant
                self.wf(),
                i <= NUM_BUCKETS,
                n <= K_BUCKET_SIZE * i,
                n == self.bucket_seqs().subrange(0, i as int).flatten().len(),
            decreases NUM_BUCKETS - i,
        {
            proof {
                let pre = self.bucket_seqs().subrange(0, i as int);
                assert(self.bucket_seqs().subrange(0, i + 1) =~= pre.push(
                    self.buckets@[i as int]@,
                ));
                pre.lemma_flatten_push(self.buckets@[i as int]@);
                assert(kbucket_wf(self.buckets@[i as int]@));
            }
            n = n + self.buckets[i].len();
            i = i + 1;
        }
        assert(self.bucket_seqs().subrange(0, NUM_BUCKETS as int) =~= self.bucket_seqs());
        n
    }
}

/// Orders references to contacts by ascending distance to `target`.
fn sort_by_distance<'a>(target: &NodeId, all: Vec<&'a Contact>) -> (out: Vec<&'a Contact>)
    ensures
        out@.len() == all@.len(),
        sorted_by_distance(*target, derefs(out@)),
        derefs(out@).to_multiset() == derefs(all@).to_multiset(),
{
    let mut out: Vec<&Contact> = Vec::new();
    let mut i: usize = 0;
    while i < all.len()
        invariant
            i <= all@.len(),
            out@.len() == i,
            sorted_by_distance(*target, derefs(out@)),
            derefs(out@).to_multiset() == derefs(all@.subrange(0, i as int)).to_multiset(),
        decreases all@.len() - i,
    {
        let x = all[i];
        let mut pos: usize = 0;
        while pos < out.len() && !dist_le(target, &x.id, &out[pos].id)
            invariant
                pos <= out@.len(),
                forall|j: int| 0 <= j < pos ==> !closer_eq(*target, x.id, (#[trigger] out@[j]).id),
            decreases out@.len() - pos,
        {
            pos = pos + 1;
        }
        let ghost before = derefs(out@);
        out.insert(pos, x);
        proof {
            let after = derefs(out@);
            assert(after =~= before.insert(pos as int, *x));
            assert forall|a: int, b: int| 0 <= a < b < after.len() implies closer_eq(
                *target,
                #[trigger] after[a].id,
                #[trigger] after[b].id,
            ) by {
                let t = *target;
                if b < pos {
                    assert(after[a] == before[a] && after[b] == before[b]);
                } else if b == pos {
                    assert(after[a] == before[a]);
                    assert(!closer_eq(t, x.id, out@[a].id));
                    lemma_bytes_le_total(xor_distance(t, x.id), xor_distance(t, before[a].id));
                } else if a == pos {
                    assert(after[b] == before[b - 1]);
                    if pos < before.len() {
                        assert(closer_eq(t, x.id, before[pos as int].id));
                        if b - 1 > pos {
                            assert(closer_eq(t, before[pos as int].id, before[b - 1].id));
                            lemma_bytes_le_transitive(
                                xor_distance(t, x.id),
                                xor_distance(t, before[pos as int].id),
                                xor_distance(t, before[b - 1].id),
                            );
                        }
                    }
                } else if a > pos {
                    assert(after[a] == before[a - 1] && after[b] == before[b - 1]);
                } else {
                    assert(after[a] == before[a] && after[b] == before[b - 1]);
                }
            }
            vstd::seq_lib::to_multiset_insert(before, pos as int, *x);
            assert(derefs(all@.subrange(0, i + 1)) =~= derefs(all@.subrange(0, i as int)).push(
                *x,
            ));
        }
        i = i + 1;
    }
    assert(all@.subrange(0, i as int) =~= all@);
    out
}

/// Returns the closest known contacts to `target`, at most `K_BUCKET_SIZE`.
pub fn find_node<'a>(table: &'a RoutingTable, target: &NodeId) -> (r: Vec<&'a Contact>)
    requires
        table.wf(),
    ensures
        r@.len() == if K_BUCKET_SIZE < table.contacts().len() {
            K_BUCKET_SIZE as int
        } else {
            table.contacts().len() as int
        },
        exists|s: Seq<Contact>|
            #![trigger sorted_by_distance(*target, s)]
            s.to_multiset() == table.contacts().to_multiset() && sorted_by_distance(*target, s)
                && derefs(r@) == s.subrange(0, r@.len() as int),
{
    table.closest_to(target, K_BUCKET_SIZE)
}

/// A local identity with its routing table.
pub struct DhtNode {
    /// The node's identity.
    pub id: NodeId,
    /// The node's routing table.
    pub routing_table: RoutingTable,
}

impl DhtNode {
    /// Creates a node with an empty routing table.
    pub fn new(id: NodeId) -> (n: DhtNode)
        ensures
            n.id == id,
            n.routing_table.wf(),
            n.routing_table.spec_local() == id,
            n.routing_table.contacts().len() == 0,
    {
        let t = RoutingTable::new(id);
        proof {
            lemma_flatten_empties(t.bucket_seqs());
        }
        DhtNode { id, routing_table: t }
    }

    /// Inserts each seed contact, in order, into the routing table.
    pub fn bootstrap(&mut self, seeds: Vec<Contact>)
        requires
            old(self).routing_table.wf(),
        ensures
            final(self).routing_table.wf(),
            final(self).id == old(self).id,
            final(self).routing_table.spec_local() == old(self).routing_table.spec_local(),
            final(self).routing_table.bucket_seqs() == routing_after_all(
                old(self).routing_table.spec_local(),
                old(self).routing_table.bucket_seqs(),
                seeds@,
            ),
    {
        let mut i: usize = 0;
        let n = seeds.len();
        while i < n
            invariant
                n == seeds@.len(),
                i <= n,
                self.routing_table.wf(),
                self.id == old(self).id,
                self.routing_table.spec_local() == old(self).routing_table.spec_local(),
                self.routing_table.bucket_seqs() == routing_after_all(
                    old(self).routing_table.spec_local(),
                    old(self).routing_table.bucket_seqs(),
                    seeds@.subrange(0, i as int),
                ),
            decreases n - i,
        {
            let c = copy_contact(&seeds[i]);
            self.routing_table.update(c);
            proof {
                assert(seeds@.subrange(0, i + 1).drop_last() =~= seeds@.subrange(0, i as int));
            }
            i = i + 1;
        }
        assert(seeds@.subrange(0, n as int) =~= seeds@);
    }

    /// Looks up the closest known contacts to the given target.
    pub fn lookup(&self, target: &NodeId) -> (r: Vec<&Contact>)
        requires
            self.routing_table.wf(),
        ensures
            r@.len() == if K_BUCKET_SIZE < self.routing_table.contacts().len() {
                K_BUCKET_SIZE as int
            } else {
                self.routing_table.contacts().len() as int
            },
            exists|s: Seq<Contact>|
                #![trigger sorted_by_distance(*target, s)]
                s.to_multiset() == self.routing_table.contacts().to_multiset()
                    && sorted_by_distance(*target, s) && derefs(r@) == s.subrange(
                    0,
                    r@.len() as int,
                ),
    {
        find_node(&self.routing_table, target)
    }
}

// ─── Sorted shortlist ────────────────────────────────────────────────────────

/// The largest key of a map under the byte-string order.
pub open spec fn max_key(m: Map<Seq<u8>, Contact>) -> Seq<u8> {
    choose|k: Seq<u8>|
        m.dom().contains(k) && forall|j: Seq<u8>| #[trigger] m.dom().contains(j) ==> bytes_le(j, k)
}

/// One step of the shortlist: `c` is stored under its distance to `target`
/// (replacing a contact at the same distance), then the farthest entry is
/// dropped if there are more than `limit`.
pub open spec fn shortlist_step(
    m: Map<Seq<u8>, Contact>,
    target: NodeId,
    c: Contact,
    limit: usize,
) -> Map<Seq<u8>, Contact> {
    let m1 = m.insert(xor_distance(target, c.id), c);
    if m1.dom().len() > limit {
        m1.remove(max_key(m1))
    } else {
        m1
    }
}

/// The shortlist after offering `contacts` in order, keyed by distance.
pub open spec fn shortlist_of(
    contacts: Seq<Contact>,
    target: NodeId,
    limit: usize,
) -> Map<Seq<u8>, Contact>
    decreases contacts.len(),
{
    if contacts.len() == 0 {
        Map::empty()
    } else {
        shortlist_step(
            shortlist_of(contacts.drop_last(), target, limit),
            target,
            contacts.last(),
            limit,
        )
    }
}

/// The keys of a shortlist, in order.
pub open spec fn shortlist_keys(l: Seq<(Distance, Contact)>) -> Seq<Seq<u8>> {
    l.map_values(|e: (Distance, Contact)| e.0.0@)
}

/// The entries are in strictly ascending order of distance.
pub open spec fn strictly_ascending(l: Seq<(Distance, Contact)>) -> bool {
    forall|i: int, j: int|
        0 <= i < j < l.len() ==> bytes_le(#[trigger] l[i].0.0@, #[trigger] l[j].0.0@) && l[i].0.0@
            != l[j].0.0@
}

/// `l` lists exactly the entries of `m`, in ascending order of key.
pub open spec fn lists_map(l: Seq<(Distance, Contact)>, m: Map<Seq<u8>, Contact>) -> bool {
    &&& strictly_ascending(l)
    &&& m.dom() == shortlist_keys(l).to_set()
    &&& forall|i: int| 0 <= i < l.len() ==> m[#[trigger] l[i].0.0@] == l[i].1
}

proof fn lemma_lists_map_len(l: Seq<(Distance, Contact)>, m: Map<Seq<u8>, Contact>)
    requires
        lists_map(l, m),
    ensures
        m.dom().finite(),
        m.dom().len() == l.len(),
        shortlist_keys(l).no_duplicates(),
{
    let ks = shortlist_keys(l);
    assert forall|i: int, j: int| 0 <= i < ks.len() && 0 <= j < ks.len() && i != j implies ks[i]
        != ks[j] by {
        if i < j {
            assert(l[i].0.0@ != l[j].0.0@);
        } else {
            assert(l[j].0.0@ != l[i].0.0@);
        }
    }
    ks.unique_seq_to_set();
}

/// The `limit` closest distinct distances among `contacts`, each with the
/// last contact offered at that distance, in ascending order of distance.
pub fn sorted_shortlist(contacts: Vec<Contact>, target: &NodeId, limit: usize) -> (r: Vec<
    (Distance, Contact),
>)
    ensures
        lists_map(r@, shortlist_of(contacts@, *target, limit)),
{
    let mut list: Vec<(Distance, Contact)> = Vec::new();
    let n = contacts.len();
    let mut i: usize = 0;
    proof {
        assert(shortlist_keys(list@).to_set() =~= Set::<Seq<u8>>::empty());
        assert(contacts@.subrange(0, 0) =~= Seq::<Contact>::empty());
    }
    while i < n
        invariant
            n == contacts@.len(),
            i <= n,
            lists_map(list@, shortlist_of(contacts@.subrange(0, i as int), *target, limit)),
        decreases n - i,
    {
        let ghost m = shortlist_of(contacts@.subrange(0, i as int), *target, limit);
        let c = copy_contact(&contacts[i]);
        let d = Distance::between(target, &c.id);
        proof {
            assert(contacts@.subrange(0, i + 1).drop_last() =~= contacts@.subrange(0, i as int));
            lemma_lists_map_len(list@, m);
        }
        let mut pos: usize = 0;
        while pos < list.len() && hash_le(&list[pos].0.0, &d.0) && !hash_eq(&list[pos].0.0, &d.0)
            invariant
                pos <= list@.len(),
                forall|j: int|
                    0 <= j < pos ==> bytes_le((#[trigger] list@[j]).0.0@, d.0@) && list@[j].0.0@
                        != d.0@,
            decreases list@.len() - pos,
        {
            pos = pos + 1;
        }
        let ghost before = list@;
        let ghost m1 = m.insert(d.0@, c);
        let replace = pos < list.len() && hash_eq(&list[pos].0.0, &d.0);
        proof {
            if pos < before.len() {
                lemma_bytes_le_total(before[pos as int].0.0@, d.0@);
            }
            // Everything at or after `pos` is at least `d`.
            assert forall|j: int| pos <= j < before.len() implies bytes_le(
                d.0@,
                #[trigger] before[j].0.0@,
            ) by {
                if j > pos {
                    assert(bytes_le(before[pos as int].0.0@, before[j].0.0@));
                    lemma_bytes_le_transitive(d.0@, before[pos as int].0.0@, before[j].0.0@);
                }
            }
        }
        if replace {
            list.set(pos, (d, c));
            proof {
                let after = list@;
                assert(before[pos as int].0.0@ == d.0@);
                assert(shortlist_keys(before)[pos as int] == d.0@);
                assert(shortlist_keys(after) =~= shortlist_keys(before));
                assert(m1.dom() =~= m.dom());
                assert forall|j: int| 0 <= j < after.len() implies m1[#[trigger] after[j].0.0@]
                    == after[j].1 by {
                    if j != pos {
                        assert(after[j] == before[j]);
                        assert(before[j].0.0@ != before[pos as int].0.0@) by {
                            if j < pos {
                            } else {
                            }
                        }
                    }
                }
                assert(lists_map(after, m1));
            }
        } else {
            list.insert(pos, (d, c));
            proof {
                let after = list@;
                assert(after =~= before.insert(pos as int, (d, c)));
                assert(!m.dom().contains(d.0@)) by {
                    if m.dom().contains(d.0@) {
                        assert(shortlist_keys(before).to_set().contains(d.0@));
                        let w = choose|w: int|
                            0 <= w < shortlist_keys(before).len() && shortlist_keys(before)[w]
                                == d.0@;
                        assert(before[w].0.0@ == d.0@);
                        if w >= pos {
                            if w > pos {
                                assert(bytes_le(before[pos as int].0.0@, before[w].0.0@));
                                lemma_bytes_le_antisymmetric(before[pos as int].0.0@, d.0@);
                            }
                        }
                    }
                }
                assert(shortlist_keys(after) =~= shortlist_keys(before).insert(pos as int, d.0@));
                assert(m1.dom() =~= shortlist_keys(after).to_set()) by {
                    assert forall|k: Seq<u8>| m1.dom().contains(k) implies shortlist_keys(
                        after,
                    ).to_set().contains(k) by {
                        if k == d.0@ {
                            assert(shortlist_keys(after)[pos as int] == k);
                        } else {
                            let w = choose|w: int|
                                0 <= w < shortlist_keys(before).len() && shortlist_keys(before)[w]
                                    == k;
                            let w1 = if w < pos { w } else { w + 1 };
                            assert(shortlist_keys(after)[w1] == k);
                        }
                    }
                    assert forall|k: Seq<u8>| shortlist_keys(after).to_set().contains(k) implies m1.dom().contains(k) by {
                        let w = choose|w: int|
                            0 <= w < shortlist_keys(after).len() && shortlist_keys(after)[w] == k;
                        if w != pos {
                            let w0 = if w < pos { w } else { w - 1 };
                            assert(shortlist_keys(before)[w0] == k);
                        }
                    }
                }
                assert forall|a: int, b: int| 0 <= a < b < after.len() implies bytes_le(
                    #[trigger] after[a].0.0@,
                    #[trigger] after[b].0.0@,
                ) && after[a].0.0@ != after[b].0.0@ by {
                    if b < pos {
                        assert(after[a] == before[a] && after[b] == before[b]);
                    } else if b == pos {
                        assert(after[a] == before[a]);
                    } else if a == pos {
                        assert(after[b] == before[b - 1]);
                        if before[b - 1].0.0@ == d.0@ {
                            assert(shortlist_keys(before)[b - 1] == d.0@);
                        }
                    } else if a > pos {
                        assert(after[a] == before[a - 1] && after[b] == before[b - 1]);
                    } else {
                        assert(after[a] == before[a] && after[b] == before[b - 1]);
                    }
                }
                assert forall|j: int| 0 <= j < after.len() implies m1[#[trigger] after[j].0.0@]
                    == after[j].1 by {
                    if j != pos {
                        let j0 = if j < pos { j } else { j - 1 };
                        assert(after[j] == before[j0]);
                        if before[j0].0.0@ == d.0@ {
                            assert(shortlist_keys(before)[j0] == d.0@);
                        }
                    }
                }
                assert(lists_map(after, m1));
            }
        }
        proof {
            lemma_lists_map_len(list@, m1);
        }
        if list.len() > limit {
            let ghost full = list@;
            let ghost last_key = full[full.len() - 1].0.0@;
            proof {
                assert forall|j: Seq<u8>| #[trigger] m1.dom().contains(j) implies bytes_le(
                    j,
                    last_key,
                ) by {
                    let w = choose|w: int|
                        0 <= w < shortlist_keys(full).len() && shortlist_keys(full)[w] == j;
                    if w < full.len() - 1 {
                        assert(bytes_le(full[w].0.0@, full[full.len() - 1].0.0@));
                    } else {
                        lemma_bytes_le_reflexive(j);
                    }
                }
                assert(shortlist_keys(full)[full.len() - 1] == last_key);
                assert(m1.dom().contains(last_key));
                let mk = max_key(m1);
                assert(m1.dom().contains(mk) && bytes_le(last_key, mk) && bytes_le(mk, last_key));
                lemma_bytes_le_antisymmetric(last_key, mk);
            }
            list.pop();
            proof {
                let after = list@;
                assert(after =~= full.drop_last());
                let m2 = m1.remove(last_key);
                assert(shortlist_keys(after) =~= shortlist_keys(full).drop_last());
                assert(m2.dom() =~= shortlist_keys(after).to_set()) by {
                    assert forall|k: Seq<u8>| m2.dom().contains(k) implies shortlist_keys(
                        after,
                    ).to_set().contains(k) by {
                        let w = choose|w: int|
                            0 <= w < shortlist_keys(full).len() && shortlist_keys(full)[w] == k;
                        assert(w != full.len() - 1);
                        assert(shortlist_keys(after)[w] == k);
                    }
                    assert forall|k: Seq<u8>| shortlist_keys(after).to_set().contains(k) implies m2.dom().contains(k) by {
                        let w = choose|w: int|
                            0 <= w < shortlist_keys(after).len() && shortlist_keys(after)[w] == k;
                        assert(full[w].0.0@ != full[full.len() - 1].0.0@);
                        assert(shortlist_keys(full)[w] == k);
                    }
                }
                assert forall|j: int| 0 <= j < after.len() implies m2[#[trigger] after[j].0.0@]
                    == after[j].1 by {
                    assert(after[j] == full[j]);
                    assert(full[j].0.0@ != full[full.len() - 1].0.0@);
                }
                assert(lists_map(after, m2));
            }
        }
        i = i + 1;
    }
    assert(contacts@.subrange(0, n as int) =~= contacts@);
    list
}

proof fn lemma_flatten_empties(s: Seq<Seq<Contact>>)
    requires
        forall|i: int| 0 <= i < s.len() ==> (#[trigger] s[i]).len() == 0,
    ensures
        s.flatten().len() == 0,
    decreases s.len(),
{
    if s.len() > 0 {
        lemma_flatten_empties(s.drop_first());
    }
}

} // verus!
