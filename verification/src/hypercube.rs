//! Hypercube routing: node positions are bit strings, neighbours differ in
//! one bit, and greedy routing flips the highest differing bit for which a
//! neighbour is known.
use vstd::prelude::*;
use vstd::arithmetic::power2::pow2;

verus! {

/// The maximum supported dimensionality.
pub const MAX_DIMENSIONS: usize = 32;

/// A position in the hypercube; only the low `dimensions` bits matter.
#[derive(Debug, Clone, Copy, PartialEq, Eq, Hash, Structural)]
pub struct HypercubeAddress(pub u32);

/// The first four bytes of an identity, read little-endian.
pub open spec fn le_u32(id: [u8; 32]) -> int {
    id[0] + 256 * id[1] + 65536 * id[2] + 16777216 * id[3]
}

/// The number of set bits of `x`.
pub open spec fn popcount(x: u32) -> nat
    decreases x,
{
    if x == 0 {
        0
    } else {
        (x % 2) as nat + popcount(x / 2)
    }
}

/// `x` has exactly one bit set.
pub open spec fn single_bit(x: u32) -> bool {
    x != 0 && x & ((x - 1) as u32) == 0
}

proof fn lemma_popcount_single(i: u32)
    requires
        i < 32,
    ensures
        popcount(1u32 << i) == 1,
    decreases i,
{
    let x = 1u32 << i;
    if i == 0 {
        assert(1u32 << 0u32 == 1) by (bit_vector);
        assert(popcount(0) == 0);
    } else {
        let j = (i - 1) as u32;
        assert(x != 0 && x % 2 == 0 && x / 2 == 1u32 << j) by (bit_vector)
            requires
                0 < i < 32,
                j + 1 == i,
                x == 1u32 << i,
        ;
        lemma_popcount_single((i - 1) as u32);
    }
}

impl HypercubeAddress {
    /// The position of an identity: its first four bytes read little-endian,
    /// reduced to the low `dimensions` bits.
    pub fn from_adnl(adnl_id: &[u8; 32], dimensions: usize) -> (a: HypercubeAddress)
        requires
            dimensions <= MAX_DIMENSIONS,
        ensures
            a.0 == le_u32(*adnl_id) % pow2(dimensions as nat) as int,
    {
        let raw: u32 = adnl_id[0] as u32 + 256 * (adnl_id[1] as u32) + 65536 * (adnl_id[2] as u32)
            + 16777216 * (adnl_id[3] as u32);
        if dimensions == 32 {
            proof {
                vstd::arithmetic::power2::lemma2_to64();
                vstd::arithmetic::div_mod::lemma_small_mod(raw as nat, pow2(32));
            }
            return HypercubeAddress(raw);
        }
        let d = dimensions as u32;
        proof {
            vstd::bits::lemma_u32_pow2_no_overflow(d as nat);
            vstd::bits::lemma_u32_shl_is_mul(1u32, d);
            vstd::arithmetic::power2::lemma_pow2_pos(d as nat);
        }
        let mask = (1u32 << d) - 1;
        proof {
            assert(mask == vstd::bits::low_bits_mask(d as nat) as u32);
            vstd::bits::lemma_u32_low_bits_mask_is_mod(raw, d as nat);
        }
        HypercubeAddress(raw & mask)
    }

    /// The number of bits in which two addresses differ.
    pub fn hamming_distance(&self, other: &HypercubeAddress) -> (d: u32)
        ensures
            d == popcount(self.0 ^ other.0),
    {
        let mut x = self.0 ^ other.0;
        let mut count: u32 = 0;
        proof {
            lemma_popcount_bound(self.0 ^ other.0);
        }
        while x != 0
            invariant
                count + popcount(x) == popcount(self.0 ^ other.0),
                popcount(self.0 ^ other.0) <= 32,
            decreases x,
        {
            proof {
                assert(x >> 1u32 == x / 2 && x & 1 == x % 2) by (bit_vector);
            }
            count = count + (x & 1);
            x = x >> 1;
        }
        count
    }

    /// The direct neighbours: the address with bit `i` flipped, for each
    /// `i` below `dimensions`, in order.
    pub fn neighbours(&self, dimensions: usize) -> (v: Vec<HypercubeAddress>)
        requires
            dimensions <= MAX_DIMENSIONS,
        ensures
            v@.len() == dimensions,
            forall|i: int| 0 <= i < dimensions ==> (#[trigger] v@[i]).0 == self.0 ^ (1u32 << i as u32),
    {
        let mut v: Vec<HypercubeAddress> = Vec::new();
        let mut bit: usize = 0;
        while bit < dimensions
            invariant
                bit <= dimensions <= MAX_DIMENSIONS,
                v@.len() == bit,
                forall|i: int| 0 <= i < bit ==> (#[trigger] v@[i]).0 == self.0 ^ (1u32 << i as u32),
            decreases dimensions - bit,
        {
            v.push(HypercubeAddress(self.0 ^ (1u32 << bit as u32)));
            bit = bit + 1;
        }
        v
    }
}

/// Every neighbour differs from the address in exactly one bit.
pub proof fn lemma_neighbour_distance(a: u32, i: u32)
    requires
        i < 32,
    ensures
        popcount(a ^ (a ^ (1u32 << i))) == 1,
{
    assert(a ^ (a ^ (1u32 << i)) == 1u32 << i) by (bit_vector);
    lemma_popcount_single(i);
}

proof fn lemma_popcount_bound(x: u32)
    ensures
        popcount(x) <= 32,
{
    vstd::arithmetic::power2::lemma2_to64();
    lemma_popcount_le(x, 32);
}

proof fn lemma_popcount_le(x: u32, n: nat)
    requires
        n <= 32,
        x < pow2(n),
    ensures
        popcount(x) <= n,
    decreases n,
{
    if n == 0 {
        vstd::arithmetic::power2::lemma2_to64();
        assert(x == 0);
    } else if x > 0 {
        vstd::arithmetic::power2::lemma_pow2_unfold(n);
        assert(x / 2 < pow2((n - 1) as nat));
        lemma_popcount_le(x / 2, (n - 1) as nat);
        assert(x % 2 <= 1);
        assert(popcount(x) == (x % 2) as nat + popcount(x / 2));
    }
}

/// A routing table entry: a neighbour's position and identity.
#[derive(Debug, Clone, Copy)]
pub struct RouteEntry {
    /// The neighbour's position.
    pub address: HypercubeAddress,
    /// The neighbour's identity.
    pub adnl_id: [u8; 32],
}

/// One slot per dimension, each holding at most one direct neighbour.
#[derive(Debug)]
pub struct HypercubeRouter {
    /// This node's position.
    pub local: HypercubeAddress,
    /// Number of dimensions.
    pub dimensions: usize,
    pub(crate) table: Vec<Option<RouteEntry>>,
}

/// Being a filled slot.
pub open spec fn is_filled() -> spec_fn(Option<RouteEntry>) -> bool {
    |s: Option<RouteEntry>| s is Some
}

/// The number of filled slots.
pub open spec fn filled_count(slots: Seq<Option<RouteEntry>>) -> nat {
    slots.filter(is_filled()).len()
}

/// Filling an empty slot adds one filled slot.
proof fn lemma_fill_slot(s: Seq<Option<RouteEntry>>, b: int, e: RouteEntry)
    requires
        0 <= b < s.len(),
        s[b] is None,
    ensures
        filled_count(s.update(b, Some(e))) == filled_count(s) + 1,
    decreases s.len(),
{
    let t = s.update(b, Some(e));
    assert(s =~= s.drop_last().push(s.last()));
    assert(t =~= t.drop_last().push(t.last()));
    s.drop_last().lemma_filter_push(s.last(), is_filled());
    t.drop_last().lemma_filter_push(t.last(), is_filled());
    if b < s.len() - 1 {
        assert(t.drop_last() =~= s.drop_last().update(b, Some(e)));
        lemma_fill_slot(s.drop_last(), b, e);
    } else {
        assert(t.drop_last() =~= s.drop_last());
    }
}

/// `x` has bit `b` set.
pub open spec fn bit_set(x: u32, b: int) -> bool {
    (x >> b as u32) & 1 == 1
}

impl HypercubeRouter {
    /// The routing slots.
    pub closed spec fn slots(&self) -> Seq<Option<RouteEntry>> {
        self.table@
    }

    /// The position of this node.
    pub open(crate) spec fn spec_local(&self) -> HypercubeAddress {
        self.local
    }

    /// The dimensionality.
    pub open(crate) spec fn spec_dimensions(&self) -> usize {
        self.dimensions
    }

    /// One slot per dimension, and every stored entry is the neighbour
    /// across the bit of its slot.
    pub closed spec fn wf(&self) -> bool {
        &&& self.table@.len() == self.dimensions
        &&& self.dimensions <= MAX_DIMENSIONS
        &&& forall|i: int|
            0 <= i < self.table@.len() ==> (#[trigger] self.table@[i] matches Some(e) ==> {
                let x = self.local.0 ^ e.address.0;
                single_bit(x) && x.trailing_zeros() == i
            })
    }

    /// The table has one slot per dimension, and the entry in slot `i` is
    /// the neighbour across bit `i`.
    pub proof fn lemma_slot_entries(&self)
        requires
            self.wf(),
        ensures
            self.slots().len() == self.spec_dimensions(),
            self.spec_dimensions() <= MAX_DIMENSIONS,
            forall|i: int|
                0 <= i < self.slots().len() ==> (#[trigger] self.slots()[i] matches Some(e) ==> e.address.0
                    == self.spec_local().0 ^ (1u32 << i as u32)),
    {
        assert forall|i: int|
            0 <= i < self.slots().len() implies (#[trigger] self.slots()[i] matches Some(e) ==> e.address.0
                == self.spec_local().0 ^ (1u32 << i as u32)) by {
            if let Some(e) = self.slots()[i] {
                lemma_single_bit_neighbour(self.local.0, e.address.0, i);
            }
        }
    }

    /// Creates an empty router.
    pub fn new(local: HypercubeAddress, dimensions: usize) -> (r: HypercubeRouter)
        requires
            dimensions <= MAX_DIMENSIONS,
        ensures
            r.wf(),
            r.spec_local() == local,
            r.spec_dimensions() == dimensions,
            r.slots() == Seq::new(dimensions as nat, |i: int| None::<RouteEntry>),
    {
        let mut table: Vec<Option<RouteEntry>> = Vec::new();
        let mut i: usize = 0;
        while i < dimensions
            invariant
                i <= dimensions,
                table@ == Seq::new(i as nat, |j: int| None::<RouteEntry>),
            decreases dimensions - i,
        {
            table.push(None);
            proof {
                assert(table@ =~= Seq::new((i + 1) as nat, |j: int| None::<RouteEntry>));
            }
            i = i + 1;
        }
        HypercubeRouter { local, dimensions, table }
    }

    /// Stores a direct neighbour in the slot of the bit in which it
    /// differs; refuses (returning `false`, changing nothing) an address that
    /// differs in no bit or in several, a bit beyond the dimensionality, or
    /// an occupied slot.
    pub fn register_neighbour(&mut self, entry: RouteEntry) -> (r: bool)
        requires
            old(self).wf(),
        ensures
            final(self).wf(),
            final(self).spec_local() == old(self).spec_local(),
            final(self).spec_dimensions() == old(self).spec_dimensions(),
            final(self).slots().len() == final(self).spec_dimensions(),
            r ==> filled_count(final(self).slots()) == filled_count(old(self).slots()) + 1,
            ({
                let x = old(self).spec_local().0 ^ entry.address.0;
                let b = x.trailing_zeros() as int;
                if single_bit(x) && b < old(self).spec_dimensions() && old(self).slots()[b] is None {
                    r && final(self).slots() == old(self).slots().update(b, Some(entry))
                } else {
                    !r && final(self).slots() == old(self).slots()
                }
            }),
    {
        let xor = self.local.0 ^ entry.address.0;
        if xor == 0 || (xor & (xor - 1)) != 0 {
            return false;
        }
        let bit = xor.trailing_zeros() as usize;
        if bit >= self.dimensions {
            return false;
        }
        if self.table[bit].is_none() {
            proof {
                lemma_fill_slot(self.table@, bit as int, entry);
            }
            self.table.set(bit, Some(entry));
            true
        } else {
            false
        }
    }

    /// The next hop towards `dest`: the entry of the highest bit in which
    /// `dest` differs from this node and whose slot is filled; `None` when
    /// `dest` is this node or no such slot exists.
    pub fn next_hop(&self, dest: HypercubeAddress) -> (r: Option<&RouteEntry>)
        requires
            self.wf(),
        ensures
            ({
                let x = self.spec_local().0 ^ dest.0;
                match r {
                    Some(e) => exists|b: int|
                        #![trigger self.slots()[b]]
                        0 <= b < self.spec_dimensions() && bit_set(x, b) && self.slots()[b] == Some(*e)
                            && e.address.0 == self.spec_local().0 ^ (1u32 << b as u32)
                            && forall|c: int|
                            b < c < self.spec_dimensions() && bit_set(x, c) ==> #[trigger] self.slots()[c] is None,
                    None => x == 0 || forall|b: int|
                        0 <= b < self.spec_dimensions() && bit_set(x, b) ==> #[trigger] self.slots()[b] is None,
                }
            }),
    {
        let xor = self.local.0 ^ dest.0;
        if xor == 0 {
            return None;
        }
        let mut bit: usize = self.dimensions;
        while bit > 0
            invariant
                self.wf(),
                xor == self.local.0 ^ dest.0,
                bit <= self.dimensions,
                forall|c: int| bit <= c < self.dimensions && bit_set(xor, c) ==> #[trigger] self.table@[c] is None,
            decreases bit,
        {
            let b = bit - 1;
            if (xor >> b as u32) & 1 == 1 {
                match &self.table[b] {
                    Some(entry) => {
                        proof {
                            self.lemma_slot_entries();
                        }
                        return Some(entry);
                    },
                    None => {},
                }
            }
            bit = b;
        }
        let mut bit2: usize = 0;
        while bit2 < self.dimensions
            invariant
                self.wf(),
                xor == self.local.0 ^ dest.0,
                bit2 <= self.dimensions,
                forall|c: int| 0 <= c < self.dimensions && bit_set(xor, c) ==> #[trigger] self.table@[c] is None,
            decreases self.dimensions - bit2,
        {
            if (xor >> bit2 as u32) & 1 == 1 {
                match &self.table[bit2] {
                    Some(entry) => {
                        proof {
                            self.lemma_slot_entries();
                        }
                        return Some(entry);
                    },
                    None => {},
                }
            }
            bit2 = bit2 + 1;
        }
        None
    }

    /// Returns the number of filled slots.
    pub fn known_neighbours(&self) -> (n: usize)
        ensures
            n == filled_count(self.slots()),
    {
        let mut n: usize = 0;
        let mut i: usize = 0;
        while i < self.table.len()
            invariant
                i <= self.table@.len(),
                n == filled_count(self.table@.take(i as int)),
                n <= i,
            decreases self.table@.len() - i,
        {
            proof {
                let t = self.table@.take(i + 1);
                assert(t.drop_last() =~= self.table@.take(i as int));
                assert(t.last() == self.table@[i as int]);
                reveal_with_fuel(Seq::filter, 1);
            }
            if self.table[i].is_some() {
                n = n + 1;
            }
            i = i + 1;
        }
        assert(self.table@.take(i as int) =~= self.table@);
        n
    }
}

/// Clearing a set bit removes exactly one from the count of set bits.
proof fn lemma_popcount_clear_bit(x: u32, b: u32)
    requires
        b < 32,
        (x >> b) & 1 == 1,
    ensures
        popcount(x ^ (1u32 << b)) + 1 == popcount(x),
    decreases b,
{
    let y = x ^ (1u32 << b);
    if b == 0 {
        assert(x != 0 && x % 2 == 1 && y % 2 == 0 && y / 2 == x / 2) by (bit_vector)
            requires
                (x >> 0u32) & 1 == 1,
                y == x ^ (1u32 << 0u32),
        ;
        assert(popcount(x) == 1 + popcount(x / 2));
        if y != 0 {
            assert(popcount(y) == 0 + popcount(y / 2));
        }
    } else {
        let c = (b - 1) as u32;
        assert(x != 0 && y % 2 == x % 2 && y / 2 == (x / 2) ^ (1u32 << c) && ((x / 2) >> c) & 1 == 1)
            by (bit_vector)
            requires
                0 < b < 32,
                c + 1 == b,
                (x >> b) & 1 == 1,
                y == x ^ (1u32 << b),
        ;
        lemma_popcount_clear_bit(x / 2, c);
        assert(popcount(x) == (x % 2) as nat + popcount(x / 2));
        if y != 0 {
            assert(popcount(y) == (y % 2) as nat + popcount(y / 2));
        } else {
            assert(y / 2 == 0 && y % 2 == 0);
            assert(popcount(0) == 0);
        }
    }
}

/// A hop to the neighbour stored in the slot of a bit in which the
/// destination differs brings the message one bit closer to it.
pub proof fn lemma_hop_progress(router: HypercubeRouter, dest: HypercubeAddress, e: RouteEntry, b: int)
    requires
        router.wf(),
        0 <= b < router.spec_dimensions(),
        router.slots()[b] == Some(e),
        bit_set(router.spec_local().0 ^ dest.0, b),
    ensures
        popcount(e.address.0 ^ dest.0) + 1 == popcount(router.spec_local().0 ^ dest.0),
{
    router.lemma_slot_entries();
    let local = router.spec_local().0;
    let bb = b as u32;
    let d = dest.0;
    let a = e.address.0;
    let x = local ^ d;
    assert(a == local ^ (1u32 << bb));
    assert(a ^ d == x ^ (1u32 << bb)) by (bit_vector)
        requires
            a == local ^ (1u32 << bb),
            x == local ^ d,
    ;
    lemma_popcount_clear_bit(x, bb);
}

/// An address that differs from `local` in the single bit `i` is `local`
/// with bit `i` flipped.
proof fn lemma_single_bit_neighbour(local: u32, a: u32, i: int)
    requires
        single_bit(local ^ a),
        (local ^ a).trailing_zeros() == i,
    ensures
        0 <= i < 32,
        a == local ^ (1u32 << i as u32),
{
    let z = local ^ a;
    broadcast use vstd::std_specs::bits::axiom_u32_trailing_zeros;
    let t = z.trailing_zeros();
    assert(t < 32);
    assert(z == 1u32 << t) by (bit_vector)
        requires
            z != 0,
            z & ((z - 1) as u32) == 0,
            (z >> t) & 1 == 1,
            t < 32,
    ;
    assert(a == local ^ (1u32 << t)) by (bit_vector)
        requires
            z == 1u32 << t,
            z == local ^ a,
    ;
}

} // verus!
