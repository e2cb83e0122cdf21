//! Proof-of-work engine: SHA-256 (FIPS 180-4), double SHA-256, the
//! leading-zero-bit difficulty target, mining and difficulty retargeting.
use vstd::prelude::*;
use vstd::arithmetic::div_mod::{lemma_div_is_ordered, lemma_div_is_ordered_by_denominator};
use vstd::arithmetic::power2::{lemma2_to64, lemma2_to64_rest, lemma_pow2_unfold, pow2};

verus! {

// ─── SHA-256 specification (FIPS 180-4) ──────────────────────────────────────

/// The sixty-four SHA-256 round constants.
pub const ROUND_K: [u32; 64] = [
    0x428a2f98, 0x71374491, 0xb5c0fbcf, 0xe9b5dba5, 0x3956c25b, 0x59f111f1, 0x923f82a4, 0xab1c5ed5,
    0xd807aa98, 0x12835b01, 0x243185be, 0x550c7dc3, 0x72be5d74, 0x80deb1fe, 0x9bdc06a7, 0xc19bf174,
    0xe49b69c1, 0xefbe4786, 0x0fc19dc6, 0x240ca1cc, 0x2de92c6f, 0x4a7484aa, 0x5cb0a9dc, 0x76f988da,
    0x983e5152, 0xa831c66d, 0xb00327c8, 0xbf597fc7, 0xc6e00bf3, 0xd5a79147, 0x06ca6351, 0x14292967,
    0x27b70a85, 0x2e1b2138, 0x4d2c6dfc, 0x53380d13, 0x650a7354, 0x766a0abb, 0x81c2c92e, 0x92722c85,
    0xa2bfe8a1, 0xa81a664b, 0xc24b8b70, 0xc76c51a3, 0xd192e819, 0xd6990624, 0xf40e3585, 0x106aa070,
    0x19a4c116, 0x1e376c08, 0x2748774c, 0x34b0bcb5, 0x391c0cb3, 0x4ed8aa4a, 0x5b9cca4f, 0x682e6ff3,
    0x748f82ee, 0x78a5636f, 0x84c87814, 0x8cc70208, 0x90befffa, 0xa4506ceb, 0xbef9a3f7, 0xc67178f2,
];

/// The SHA-256 initial hash value.
pub const INITIAL_H: [u32; 8] = [
    0x6a09e667, 0xbb67ae85, 0x3c6ef372, 0xa54ff53a, 0x510e527f, 0x9b05688c, 0x1f83d9ab, 0x5be0cd19,
];

/// Right rotation of a 32-bit word by `n` bits (0 < n < 32).
pub open spec fn rotr(x: u32, n: u32) -> u32 {
    (x >> n) | (x << ((32 - n) as u32))
}

pub open spec fn big_sigma0(a: u32) -> u32 {
    rotr(a, 2) ^ rotr(a, 13) ^ rotr(a, 22)
}

pub open spec fn big_sigma1(e: u32) -> u32 {
    rotr(e, 6) ^ rotr(e, 11) ^ rotr(e, 25)
}

pub open spec fn small_sigma0(x: u32) -> u32 {
    rotr(x, 7) ^ rotr(x, 18) ^ (x >> 3u32)
}

pub open spec fn small_sigma1(x: u32) -> u32 {
    rotr(x, 17) ^ rotr(x, 19) ^ (x >> 10u32)
}

pub open spec fn choose_fn(e: u32, f: u32, g: u32) -> u32 {
    (e & f) ^ (!e & g)
}

pub open spec fn majority(a: u32, b: u32, c: u32) -> u32 {
    (a & b) ^ (a & c) ^ (b & c)
}

/// The big-endian 32-bit word made of `b[i..i + 4]`.
pub open spec fn be_word(b: Seq<u8>, i: int) -> u32 {
    ((b[i] as u32) << 24u32) | ((b[i + 1] as u32) << 16u32) | ((b[i + 2] as u32) << 8u32) | (
    b[i + 3] as u32)
}

/// Message schedule word `W_t` of a 64-byte block.
pub open spec fn schedule(block: Seq<u8>, t: nat) -> u32
    decreases t,
{
    if t < 16 {
        be_word(block, (4 * t) as int)
    } else {
        schedule(block, (t - 16) as nat).wrapping_add(
            small_sigma0(schedule(block, (t - 15) as nat)),
        ).wrapping_add(schedule(block, (t - 7) as nat)).wrapping_add(
            small_sigma1(schedule(block, (t - 2) as nat)),
        )
    }
}

/// One compression round applied to the working variables `[a, b, c, d, e, f, g, h]`.
pub open spec fn round(s: Seq<u32>, k: u32, w: u32) -> Seq<u32> {
    let t1 = s[7].wrapping_add(big_sigma1(s[4])).wrapping_add(choose_fn(s[4], s[5], s[6])).wrapping_add(
        k,
    ).wrapping_add(w);
    let t2 = big_sigma0(s[0]).wrapping_add(majority(s[0], s[1], s[2]));
    seq![t1.wrapping_add(t2), s[0], s[1], s[2], s[3].wrapping_add(t1), s[4], s[5], s[6]]
}

/// The working variables after the first `t` rounds over `block`, starting from `h`.
pub open spec fn rounds(h: Seq<u32>, block: Seq<u8>, t: nat) -> Seq<u32>
    decreases t,
{
    if t == 0 {
        h
    } else {
        round(rounds(h, block, (t - 1) as nat), ROUND_K@[t - 1], schedule(block, (t - 1) as nat))
    }
}

/// The compression function: the hash value after processing one 64-byte block.
pub open spec fn compress(h: Seq<u32>, block: Seq<u8>) -> Seq<u32> {
    let s = rounds(h, block, 64);
    Seq::new(8, |i: int| h[i].wrapping_add(s[i]))
}

/// The eight big-endian bytes of a 64-bit word.
pub open spec fn u64_be_bytes(x: u64) -> Seq<u8> {
    seq![
        (x >> 56u64) as u8,
        (x >> 48u64) as u8,
        (x >> 40u64) as u8,
        (x >> 32u64) as u8,
        (x >> 24u64) as u8,
        (x >> 16u64) as u8,
        (x >> 8u64) as u8,
        x as u8,
    ]
}

/// Number of zero bytes that follow the `0x80` marker in the padding of a
/// `len`-byte message.
pub open spec fn pad_zero_count(len: nat) -> nat {
    ((119 - (len % 64)) % 64) as nat
}

/// The padded message: data, `0x80`, zero bytes, and the bit length (mod 2^64) big-endian.
pub open spec fn padded(data: Seq<u8>) -> Seq<u8> {
    data + seq![0x80u8] + Seq::new(pad_zero_count(data.len()), |i: int| 0u8) + u64_be_bytes(
        (data.len() as u64).wrapping_mul(8),
    )
}

/// The hash value after the first `n` blocks of `msg`.
pub open spec fn hash_state(msg: Seq<u8>, n: nat) -> Seq<u32>
    decreases n,
{
    if n == 0 {
        INITIAL_H@
    } else {
        compress(hash_state(msg, (n - 1) as nat), msg.subrange(64 * (n - 1), (64 * n) as int))
    }
}

/// Byte `j` (0 = most significant) of a 32-bit word.
pub open spec fn word_byte(w: u32, j: int) -> u8 {
    (w >> ((24 - 8 * j) as u32)) as u8
}

/// The 32-byte big-endian serialisation of the final hash value.
pub open spec fn digest_bytes(h: Seq<u32>) -> Seq<u8> {
    Seq::new(32, |i: int| word_byte(h[i / 4], i % 4))
}

/// SHA-256 of a byte string.
pub open spec fn spec_sha256(data: Seq<u8>) -> Seq<u8> {
    let m = padded(data);
    digest_bytes(hash_state(m, m.len() / 64))
}

/// Double SHA-256.
pub open spec fn spec_sha256d(data: Seq<u8>) -> Seq<u8> {
    spec_sha256(spec_sha256(data))
}

/// Longest input the hashing functions accept: the padded message must fit in memory.
pub open spec fn hashable(data: Seq<u8>) -> bool {
    data.len() + 128 <= usize::MAX
}

// ─── SHA-256 implementation ──────────────────────────────────────────────────

fn rotr_exec(x: u32, n: u32) -> (r: u32)
    requires
        0 < n < 32,
    ensures
        r == rotr(x, n),
{
    (x >> n) | (x << (32 - n))
}

spec fn pad_ends(len: nat, c: nat) -> bool {
    (len + 1 + c) % 64 == 56
}

proof fn lemma_pad_length(len: nat)
    ensures
        pad_ends(len, pad_zero_count(len)),
        pad_zero_count(len) < 64,
        forall|c: nat| c < pad_zero_count(len) ==> !#[trigger] pad_ends(len, c),
{
}

proof fn lemma_padded_len(data: Seq<u8>)
    ensures
        padded(data).len() % 64 == 0,
        padded(data).len() == data.len() + 9 + pad_zero_count(data.len()),
{
    let n = data.len();
    let z = pad_zero_count(n);
    lemma_pad_length(n);
    assert(u64_be_bytes((n as u64).wrapping_mul(8)).len() == 8);
    assert(padded(data).len() == n + 9 + z);
    assert((n + 1 + z) % 64 == 56);
    assert((n + 9 + z) % 64 == 0) by {
        assert((n + 1 + z) % 64 == 56);
    }
}

/// Builds the padded message of `data`.
fn pad_message(data: &[u8]) -> (msg: Vec<u8>)
    requires
        hashable(data@),
    ensures
        msg@ == padded(data@),
        msg@.len() % 64 == 0,
{
    let bit_len: u64 = (data.len() as u64).wrapping_mul(8);
    let mut msg: Vec<u8> = Vec::new();
    let mut i: usize = 0;
    while i < data.len()
        invariant
            i <= data@.len(),
            msg@ == data@.subrange(0, i as int),
        decreases data@.len() - i,
    {
        msg.push(data[i]);
        i = i + 1;
    }
    assert(msg@ == data@);
    msg.push(0x80u8);
    proof {
        lemma_pad_length(data@.len());
    }
    let ghost pad = pad_zero_count(data@.len());
    let ghost mut c: nat = 0;
    while msg.len() % 64 != 56
        invariant
            hashable(data@),
            pad == pad_zero_count(data@.len()),
            c <= pad,
            pad < 64,
            forall|k: nat| k < pad ==> !#[trigger] pad_ends(data@.len(), k),
            msg@.len() == data@.len() + 1 + c,
            msg@ == data@ + seq![0x80u8] + Seq::new(c, |j: int| 0u8),
        decreases pad - c,
    {
        proof {
            if c == pad {
                lemma_pad_length(data@.len());
            }
        }
        msg.push(0u8);
        proof {
            c = c + 1;
        }
        assert(msg@ =~= data@ + seq![0x80u8] + Seq::new(c, |j: int| 0u8));
    }
    proof {
        if c < pad {
            assert(!pad_ends(data@.len(), c));
        }
    }
    assert(c == pad);
    msg.push((bit_len >> 56u64) as u8);
    msg.push((bit_len >> 48u64) as u8);
    msg.push((bit_len >> 40u64) as u8);
    msg.push((bit_len >> 32u64) as u8);
    msg.push((bit_len >> 24u64) as u8);
    msg.push((bit_len >> 16u64) as u8);
    msg.push((bit_len >> 8u64) as u8);
    msg.push(bit_len as u8);
    assert(msg@ =~= padded(data@));
    proof {
        lemma_padded_len(data@);
    }
    msg
}

/// Applies the compression function to `h` with the block `msg[base..base + 64]`.
fn compress_block(h: &mut [u32; 8], msg: &Vec<u8>, base: usize)
    requires
        base + 64 <= msg@.len(),
    ensures
        final(h)@ == compress(old(h)@, msg@.subrange(base as int, base + 64)),
{
    let ghost block = msg@.subrange(base as int, base + 64);
    assert(msg@.len() == msg.len());
    let mut w: [u32; 64] = [0u32; 64];
    let mut i: usize = 0;
    while i < 16
        invariant
            i <= 16,
            base + 64 <= msg@.len(),
            msg@.len() <= usize::MAX,
            block == msg@.subrange(base as int, base + 64),
            forall|j: int| 0 <= j < i ==> w@[j] == #[trigger] schedule(block, j as nat),
        decreases 16 - i,
    {
        let b = base + 4 * i;
        let word: u32 = ((msg[b] as u32) << 24u32) | ((msg[b + 1] as u32) << 16u32) | ((msg[b
            + 2] as u32) << 8u32) | (msg[b + 3] as u32);
        assert(word == be_word(block, 4 * i));
        w[i] = word;
        i = i + 1;
    }
    while i < 64
        invariant
            16 <= i <= 64,
            forall|j: int| 0 <= j < i ==> w@[j] == #[trigger] schedule(block, j as nat),
        decreases 64 - i,
    {
        let x15 = w[i - 15];
        let x2 = w[i - 2];
        let s0 = rotr_exec(x15, 7) ^ rotr_exec(x15, 18) ^ (x15 >> 3u32);
        let s1 = rotr_exec(x2, 17) ^ rotr_exec(x2, 19) ^ (x2 >> 10u32);
        let v = w[i - 16].wrapping_add(s0).wrapping_add(w[i - 7]).wrapping_add(s1);
        assert(schedule(block, (i - 16) as nat) == w@[i - 16]);
        assert(schedule(block, (i - 15) as nat) == w@[i - 15]);
        assert(schedule(block, (i - 7) as nat) == w@[i - 7]);
        assert(schedule(block, (i - 2) as nat) == w@[i - 2]);
        assert(v == schedule(block, i as nat));
        w[i] = v;
        i = i + 1;
    }
    let ghost h0 = h@;
    let mut a = h[0];
    let mut b = h[1];
    let mut c = h[2];
    let mut d = h[3];
    let mut e = h[4];
    let mut f = h[5];
    let mut g = h[6];
    let mut hh = h[7];
    assert(seq![a, b, c, d, e, f, g, hh] =~= rounds(h0, block, 0));
    let mut t: usize = 0;
    while t < 64
        invariant
            t <= 64,
            h@ == h0,
            forall|j: int| 0 <= j < 64 ==> w@[j] == #[trigger] schedule(block, j as nat),
            seq![a, b, c, d, e, f, g, hh] == rounds(h0, block, t as nat),
        decreases 64 - t,
    {
        let ghost prev = seq![a, b, c, d, e, f, g, hh];
        let s1 = rotr_exec(e, 6) ^ rotr_exec(e, 11) ^ rotr_exec(e, 25);
        let chv = (e & f) ^ ((!e) & g);
        let t1 = hh.wrapping_add(s1).wrapping_add(chv).wrapping_add(ROUND_K[t]).wrapping_add(w[t]);
        let s0 = rotr_exec(a, 2) ^ rotr_exec(a, 13) ^ rotr_exec(a, 22);
        let mj = (a & b) ^ (a & c) ^ (b & c);
        let t2 = s0.wrapping_add(mj);
        hh = g;
        g = f;
        f = e;
        e = d.wrapping_add(t1);
        d = c;
        c = b;
        b = a;
        a = t1.wrapping_add(t2);
        assert(seq![a, b, c, d, e, f, g, hh] =~= round(prev, ROUND_K@[t as int], w@[t as int]));
        t = t + 1;
    }
    let ghost s = seq![a, b, c, d, e, f, g, hh];
    h[0] = h[0].wrapping_add(a);
    h[1] = h[1].wrapping_add(b);
    h[2] = h[2].wrapping_add(c);
    h[3] = h[3].wrapping_add(d);
    h[4] = h[4].wrapping_add(e);
    h[5] = h[5].wrapping_add(f);
    h[6] = h[6].wrapping_add(g);
    h[7] = h[7].wrapping_add(hh);
    assert(h@ =~= compress(h0, block));
}

/// Computes SHA-256 over the input bytes.
pub fn sha256(data: &[u8]) -> (out: [u8; 32])
    requires
        hashable(data@),
    ensures
        out@ == spec_sha256(data@),
{
    let msg = pad_message(data);
    let mut h: [u32; 8] = INITIAL_H;
    let nblocks = msg.len() / 64;
    let mut n: usize = 0;
    assert(h@ == hash_state(msg@, 0));
    assert(msg@.len() == msg.len());
    while n < nblocks
        invariant
            n <= nblocks,
            nblocks == msg@.len() / 64,
            msg@.len() % 64 == 0,
            msg@.len() <= usize::MAX,
            h@ == hash_state(msg@, n as nat),
        decreases nblocks - n,
    {
        assert(64 * n + 64 <= msg@.len()) by (nonlinear_arith)
            requires
                n < nblocks,
                nblocks == msg@.len() / 64,
        ;
        compress_block(&mut h, &msg, 64 * n);
        assert(msg@.subrange(64 * n as int, 64 * n + 64) == msg@.subrange(
            64 * (((n + 1) as nat) - 1),
            (64 * ((n + 1) as nat)) as int,
        ));
        n = n + 1;
    }
    let mut out: [u8; 32] = [0u8; 32];
    let mut i: usize = 0;
    while i < 8
        invariant
            i <= 8,
            forall|k: int| 0 <= k < 4 * i ==> out@[k] == #[trigger] digest_bytes(h@)[k],
        decreases 8 - i,
    {
        let word = h[i];
        out[4 * i] = (#[verifier::truncate] ((word >> 24u32) as u8));
        out[4 * i + 1] = (#[verifier::truncate] ((word >> 16u32) as u8));
        out[4 * i + 2] = (#[verifier::truncate] ((word >> 8u32) as u8));
        out[4 * i + 3] = (#[verifier::truncate] ((word >> 0u32) as u8));
        i = i + 1;
    }
    assert(out@ =~= digest_bytes(h@));
    out
}

/// Double-SHA-256 (SHA256(SHA256(data))).
pub fn sha256d(data: &[u8]) -> (out: [u8; 32])
    requires
        hashable(data@),
    ensures
        out@ == spec_sha256d(data@),
{
    let first = sha256(data);
    sha256(&first)
}


// ─── Little-endian field encoding ────────────────────────────────────────────

/// The eight little-endian bytes of a 64-bit word.
pub open spec fn u64_le_bytes(x: u64) -> Seq<u8> {
    seq![
        x as u8,
        (x >> 8u64) as u8,
        (x >> 16u64) as u8,
        (x >> 24u64) as u8,
        (x >> 32u64) as u8,
        (x >> 40u64) as u8,
        (x >> 48u64) as u8,
        (x >> 56u64) as u8,
    ]
}

/// The four little-endian bytes of a 32-bit word.
pub open spec fn u32_le_bytes(x: u32) -> Seq<u8> {
    seq![x as u8, (x >> 8u32) as u8, (x >> 16u32) as u8, (x >> 24u32) as u8]
}

/// Appends the little-endian bytes of `x` to `buf`.
pub fn push_u64_le(buf: &mut Vec<u8>, x: u64)
    ensures
        final(buf)@ == old(buf)@ + u64_le_bytes(x),
{
    buf.push(#[verifier::truncate] (x as u8));
    buf.push(#[verifier::truncate] ((x >> 8u64) as u8));
    buf.push(#[verifier::truncate] ((x >> 16u64) as u8));
    buf.push(#[verifier::truncate] ((x >> 24u64) as u8));
    buf.push(#[verifier::truncate] ((x >> 32u64) as u8));
    buf.push(#[verifier::truncate] ((x >> 40u64) as u8));
    buf.push(#[verifier::truncate] ((x >> 48u64) as u8));
    buf.push(#[verifier::truncate] ((x >> 56u64) as u8));
    assert(buf@ =~= old(buf)@ + u64_le_bytes(x));
}

/// Appends the little-endian bytes of `x` to `buf`.
pub fn push_u32_le(buf: &mut Vec<u8>, x: u32)
    ensures
        final(buf)@ == old(buf)@ + u32_le_bytes(x),
{
    buf.push(#[verifier::truncate] (x as u8));
    buf.push(#[verifier::truncate] ((x >> 8u32) as u8));
    buf.push(#[verifier::truncate] ((x >> 16u32) as u8));
    buf.push(#[verifier::truncate] ((x >> 24u32) as u8));
    assert(buf@ =~= old(buf)@ + u32_le_bytes(x));
}

/// Appends the 32 bytes of `h` to `buf`.
pub fn push_hash(buf: &mut Vec<u8>, h: &[u8; 32])
    ensures
        final(buf)@ == old(buf)@ + h@,
{
    let ghost start = buf@;
    let mut i: usize = 0;
    while i < 32
        invariant
            i <= 32,
            buf@ == start + h@.subrange(0, i as int),
        decreases 32 - i,
    {
        buf.push(h[i]);
        i = i + 1;
        assert(buf@ =~= start + h@.subrange(0, i as int));
    }
    assert(h@.subrange(0, 32) =~= h@);
}

/// Returns `true` iff the two hashes are byte-for-byte equal.
pub fn hash_eq(a: &[u8; 32], b: &[u8; 32]) -> (r: bool)
    ensures
        r == (a@ == b@),
{
    let mut i: usize = 0;
    while i < 32
        invariant
            i <= 32,
            forall|j: int| 0 <= j < i ==> a@[j] == b@[j],
        decreases 32 - i,
    {
        if a[i] != b[i] {
            return false;
        }
        i = i + 1;
    }
    assert(a@ =~= b@);
    true
}

// ─── Parameters ──────────────────────────────────────────────────────────────

/// Number of blocks between difficulty retargets.
pub const RETARGET_INTERVAL: u64 = 2016;

/// Target block time in seconds.
pub const TARGET_BLOCK_TIME_SECS: u64 = 10;

/// Maximum difficulty adjustment factor per retarget (4x up or down).
pub const MAX_ADJUSTMENT_FACTOR: u64 = 4;

/// Initial difficulty: number of leading zero bits required in a valid hash.
pub const INITIAL_DIFFICULTY_BITS: u32 = 16;

/// A 32-byte hash.
pub type Hash32 = [u8; 32];

// ─── Difficulty ──────────────────────────────────────────────────────────────

/// The mining difficulty: the number of leading zero bits a valid hash needs.
#[derive(Debug, Clone, Copy, PartialEq, Eq, Structural, PartialOrd, Ord)]
pub struct Difficulty(pub u32);

/// The 32-byte target threshold of a difficulty of `bits` bits:
/// `bits / 8` zero bytes, then `0xFF >> (bits % 8)`, then `0xFF` bytes.
pub open spec fn target_of(bits: u32) -> Seq<u8> {
    Seq::new(
        32,
        |i: int|
            if i < bits / 8 {
                0u8
            } else if i == bits / 8 {
                (0xFFu8 >> ((bits % 8) as u8))
            } else {
                0xFFu8
            },
    )
}

/// Lexicographic (big-endian numeric) order on equal-length byte strings.
pub open spec fn lex_lt(a: Seq<u8>, b: Seq<u8>) -> bool {
    exists|i: int|
        0 <= i < a.len() && i < b.len() && a[i] < b[i] && #[trigger] a.subrange(0, i)
            == b.subrange(0, i)
}

impl Difficulty {
    /// Creates a difficulty from a leading-zero-bit count, capped at 255.
    pub fn from_bits(bits: u32) -> (d: Difficulty)
        ensures
            d.0 == if bits < 255 { bits } else { 255 },
    {
        if bits < 255 {
            Difficulty(bits)
        } else {
            Difficulty(255)
        }
    }

    /// Returns the number of leading zero bits required.
    pub fn bits(&self) -> (b: u32)
        ensures
            b == self.0,
    {
        self.0
    }

    /// Converts the difficulty to a 32-byte target threshold.
    pub fn to_target(&self) -> (target: [u8; 32])
        ensures
            target@ == target_of(self.0),
    {
        let mut target: [u8; 32] = [0xFFu8; 32];
        let full_bytes = self.0 / 8;
        let remainder = self.0 % 8;
        let mut i: usize = 0;
        while i < 32 && (i as u32) < full_bytes
            invariant
                i <= 32,
                i <= full_bytes,
                full_bytes == self.0 / 8,
                remainder == self.0 % 8,
                forall|j: int| 0 <= j < i ==> target@[j] == 0u8,
                forall|j: int| i <= j < 32 ==> target@[j] == 0xFFu8,
            decreases 32 - i,
        {
            target[i] = 0u8;
            i = i + 1;
        }
        if full_bytes < 32 {
            target[full_bytes as usize] = 0xFFu8 >> (remainder as u8);
        }
        assert(target@ =~= target_of(self.0));
        target
    }

    /// Returns `true` if the hash is numerically below this difficulty's target.
    pub fn is_met_by(&self, hash: &Hash32) -> (r: bool)
        ensures
            r == lex_lt(hash@, target_of(self.0)),
    {
        let target = self.to_target();
        lex_less(hash, &target)
    }
}

/// Returns `true` iff `a` is lexicographically smaller than `b`.
pub fn lex_less(a: &[u8; 32], b: &[u8; 32]) -> (r: bool)
    ensures
        r == lex_lt(a@, b@),
{
    let mut i: usize = 0;
    while i < 32
        invariant
            i <= 32,
            a@.subrange(0, i as int) == b@.subrange(0, i as int),
        decreases 32 - i,
    {
        if a[i] < b[i] {
            assert(a@.subrange(0, i as int) == b@.subrange(0, i as int));
            return true;
        }
        if a[i] > b[i] {
            assert forall|j: int|
                0 <= j < a@.len() && j < b@.len() && a@[j] < b@[j] implies #[trigger] a@.subrange(
                0,
                j,
            ) != b@.subrange(0, j) by {
                if j < i {
                    assert(a@[j] == a@.subrange(0, i as int)[j]);
                    assert(b@[j] == b@.subrange(0, i as int)[j]);
                } else if j > i {
                    assert(a@.subrange(0, j)[i as int] != b@.subrange(0, j)[i as int]);
                }
            }
            return false;
        }
        assert(a@.subrange(0, i + 1) =~= a@.subrange(0, i as int).push(a@[i as int]));
        assert(b@.subrange(0, i + 1) =~= b@.subrange(0, i as int).push(b@[i as int]));
        i = i + 1;
    }
    assert forall|j: int|
        0 <= j < a@.len() && j < b@.len() && a@[j] < b@[j] implies #[trigger] a@.subrange(0, j)
        != b@.subrange(0, j) by {
        assert(a@[j] == a@.subrange(0, 32)[j]);
        assert(b@[j] == b@.subrange(0, 32)[j]);
    }
    false
}

impl Default for Difficulty {
    fn default() -> (d: Self)
        ensures
            d.0 == INITIAL_DIFFICULTY_BITS,
    {
        Difficulty(INITIAL_DIFFICULTY_BITS)
    }
}

// ─── Block header (hashing view) ─────────────────────────────────────────────

/// The fields of a block header that are included in the PoW hash input.
#[derive(Debug, Clone)]
pub struct BlockHeader {
    /// Block height.
    pub height: u64,
    /// Hash of the previous block.
    pub prev_hash: Hash32,
    /// Merkle root of all transactions in this block.
    pub tx_root: Hash32,
    /// Unix timestamp of block creation.
    pub timestamp: u64,
    /// Current difficulty bits.
    pub difficulty: Difficulty,
    /// The nonce found during mining.
    pub nonce: u64,
}

/// Header bytes without the nonce: height, prev_hash, tx_root, timestamp, difficulty.
pub open spec fn header_bytes_without_nonce(h: BlockHeader) -> Seq<u8> {
    u64_le_bytes(h.height) + h.prev_hash@ + h.tx_root@ + u64_le_bytes(h.timestamp) + u32_le_bytes(
        h.difficulty.0,
    )
}

/// Full header bytes: the nonce-free bytes followed by the nonce.
pub open spec fn header_bytes(h: BlockHeader) -> Seq<u8> {
    header_bytes_without_nonce(h) + u64_le_bytes(h.nonce)
}

/// The PoW hash of a header.
pub open spec fn header_hash(h: BlockHeader) -> Seq<u8> {
    spec_sha256d(header_bytes(h))
}

impl BlockHeader {
    /// Serialises the header fields (excluding nonce) into bytes for hashing.
    pub fn to_bytes_without_nonce(&self) -> (buf: Vec<u8>)
        ensures
            buf@ == header_bytes_without_nonce(*self),
            buf@.len() == 84,
    {
        let mut buf: Vec<u8> = Vec::new();
        push_u64_le(&mut buf, self.height);
        push_hash(&mut buf, &self.prev_hash);
        push_hash(&mut buf, &self.tx_root);
        push_u64_le(&mut buf, self.timestamp);
        push_u32_le(&mut buf, self.difficulty.0);
        assert(buf@ =~= header_bytes_without_nonce(*self));
        buf
    }

    /// Serialises the full header (including nonce) into bytes.
    pub fn to_bytes(&self) -> (buf: Vec<u8>)
        ensures
            buf@ == header_bytes(*self),
            buf@.len() == 92,
    {
        let mut buf = self.to_bytes_without_nonce();
        push_u64_le(&mut buf, self.nonce);
        buf
    }
}

// ─── PoW engine ──────────────────────────────────────────────────────────────

/// Computes the PoW hash for a block header with its nonce.
pub fn compute_hash(header: &BlockHeader) -> (h: Hash32)
    ensures
        h@ == header_hash(*header),
{
    let bytes = header.to_bytes();
    sha256d(bytes.as_slice())
}

/// `true` iff the header's PoW hash meets its difficulty.
pub open spec fn header_meets(h: BlockHeader) -> bool {
    lex_lt(header_hash(h), target_of(h.difficulty.0))
}

/// Verifies that a block header's nonce produces a hash meeting the difficulty.
pub fn verify_block(header: &BlockHeader) -> (r: bool)
    ensures
        r == header_meets(*header),
{
    let hash = compute_hash(header);
    header.difficulty.is_met_by(&hash)
}

/// Result of a mining attempt.
#[derive(Debug, Clone)]
pub struct MineResult {
    /// The winning nonce.
    pub nonce: u64,
    /// The resulting block hash.
    pub hash: Hash32,
    /// Number of nonces tried before success.
    pub attempts: u64,
}

/// The header with its nonce replaced.
pub open spec fn with_nonce(h: BlockHeader, nonce: u64) -> BlockHeader {
    BlockHeader { nonce, ..h }
}

/// Mines a block by trying nonces `0, 1, ..` below `max_attempts` until the
/// difficulty target is met. The header keeps the last nonce tried.
pub fn mine(header: &mut BlockHeader, max_attempts: u64) -> (res: Option<MineResult>)
    ensures
        match res {
            Some(r) => {
                &&& r.nonce < max_attempts
                &&& r.attempts == r.nonce + 1
                &&& *final(header) == with_nonce(*old(header), r.nonce)
                &&& r.hash@ == header_hash(*final(header))
                &&& header_meets(*final(header))
                &&& forall|n: u64| n < r.nonce ==> !#[trigger] header_meets(with_nonce(*old(header), n))
            },
            None => {
                &&& forall|n: u64| n < max_attempts ==> !#[trigger] header_meets(with_nonce(*old(header), n))
                &&& *final(header) == if max_attempts == 0 { *old(header) } else { with_nonce(*old(header), (max_attempts - 1) as u64) }
            },
        },
{
    let ghost orig = *header;
    let mut nonce: u64 = 0;
    while nonce < max_attempts
        invariant
            nonce <= max_attempts,
            orig == *old(header),
            forall|n: u64| n < nonce ==> !#[trigger] header_meets(with_nonce(orig, n)),
            *header == if nonce == 0 { orig } else { with_nonce(orig, (nonce - 1) as u64) },
        decreases max_attempts - nonce,
    {
        header.nonce = nonce;
        assert(*header == with_nonce(orig, nonce));
        let hash = compute_hash(header);
        if header.difficulty.is_met_by(&hash) {
            return Some(MineResult { nonce, hash, attempts: nonce + 1 });
        }
        nonce = nonce + 1;
    }
    None
}

// ─── Difficulty retargeting ──────────────────────────────────────────────────

/// Expected duration of one retarget epoch in seconds.
pub open spec fn expected_epoch_secs() -> u64 {
    (TARGET_BLOCK_TIME_SECS * RETARGET_INTERVAL) as u64
}

/// The epoch duration clamped to `[expected / 4, expected * 4]`.
pub open spec fn clamped_epoch_secs(actual: u64) -> u64 {
    let e = expected_epoch_secs();
    if actual < e / MAX_ADJUSTMENT_FACTOR {
        (e / MAX_ADJUSTMENT_FACTOR) as u64
    } else if actual > e * MAX_ADJUSTMENT_FACTOR {
        (e * MAX_ADJUSTMENT_FACTOR) as u64
    } else {
        actual
    }
}

/// The floor of the base-2 logarithm of `x`, taken as 0 for `x <= 1`.
pub open spec fn log2_floor(x: u64) -> u32
    decreases x,
{
    if x <= 1 {
        0
    } else {
        (1 + log2_floor(x / 2)) as u32
    }
}

/// Computes the floor of the base-2 logarithm of a positive integer.
fn log2_floor_exec(x: u64) -> (r: u32)
    requires
        x >= 1,
    ensures
        r == log2_floor(x),
        r < 64,
{
    let mut v: u64 = x;
    let mut r: u32 = 0;
    proof {
        lemma_log2_floor_bound(x);
    }
    while v > 1
        invariant
            v >= 1,
            r + log2_floor(v) == log2_floor(x),
            log2_floor(x) < 64,
        decreases v,
    {
        proof {
            lemma_log2_floor_bound(v);
        }
        v = v / 2;
        r = r + 1;
    }
    r
}

/// Below `2^k`, the logarithm is below `k`.
proof fn lemma_log2_floor_below(x: u64, k: nat)
    requires
        1 <= k <= 64,
        x < pow2(k),
    ensures
        log2_floor(x) < k,
        x > 1 ==> log2_floor(x) == 1 + log2_floor((x / 2) as u64),
    decreases k,
{
    if x > 1 {
        lemma_pow2_unfold(k);
        if k == 1 {
            assert(pow2(0) == 1) by {
                lemma2_to64();
            }
            assert(false);
        } else {
            lemma_log2_floor_below((x / 2) as u64, (k - 1) as nat);
        }
    }
}

/// The logarithm of a `u64` is below 64, and unfolds without truncation.
proof fn lemma_log2_floor_bound(x: u64)
    ensures
        log2_floor(x) < 64,
        x > 1 ==> log2_floor(x) == 1 + log2_floor((x / 2) as u64),
{
    lemma2_to64_rest();
    lemma_log2_floor_below(x, 64);
}

/// `log2_floor` never decreases as its argument grows.
proof fn lemma_log2_floor_monotone(a: u64, b: u64)
    requires
        a <= b,
    ensures
        log2_floor(a) <= log2_floor(b),
    decreases b,
{
    lemma_log2_floor_bound(a);
    lemma_log2_floor_bound(b);
    if b > 1 {
        if a > 1 {
            lemma_log2_floor_monotone((a / 2) as u64, (b / 2) as u64);
        } else {
            lemma_log2_floor_monotone(0, (b / 2) as u64);
        }
    }
}

/// The ratio between two epoch lengths: `e / c` when blocks came faster than
/// expected, `c / e` otherwise.
pub open spec fn epoch_ratio(c: u64) -> u64 {
    let e = expected_epoch_secs();
    if c < e { (e / c) as u64 } else { (c / e) as u64 }
}

/// The new bit count: up by `log2_floor(expected / clamped)` when blocks came
/// too fast, down by `log2_floor(clamped / expected)` otherwise (saturating),
/// then raised to at least 1 and capped at 255. The difficulty thus scales
/// inversely with the time the epoch took.
pub open spec fn retarget_bits(bits: u32, actual: u64) -> u32 {
    let e = expected_epoch_secs();
    let c = clamped_epoch_secs(actual);
    let raw: u32 = if c < e {
        bits.saturating_add(log2_floor(epoch_ratio(c)))
    } else {
        bits.saturating_sub(log2_floor(epoch_ratio(c)))
    };
    let at_least_one: u32 = if raw < 1 { 1 } else { raw };
    if at_least_one < 255 { at_least_one } else { 255 }
}

/// Recalculates the difficulty for the next epoch from the time taken by the last one.
pub fn retarget(current: Difficulty, epoch_actual_secs: u64) -> (d: Difficulty)
    ensures
        d.0 == retarget_bits(current.0, epoch_actual_secs),
{
    let expected: u64 = TARGET_BLOCK_TIME_SECS * RETARGET_INTERVAL;
    let lo: u64 = expected / MAX_ADJUSTMENT_FACTOR;
    let hi: u64 = expected * MAX_ADJUSTMENT_FACTOR;
    let clamped: u64 = if epoch_actual_secs < lo {
        lo
    } else if epoch_actual_secs > hi {
        hi
    } else {
        epoch_actual_secs
    };
    let bits = current.0;
    proof {
        lemma_epoch_ratio_bounds(epoch_actual_secs);
    }
    let new_bits: u32 = if clamped < expected {
        let ratio = expected / clamped;
        bits.saturating_add(log2_floor_exec(ratio))
    } else {
        let ratio = clamped / expected;
        bits.saturating_sub(log2_floor_exec(ratio))
    };
    let at_least_one: u32 = if new_bits < 1 { 1 } else { new_bits };
    Difficulty::from_bits(at_least_one)
}

/// The ratio of a clamped epoch length to the expected one lies in `[1, 4]`,
/// so its logarithm is at most 2.
proof fn lemma_epoch_ratio_bounds(actual: u64)
    ensures
        1 <= epoch_ratio(clamped_epoch_secs(actual)) <= 4,
        log2_floor(epoch_ratio(clamped_epoch_secs(actual))) <= 2,
        clamped_epoch_secs(actual) == expected_epoch_secs() ==> epoch_ratio(clamped_epoch_secs(actual)) == 1,
{
    let e = expected_epoch_secs();
    assert(e == 20160);
    let c = clamped_epoch_secs(actual);
    assert(5040 <= c <= 80640);
    if c < e {
        assert(e / c >= 1) by (nonlinear_arith) requires c < e, c >= 5040, e == 20160;
        assert(e / c <= 4) by (nonlinear_arith) requires c < e, c >= 5040, e == 20160;
    } else {
        assert(c / e >= 1) by (nonlinear_arith) requires c >= e, c <= 80640, e == 20160;
        assert(c / e <= 4) by (nonlinear_arith) requires c >= e, c <= 80640, e == 20160;
    }
    lemma_log2_floor_monotone(epoch_ratio(c), 4);
    assert(log2_floor(4) == 2) by {
        assert(log2_floor(1) == 0);
        assert(log2_floor(2) == 1);
    }
}

/// Retargeting moves the difficulty in the right direction and by at most a
/// factor of four: blocks that came faster than expected never lower it,
/// slower ones never raise it, an epoch exactly on target keeps it, and the
/// bit count moves by at most 2 and stays at least 1 (for difficulties of 1 to
/// 255 bits).
pub proof fn lemma_retarget_direction(bits: u32, actual: u64)
    requires
        1 <= bits <= 255,
    ensures
        actual < expected_epoch_secs() ==> retarget_bits(bits, actual) >= bits,
        actual > expected_epoch_secs() ==> retarget_bits(bits, actual) <= bits,
        actual == expected_epoch_secs() ==> retarget_bits(bits, actual) == bits,
        retarget_bits(bits, actual) >= 1,
        retarget_bits(bits, actual) <= bits + 2,
        retarget_bits(bits, actual) + 2 >= bits,
{
    lemma_epoch_ratio_bounds(actual);
    let e = expected_epoch_secs();
    assert(e == 20160);
    if actual == e {
        assert(clamped_epoch_secs(actual) == e);
        assert(log2_floor(1) == 0);
    }
}

/// The difficulty scales inversely with the time an epoch took: of two epoch
/// lengths, the shorter one never gets the lower difficulty.
pub proof fn lemma_retarget_monotone(bits: u32, a: u64, b: u64)
    requires
        a <= b,
    ensures
        retarget_bits(bits, a) >= retarget_bits(bits, b),
{
    let e = expected_epoch_secs();
    assert(e == 20160);
    let ca = clamped_epoch_secs(a);
    let cb = clamped_epoch_secs(b);
    assert(ca <= cb);
    lemma_epoch_ratio_bounds(a);
    lemma_epoch_ratio_bounds(b);
    if cb < e {
        lemma_div_is_ordered_by_denominator(e as int, ca as int, cb as int);
        lemma_log2_floor_monotone(epoch_ratio(cb), epoch_ratio(ca));
    } else if ca >= e {
        lemma_div_is_ordered(ca as int, cb as int, e as int);
        lemma_log2_floor_monotone(epoch_ratio(ca), epoch_ratio(cb));
    }
}

} // verus!
