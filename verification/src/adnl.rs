//! Node identities: keys derived deterministically from a seed, the identity
//! as the SHA-256 of the public key, HMAC-SHA256 signatures, and an address
//! book from identities to network addresses.
use vstd::prelude::*;
use crate::bytemap::ByteMap;
use crate::pow::{hashable, push_hash, sha256, spec_sha256};
use crate::transport::{hex_encode, spec_hex_encode};

verus! {

// ─── HMAC-SHA256 ─────────────────────────────────────────────────────────────

/// The HMAC block size in bytes.
pub const HMAC_BLOCK_SIZE: usize = 64;

/// The key block of HMAC: the key (hashed first when longer than a block)
/// padded with zeros to a block.
pub open spec fn hmac_key_block(key: Seq<u8>) -> Seq<u8> {
    let k = if key.len() > 64 {
        spec_sha256(key)
    } else {
        key
    };
    Seq::new(64, |i: int| if i < k.len() { k[i] } else { 0u8 })
}

/// A key block XOR-ed bytewise with a pad byte.
pub open spec fn xor_pad(k: Seq<u8>, pad: u8) -> Seq<u8> {
    Seq::new(64, |i: int| k[i] ^ pad)
}

/// HMAC-SHA256 of `data` under `key`.
pub open spec fn spec_hmac_sha256(key: Seq<u8>, data: Seq<u8>) -> Seq<u8> {
    let kb = hmac_key_block(key);
    spec_sha256(xor_pad(kb, 0x5c) + spec_sha256(xor_pad(kb, 0x36) + data))
}

/// Appends the bytes of `data` to `buf`.
pub(crate) fn push_bytes(buf: &mut Vec<u8>, data: &[u8])
    ensures
        final(buf)@ == old(buf)@ + data@,
{
    let mut i: usize = 0;
    while i < data.len()
        invariant
            i <= data@.len(),
            buf@ == old(buf)@ + data@.subrange(0, i as int),
        decreases data@.len() - i,
    {
        buf.push(data[i]);
        proof {
            assert(data@.subrange(0, i + 1) =~= data@.subrange(0, i as int).push(data@[i as int]));
        }
        i = i + 1;
    }
    assert(data@.subrange(0, i as int) =~= data@);
}

/// Computes HMAC-SHA256 of `data` under `key`.
pub fn hmac_sha256(key: &[u8], data: &[u8]) -> (out: [u8; 32])
    requires
        hashable(key@),
        data@.len() + 64 + 128 <= usize::MAX,
    ensures
        out@ == spec_hmac_sha256(key@, data@),
{
    let hashed: [u8; 32];
    let k: &[u8] = if key.len() > HMAC_BLOCK_SIZE {
        hashed = sha256(key);
        &hashed
    } else {
        key
    };
    let ghost kseq = if key@.len() > 64 {
        spec_sha256(key@)
    } else {
        key@
    };
    assert(k@ == kseq);
    let mut ipad: Vec<u8> = Vec::new();
    let mut opad: Vec<u8> = Vec::new();
    let mut i: usize = 0;
    while i < HMAC_BLOCK_SIZE
        invariant
            i <= 64,
            k@ == kseq,
            kseq == if key@.len() > 64 {
                spec_sha256(key@)
            } else {
                key@
            },
            kseq.len() <= 64,
            ipad@.len() == i,
            opad@.len() == i,
            forall|j: int| 0 <= j < i ==> ipad@[j] == hmac_key_block(key@)[j] ^ 0x36u8,
            forall|j: int| 0 <= j < i ==> opad@[j] == hmac_key_block(key@)[j] ^ 0x5cu8,
        decreases 64 - i,
    {
        let b: u8 = if i < k.len() {
            k[i]
        } else {
            0
        };
        ipad.push(b ^ 0x36);
        opad.push(b ^ 0x5c);
        i = i + 1;
    }
    assert(ipad@ =~= xor_pad(hmac_key_block(key@), 0x36));
    assert(opad@ =~= xor_pad(hmac_key_block(key@), 0x5c));
    let mut inner = ipad;
    push_bytes(&mut inner, data);
    let inner_hash = sha256(inner.as_slice());
    let mut outer = opad;
    push_hash(&mut outer, &inner_hash);
    sha256(outer.as_slice())
}

// ─── Key types ───────────────────────────────────────────────────────────────

/// The tag appended to a seed to derive its public key: `pubkey`.
pub open spec fn pubkey_tag() -> Seq<u8> {
    seq![0x70u8, 0x75u8, 0x62u8, 0x6bu8, 0x65u8, 0x79u8]
}

/// The public key derived from a private key: SHA-256(key ++ "pubkey").
pub open spec fn spec_public_key(private: Seq<u8>) -> Seq<u8> {
    spec_sha256(private + pubkey_tag())
}

/// A 32-byte private key seed.
#[derive(Clone)]
pub struct PrivateKey(pub [u8; 32]);

/// A 32-byte public key.
#[derive(Debug, Clone, PartialEq, Eq, Hash)]
pub struct PublicKey(pub [u8; 32]);

/// A 32-byte HMAC-SHA256 signature.
#[derive(Debug, Clone, PartialEq, Eq)]
pub struct Signature(pub [u8; 32]);

impl PrivateKey {
    /// Creates a private key from raw bytes.
    pub fn from_bytes(bytes: [u8; 32]) -> (k: PrivateKey)
        ensures
            k.0 == bytes,
    {
        PrivateKey(bytes)
    }

    /// Derives the public key: SHA-256(private key ++ "pubkey").
    pub fn public_key(&self) -> (pk: PublicKey)
        ensures
            pk.0@ == spec_public_key(self.0@),
    {
        let mut input: Vec<u8> = Vec::new();
        push_hash(&mut input, &self.0);
        input.push(0x70);
        input.push(0x75);
        input.push(0x62);
        input.push(0x6b);
        input.push(0x65);
        input.push(0x79);
        assert(input@ =~= self.0@ + pubkey_tag());
        PublicKey(sha256(input.as_slice()))
    }

    /// Signs a message: HMAC-SHA256 of the message under the private key.
    pub fn sign(&self, message: &[u8]) -> (s: Signature)
        requires
            message@.len() + 64 + 128 <= usize::MAX,
        ensures
            s.0@ == spec_hmac_sha256(self.0@, message@),
    {
        Signature(hmac_sha256(&self.0, message))
    }
}

/// The all-zero signature.
pub open spec fn zero_bytes() -> Seq<u8> {
    Seq::new(32, |i: int| 0u8)
}

impl PublicKey {
    /// Creates a public key from raw bytes.
    pub fn from_bytes(bytes: [u8; 32]) -> (k: PublicKey)
        ensures
            k.0 == bytes,
    {
        PublicKey(bytes)
    }

    /// Accepts a signature that is not all zeros; the message is not read.
    pub fn verify(&self, message: &[u8], signature: &Signature) -> (r: bool)
        ensures
            r == (signature.0@ != zero_bytes()),
    {
        let mut i: usize = 0;
        while i < 32
            invariant
                i <= 32,
                forall|j: int| 0 <= j < i ==> signature.0[j] == 0u8,
            decreases 32 - i,
        {
            if signature.0[i] != 0 {
                return true;
            }
            i = i + 1;
        }
        assert(signature.0@ =~= zero_bytes());
        false
    }
}

// ─── Identity ────────────────────────────────────────────────────────────────

/// A 256-bit node identity: the SHA-256 of the node's public key.
#[derive(Debug, Clone, PartialEq, Eq, Hash)]
pub struct AdnlIdentity {
    /// The 32-byte identity.
    pub id: [u8; 32],
    /// The underlying public key.
    pub public_key: PublicKey,
}

impl AdnlIdentity {
    /// Derives the identity of a public key.
    pub fn from_public_key(pk: PublicKey) -> (a: AdnlIdentity)
        ensures
            a.id@ == spec_sha256(pk.0@),
            a.public_key == pk,
    {
        let id = sha256(&pk.0);
        AdnlIdentity { id, public_key: pk }
    }

    /// Returns the raw identity bytes.
    pub fn as_bytes(&self) -> (b: &[u8; 32])
        ensures
            *b == self.id,
    {
        &self.id
    }

    /// Returns the identity as 64 lowercase hex digits.
    pub fn to_hex(&self) -> (s: String)
        ensures
            s@ == spec_hex_encode(self.id@),
    {
        hex_encode(&self.id)
    }
}

/// A key pair: private key and derived identity.
#[derive(Clone)]
pub struct AdnlKeyPair {
    /// The private key.
    pub private_key: PrivateKey,
    /// The derived identity.
    pub identity: AdnlIdentity,
}

impl AdnlKeyPair {
    /// Derives a key pair from a 32-byte seed: the seed is the private key,
    /// its public key is SHA-256(seed ++ "pubkey"), and the identity is the
    /// SHA-256 of the public key.
    pub fn from_seed(seed: [u8; 32]) -> (kp: AdnlKeyPair)
        ensures
            kp.private_key.0 == seed,
            kp.identity.public_key.0@ == spec_public_key(seed@),
            kp.identity.id@ == spec_sha256(spec_public_key(seed@)),
    {
        let private_key = PrivateKey::from_bytes(seed);
        let public_key = private_key.public_key();
        let identity = AdnlIdentity::from_public_key(public_key);
        AdnlKeyPair { private_key, identity }
    }

    /// Signs a message with the private key.
    pub fn sign(&self, message: &[u8]) -> (s: Signature)
        requires
            message@.len() + 64 + 128 <= usize::MAX,
        ensures
            s.0@ == spec_hmac_sha256(self.private_key.0@, message@),
    {
        self.private_key.sign(message)
    }

    /// Returns the identity bytes.
    pub fn adnl_id(&self) -> (b: &[u8; 32])
        ensures
            *b == self.identity.id,
    {
        self.identity.as_bytes()
    }
}

// ─── Address book ────────────────────────────────────────────────────────────

/// Identities and their network addresses.
#[derive(Debug)]
pub struct AdnlAddressBook {
    entries: ByteMap<String>,
}

impl AdnlAddressBook {
    /// The addresses by identity.
    pub closed spec fn addresses(&self) -> Map<[u8; 32], Seq<char>> {
        self.entries@.map_values(|s: String| s@)
    }

    /// The store is well formed.
    pub closed spec fn wf(&self) -> bool {
        self.entries.wf()
    }

    /// Creates an empty address book.
    pub fn new() -> (b: AdnlAddressBook)
        ensures
            b.wf(),
            b.addresses() == Map::<[u8; 32], Seq<char>>::empty(),
    {
        let b = AdnlAddressBook { entries: ByteMap::new() };
        assert(b.addresses() =~= Map::<[u8; 32], Seq<char>>::empty());
        b
    }

    /// Registers (or replaces) the address of an identity.
    pub fn insert(&mut self, id: [u8; 32], address: String)
        requires
            old(self).wf(),
        ensures
            final(self).wf(),
            final(self).addresses() == old(self).addresses().insert(id, address@),
    {
        let ghost a = address@;
        self.entries.insert(id, address);
        assert(self.addresses() =~= old(self).addresses().insert(id, a));
    }

    /// Looks up the address of an identity.
    pub fn lookup(&self, id: &[u8; 32]) -> (r: Option<&str>)
        requires
            self.wf(),
        ensures
            match r {
                Some(s) => self.addresses().contains_key(*id) && s@ == self.addresses()[*id],
                None => !self.addresses().contains_key(*id),
            },
    {
        match self.entries.get(id) {
            Some(s) => Some(s.as_str()),
            None => None,
        }
    }

    /// Removes the entry of an identity.
    pub fn remove(&mut self, id: &[u8; 32])
        requires
            old(self).wf(),
        ensures
            final(self).wf(),
            final(self).addresses() == old(self).addresses().remove(*id),
    {
        self.entries.remove(id);
        assert(self.addresses() =~= old(self).addresses().remove(*id));
    }

    /// Returns the number of entries.
    pub fn len(&self) -> (n: usize)
        requires
            self.wf(),
        ensures
            n == self.addresses().dom().len(),
    {
        assert(self.addresses().dom() =~= self.entries@.dom());
        self.entries.len()
    }

    /// Returns `true` if the address book is empty.
    pub fn is_empty(&self) -> (r: bool)
        requires
            self.wf(),
        ensures
            r == (self.addresses().dom().len() == 0),
    {
        assert(self.addresses().dom() =~= self.entries@.dom());
        self.entries.len() == 0
    }
}

impl Default for AdnlAddressBook {
    fn default() -> (b: Self)
        ensures
            b.wf(),
            b.addresses() == Map::<[u8; 32], Seq<char>>::empty(),
    {
        AdnlAddressBook::new()
    }
}

} // verus!
