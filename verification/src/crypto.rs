//! Cryptographic primitives of the core: content hashes and Ed25519
//! signatures. The digest and signature computations themselves are
//! performed by outside crates behind trusted wrappers; everything the
//! core concludes from them is stated over the named results below.

use vstd::prelude::*;

verus! {

/// Byte length of a content hash.
pub const HASH_SIZE: usize = 32;

/// Byte length of a public key.
pub const PUBLIC_KEY_SIZE: usize = 32;

/// Byte length of a secret key seed.
pub const SECRET_KEY_SIZE: usize = 32;

/// Byte length of a signature.
pub const SIGNATURE_SIZE: usize = 64;

/// The SHA-256 digest of a byte string, as the outside digest crate
/// computes it. The digest depends on the input bytes alone.
pub uninterp spec fn digest_of(data: Seq<u8>) -> Seq<u8>;

/// The Ed25519 signature that the signer derives from a 32-byte secret
/// seed and a message. Ed25519 signing is deterministic: the signature
/// depends on the seed and the message alone.
pub uninterp spec fn sig_of(seed: Seq<u8>, msg: Seq<u8>) -> Seq<u8>;

/// The Ed25519 public key derived from a 32-byte secret seed.
pub uninterp spec fn pub_of(seed: Seq<u8>) -> Seq<u8>;

/// Whether a signature passes strict Ed25519 verification for a public
/// key and a message. Verification is a pure function of its inputs.
pub uninterp spec fn sig_valid(pk: Seq<u8>, msg: Seq<u8>, sig: Seq<u8>) -> bool;

/// Relies on sha2::Sha256::digest: a 32-byte digest of the input bytes,
/// a function of the input alone.
#[verifier::external_body]
fn sha256_bytes(data: &[u8]) -> (r: Vec<u8>)
    ensures
        r@ == digest_of(data@),
        r@.len() == 32,
{
    <sha2::Sha256 as sha2::Digest>::digest(data).to_vec()
}

/// Relies on ed25519_dalek::SigningKey::{from_bytes, verifying_key}: the
/// public key determined by a 32-byte secret seed.
#[verifier::external_body]
fn ed25519_public(seed: &[u8]) -> (r: Vec<u8>)
    requires
        seed@.len() == 32,
    ensures
        r@ == pub_of(seed@),
        r@.len() == 32,
{
    let seed_arr: [u8; 32] = seed.try_into().unwrap();
    let sk = ed25519_dalek::SigningKey::from_bytes(&seed_arr);
    sk.verifying_key().to_bytes().to_vec()
}

/// Relies on ed25519_dalek::SigningKey and the Signer impl's sign: a
/// deterministic 64-byte signature over the message, which verify_strict
/// accepts under the seed's own public key.
#[verifier::external_body]
fn ed25519_sign(seed: &[u8], msg: &[u8]) -> (r: Vec<u8>)
    requires
        seed@.len() == 32,
    ensures
        r@ == sig_of(seed@, msg@),
        r@.len() == 64,
        sig_valid(pub_of(seed@), msg@, r@),
{
    let seed_arr: [u8; 32] = seed.try_into().unwrap();
    let sk = ed25519_dalek::SigningKey::from_bytes(&seed_arr);
    ed25519_dalek::Signer::sign(&sk, msg).to_bytes().to_vec()
}

/// Relies on ed25519_dalek::VerifyingKey::{from_bytes, verify_strict} and
/// ed25519_dalek::Signature::from_bytes; a public key that is not a valid
/// curve point accepts no signature.
#[verifier::external_body]
fn ed25519_check(pk: &[u8], msg: &[u8], sig: &[u8]) -> (r: bool)
    requires
        pk@.len() == 32,
        sig@.len() == 64,
    ensures
        r == sig_valid(pk@, msg@, sig@),
{
    let pk_arr: [u8; 32] = pk.try_into().unwrap();
    let sig_arr: [u8; 64] = sig.try_into().unwrap();
    let vk = match ed25519_dalek::VerifyingKey::from_bytes(&pk_arr) {
        Ok(vk) => vk,
        Err(_) => return false,
    };
    let s = ed25519_dalek::Signature::from_bytes(&sig_arr);
    vk.verify_strict(msg, &s).is_ok()
}

/// A 32-byte content hash.
#[derive(Clone, Debug)]
pub struct Hash {
    bytes: Vec<u8>,
}

impl Hash {
    /// The hash's bytes, the model every contract speaks of.
    pub closed spec fn view(&self) -> Seq<u8> {
        self.bytes@
    }

    /// A hash is well formed when it holds exactly 32 bytes.
    pub open spec fn wf(&self) -> bool {
        self@.len() == 32
    }

    /// Wraps 32 raw bytes as a hash.
    pub fn from_bytes(bytes: Vec<u8>) -> (r: Hash)
        requires
            bytes@.len() == 32,
        ensures
            r@ == bytes@,
            r.wf(),
    {
        Hash { bytes }
    }

    /// The raw bytes of the hash.
    pub fn as_bytes(&self) -> (r: &Vec<u8>)
        ensures
            r@ == self@,
    {
        &self.bytes
    }

    /// The all-zero hash, used as a placeholder reference.
    pub fn zero() -> (r: Hash)
        ensures
            r@ == Seq::<u8>::new(32, |i: int| 0u8),
            r.wf(),
    {
        let mut bytes: Vec<u8> = Vec::new();
        let mut i: usize = 0;
        while i < 32
            invariant
                i <= 32,
                bytes@.len() == i,
                forall|j: int| 0 <= j < i ==> bytes@[j] == 0u8,
            decreases 32 - i,
        {
            bytes.push(0u8);
            i = i + 1;
        }
        proof {
            assert(bytes@ =~= Seq::<u8>::new(32, |i: int| 0u8));
        }
        Hash { bytes }
    }

    /// Whether two hashes hold the same bytes.
    pub fn equals(&self, other: &Hash) -> (r: bool)
        ensures
            r == (self@ == other@),
    {
        eq_bytes(&self.bytes, &other.bytes)
    }
}

/// Whether two byte vectors hold the same bytes.
pub fn eq_bytes(a: &Vec<u8>, b: &Vec<u8>) -> (r: bool)
    ensures
        r == (a@ == b@),
{
    if a.len() != b.len() {
        proof {
            assert(a@.len() != b@.len());
        }
        return false;
    }
    let mut i: usize = 0;
    while i < a.len()
        invariant
            i <= a@.len(),
            a@.len() == b@.len(),
            forall|j: int| 0 <= j < i ==> a@[j] == b@[j],
        decreases a@.len() - i,
    {
        if a[i] != b[i] {
            return false;
        }
        i = i + 1;
    }
    proof {
        assert(a@ =~= b@);
    }
    true
}

/// The SHA-256 content hash of a byte string.
pub fn hash(data: &[u8]) -> (r: Hash)
    ensures
        r@ == digest_of(data@),
        r.wf(),
{
    Hash { bytes: sha256_bytes(data) }
}

/// The hash of the concatenation of two hashes, the combining step of the
/// Merkle tree.
pub fn pair_hash(left: &Hash, right: &Hash) -> (r: Hash)
    ensures
        r@ == digest_of(left@ + right@),
        r.wf(),
{
    let mut buf: Vec<u8> = Vec::new();
    let mut i: usize = 0;
    let lb = left.as_bytes();
    let rb = right.as_bytes();
    while i < lb.len()
        invariant
            i <= lb@.len(),
            buf@ =~= lb@.subrange(0, i as int),
        decreases lb@.len() - i,
    {
        buf.push(lb[i]);
        i = i + 1;
    }
    let mut j: usize = 0;
    while j < rb.len()
        invariant
            j <= rb@.len(),
            buf@ =~= lb@ + rb@.subrange(0, j as int),
        decreases rb@.len() - j,
    {
        buf.push(rb[j]);
        j = j + 1;
    }
    proof {
        assert(buf@ =~= left@ + right@);
    }
    hash(buf.as_slice())
}

/// An Ed25519 public key.
#[derive(Clone, Debug)]
pub struct PublicKey {
    bytes: Vec<u8>,
}

impl PublicKey {
    /// The key's bytes.
    pub closed spec fn view(&self) -> Seq<u8> {
        self.bytes@
    }

    /// A public key is well formed when it holds exactly 32 bytes.
    pub open spec fn wf(&self) -> bool {
        self@.len() == 32
    }

    /// Wraps 32 raw bytes as a public key.
    pub fn from_bytes(bytes: Vec<u8>) -> (r: PublicKey)
        requires
            bytes@.len() == 32,
        ensures
            r@ == bytes@,
            r.wf(),
    {
        PublicKey { bytes }
    }

    /// The raw bytes of the key.
    pub fn as_bytes(&self) -> (r: &Vec<u8>)
        ensures
            r@ == self@,
    {
        &self.bytes
    }

    /// The all-zero public key, a placeholder author.
    pub fn zero() -> (r: PublicKey)
        ensures
            r@ == Seq::<u8>::new(32, |i: int| 0u8),
            r.wf(),
    {
        let mut bytes: Vec<u8> = Vec::new();
        let mut i: usize = 0;
        while i < 32
            invariant
                i <= 32,
                bytes@.len() == i,
                forall|j: int| 0 <= j < i ==> bytes@[j] == 0u8,
            decreases 32 - i,
        {
            bytes.push(0u8);
            i = i + 1;
        }
        proof {
            assert(bytes@ =~= Seq::<u8>::new(32, |i: int| 0u8));
        }
        PublicKey { bytes }
    }

    /// Whether two public keys hold the same bytes.
    pub fn equals(&self, other: &PublicKey) -> (r: bool)
        ensures
            r == (self@ == other@),
    {
        eq_bytes(&self.bytes, &other.bytes)
    }
}

/// An Ed25519 secret key seed.
#[derive(Clone, Debug)]
pub struct SecretKey {
    bytes: Vec<u8>,
}

impl SecretKey {
    /// The seed's bytes.
    pub closed spec fn view(&self) -> Seq<u8> {
        self.bytes@
    }

    /// A secret key is well formed when it holds exactly 32 bytes.
    pub open spec fn wf(&self) -> bool {
        self@.len() == 32
    }

    /// Wraps 32 raw seed bytes as a secret key.
    pub fn from_bytes(bytes: Vec<u8>) -> (r: SecretKey)
        requires
            bytes@.len() == 32,
        ensures
            r@ == bytes@,
            r.wf(),
    {
        SecretKey { bytes }
    }

    /// The public key that this seed determines.
    pub fn public_key(&self) -> (r: PublicKey)
        requires
            self.wf(),
        ensures
            r@ == pub_of(self@),
            r.wf(),
    {
        PublicKey { bytes: ed25519_public(self.bytes.as_slice()) }
    }
}

/// An Ed25519 signature.
#[derive(Clone, Debug)]
pub struct Signature {
    bytes: Vec<u8>,
}

impl Signature {
    /// The signature's bytes.
    pub closed spec fn view(&self) -> Seq<u8> {
        self.bytes@
    }

    /// A signature is well formed when it holds exactly 64 bytes.
    pub open spec fn wf(&self) -> bool {
        self@.len() == 64
    }

    /// Wraps 64 raw bytes as a signature.
    pub fn from_bytes(bytes: Vec<u8>) -> (r: Signature)
        requires
            bytes@.len() == 64,
        ensures
            r@ == bytes@,
            r.wf(),
    {
        Signature { bytes }
    }

    /// The raw bytes of the signature.
    pub fn as_bytes(&self) -> (r: &Vec<u8>)
        ensures
            r@ == self@,
    {
        &self.bytes
    }
}

/// Signs a message with a secret key seed. The result verifies under the
/// seed's public key.
pub fn sign(msg: &[u8], sk: &SecretKey) -> (r: Signature)
    requires
        sk.wf(),
    ensures
        r@ == sig_of(sk@, msg@),
        r.wf(),
        sig_valid(pub_of(sk@), msg@, r@),
{
    Signature { bytes: ed25519_sign(sk.bytes.as_slice(), msg) }
}

/// Checks a signature over a message under a public key.
pub fn verify_signature(msg: &[u8], sig: &Signature, pk: &PublicKey) -> (r: bool)
    requires
        pk.wf(),
        sig.wf(),
    ensures
        r == sig_valid(pk@, msg@, sig@),
{
    ed25519_check(pk.bytes.as_slice(), msg, sig.bytes.as_slice())
}

} // verus!
