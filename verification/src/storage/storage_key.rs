//! Typed keys over the raw byte-key space.
//!
//! A `StorageKey` serialises itself to bytes whose lexicographic order
//! equals the domain order, so that typed iteration comes out in domain
//! order; integers use big-endian bytes, hashes their own bytes.

use vstd::prelude::*;

use crate::storage::{lex_lt, lex_lt_skip_prefix};

verus! {

/// A key type with a canonical byte serialisation.
pub trait StorageKey: Sized {
    /// The canonical bytes of this key.
    spec fn key_model(&self) -> Seq<u8>;

    /// Whether a byte string is the canonical serialisation of some
    /// key of this type.
    spec fn parses(bytes: Seq<u8>) -> bool;

    /// Well-formedness of a key value.
    spec fn wf_key(&self) -> bool;

    /// A well-formed key's own serialisation parses.
    proof fn model_parses(&self)
        requires
            self.wf_key(),
        ensures
            Self::parses(self.key_model()),
    ;

    /// Serialises the key.
    fn write_key(&self) -> (r: Vec<u8>)
        ensures
            r@ == self.key_model(),
    ;

    /// Reads a key back from its serialisation.
    fn read_key(bytes: &Vec<u8>) -> (r: Option<Self>)
        ensures
            match r {
                Some(k) => Self::parses(bytes@) && k.key_model() == bytes@,
                None => !Self::parses(bytes@),
            },
    ;
}

/// The canonical bytes of a `u64` key: eight bytes, most significant
/// first.
pub open spec fn u64_key_bytes(x: u64) -> Seq<u8> {
    seq![
        ((x >> 56) & 0xff) as u8,
        ((x >> 48) & 0xff) as u8,
        ((x >> 40) & 0xff) as u8,
        ((x >> 32) & 0xff) as u8,
        ((x >> 24) & 0xff) as u8,
        ((x >> 16) & 0xff) as u8,
        ((x >> 8) & 0xff) as u8,
        (x & 0xff) as u8,
    ]
}

impl StorageKey for u64 {
    open spec fn key_model(&self) -> Seq<u8> {
        u64_key_bytes(*self)
    }

    open spec fn parses(bytes: Seq<u8>) -> bool {
        bytes.len() == 8
    }

    open spec fn wf_key(&self) -> bool {
        true
    }

    proof fn model_parses(&self) {
    }

    fn write_key(&self) -> (r: Vec<u8>) {
        let x = *self;
        let mut r: Vec<u8> = Vec::new();
        r.push(((x >> 56) & 0xff) as u8);
        r.push(((x >> 48) & 0xff) as u8);
        r.push(((x >> 40) & 0xff) as u8);
        r.push(((x >> 32) & 0xff) as u8);
        r.push(((x >> 24) & 0xff) as u8);
        r.push(((x >> 16) & 0xff) as u8);
        r.push(((x >> 8) & 0xff) as u8);
        r.push((x & 0xff) as u8);
        proof {
            assert(r@ =~= u64_key_bytes(x));
        }
        r
    }

    fn read_key(bytes: &Vec<u8>) -> (r: Option<u64>) {
        if bytes.len() != 8 {
            return None;
        }
        let x: u64 = ((bytes[0] as u64) << 56) | ((bytes[1] as u64) << 48) | ((bytes[2] as u64)
            << 40) | ((bytes[3] as u64) << 32) | ((bytes[4] as u64) << 24) | ((bytes[5] as u64)
            << 16) | ((bytes[6] as u64) << 8) | (bytes[7] as u64);
        proof {
            let b0 = bytes@[0];
            let b1 = bytes@[1];
            let b2 = bytes@[2];
            let b3 = bytes@[3];
            let b4 = bytes@[4];
            let b5 = bytes@[5];
            let b6 = bytes@[6];
            let b7 = bytes@[7];
            assert((((((b0 as u64) << 56) | ((b1 as u64) << 48) | ((b2 as u64) << 40) | ((b3 as u64) << 32) | ((b4 as u64) << 24) | ((b5 as u64) << 16) | ((b6 as u64) << 8) | (b7 as u64)) >> 56) & 0xff) as u8 == b0 && (((((b0 as u64) << 56) | ((b1 as u64) << 48) | ((b2 as u64) << 40) | ((b3 as u64) << 32) | ((b4 as u64) << 24) | ((b5 as u64) << 16) | ((b6 as u64) << 8) | (b7 as u64)) >> 48) & 0xff) as u8 == b1 && (((((b0 as u64) << 56) | ((b1 as u64) << 48) | ((b2 as u64) << 40) | ((b3 as u64) << 32) | ((b4 as u64) << 24) | ((b5 as u64) << 16) | ((b6 as u64) << 8) | (b7 as u64)) >> 40) & 0xff) as u8 == b2 && (((((b0 as u64) << 56) | ((b1 as u64) << 48) | ((b2 as u64) << 40) | ((b3 as u64) << 32) | ((b4 as u64) << 24) | ((b5 as u64) << 16) | ((b6 as u64) << 8) | (b7 as u64)) >> 32) & 0xff) as u8 == b3 && (((((b0 as u64) << 56) | ((b1 as u64) << 48) | ((b2 as u64) << 40) | ((b3 as u64) << 32) | ((b4 as u64) << 24) | ((b5 as u64) << 16) | ((b6 as u64) << 8) | (b7 as u64)) >> 24) & 0xff) as u8 == b4 && (((((b0 as u64) << 56) | ((b1 as u64) << 48) | ((b2 as u64) << 40) | ((b3 as u64) << 32) | ((b4 as u64) << 24) | ((b5 as u64) << 16) | ((b6 as u64) << 8) | (b7 as u64)) >> 16) & 0xff) as u8 == b5 && (((((b0 as u64) << 56) | ((b1 as u64) << 48) | ((b2 as u64) << 40) | ((b3 as u64) << 32) | ((b4 as u64) << 24) | ((b5 as u64) << 16) | ((b6 as u64) << 8) | (b7 as u64)) >> 8) & 0xff) as u8 == b6 && ((((b0 as u64) << 56) | ((b1 as u64) << 48) | ((b2 as u64) << 40) | ((b3 as u64) << 32) | ((b4 as u64) << 24) | ((b5 as u64) << 16) | ((b6 as u64) << 8) | (b7 as u64)) & 0xff) as u8 == b7) by (bit_vector);
            assert(x == (((b0 as u64) << 56) | ((b1 as u64) << 48) | ((b2 as u64) << 40) | ((b3 as u64) << 32) | ((b4 as u64) << 24) | ((b5 as u64) << 16) | ((b6 as u64) << 8) | (b7 as u64)));
            assert(u64_key_bytes(x) =~= bytes@);
        }
        Some(x)
    }
}

impl StorageKey for crate::crypto::Hash {
    open spec fn key_model(&self) -> Seq<u8> {
        self@
    }

    open spec fn parses(bytes: Seq<u8>) -> bool {
        bytes.len() == 32
    }

    open spec fn wf_key(&self) -> bool {
        self.wf()
    }

    proof fn model_parses(&self) {
    }

    fn write_key(&self) -> (r: Vec<u8>) {
        crate::storage::db::copy_bytes(self.as_bytes())
    }

    fn read_key(bytes: &Vec<u8>) -> (r: Option<crate::crypto::Hash>) {
        if bytes.len() == 32 {
            Some(crate::crypto::Hash::from_bytes(crate::storage::db::copy_bytes(bytes)))
        } else {
            None
        }
    }
}

/// Big-endian `u64` keys serialise order into byte order: the
/// lexicographic order of the canonical bytes is the numeric order.
pub proof fn lemma_u64_key_order(a: u64, b: u64)
    ensures
        lex_lt(u64_key_bytes(a), u64_key_bytes(b)) == (a < b),
{
    let ka = u64_key_bytes(a);
    let kb = u64_key_bytes(b);
    if a == b {
        crate::storage::lex_lt_irrefl(ka);
    } else if ka =~= kb {
        assert(a == b) by {
            assert(((a >> 56) & 0xff) as u8 == ((b >> 56) & 0xff) as u8 && ((a >> 48) & 0xff) as u8 == ((b >> 48) & 0xff) as u8 && ((a >> 40) & 0xff) as u8 == ((b >> 40) & 0xff) as u8 && ((a >> 32) & 0xff) as u8 == ((b >> 32) & 0xff) as u8 && ((a >> 24) & 0xff) as u8 == ((b >> 24) & 0xff) as u8 && ((a >> 16) & 0xff) as u8 == ((b >> 16) & 0xff) as u8 && ((a >> 8) & 0xff) as u8 == ((b >> 8) & 0xff) as u8 && (a & 0xff) as u8 == (b & 0xff) as u8 ==> a == b) by (bit_vector);
        }
    } else {
        let i = choose|i: int| 0 <= i < 8 && ka[i] != kb[i] && forall|j: int|
            0 <= j < i ==> ka[j] == kb[j];
        assert(exists|i: int|
            0 <= i < 8 && ka[i] != kb[i] && forall|j: int| 0 <= j < i ==> ka[j] == kb[j]) by {
            lemma_first_difference(ka, kb);
        }
        lex_lt_skip_prefix(ka, kb, i);
        lex_lt_skip_prefix(kb, ka, i);
        assert(lex_lt(ka, kb) == (ka[i] < kb[i]));
        assert(lex_lt(kb, ka) == (kb[i] < ka[i]));
        lemma_u64_byte_order(a, b, i);
    }
}

/// Two different equal-length byte strings have a first position where
/// they differ.
proof fn lemma_first_difference(ka: Seq<u8>, kb: Seq<u8>)
    requires
        ka.len() == kb.len(),
        !(ka =~= kb),
    ensures
        exists|i: int|
            0 <= i < ka.len() && ka[i] != kb[i] && forall|j: int| 0 <= j < i ==> ka[j] == kb[j],
    decreases ka.len(),
{
    let d = choose|d: int| 0 <= d < ka.len() && ka[d] != kb[d];
    lemma_first_difference_below(ka, kb, d);
}

/// There is a first difference at or below any known difference.
proof fn lemma_first_difference_below(ka: Seq<u8>, kb: Seq<u8>, d: int)
    requires
        ka.len() == kb.len(),
        0 <= d < ka.len(),
        ka[d] != kb[d],
    ensures
        exists|i: int|
            0 <= i < ka.len() && ka[i] != kb[i] && forall|j: int| 0 <= j < i ==> ka[j] == kb[j],
    decreases d,
{
    if forall|j: int| 0 <= j < d ==> ka[j] == kb[j] {
        assert(ka[d] != kb[d] && forall|j: int| 0 <= j < d ==> ka[j] == kb[j]);
    } else {
        let d2 = choose|d2: int| 0 <= d2 < d && ka[d2] != kb[d2];
        lemma_first_difference_below(ka, kb, d2);
    }
}

/// If the more significant big-endian bytes agree and byte `i` is
/// smaller, the number is smaller.
proof fn lemma_u64_byte_order(a: u64, b: u64, i: int)
    requires
        0 <= i < 8,
        forall|j: int| 0 <= j < i ==> u64_key_bytes(a)[j] == u64_key_bytes(b)[j],
        u64_key_bytes(a)[i] != u64_key_bytes(b)[i],
    ensures
        (u64_key_bytes(a)[i] < u64_key_bytes(b)[i]) == (a < b),
{
    if i == 0 {
        assert(((a >> 56) & 0xff) as u8 != ((b >> 56) & 0xff) as u8 ==> (((((a >> 56) & 0xff) as u8) < (((b >> 56) & 0xff) as u8)) == (a < b))) by (bit_vector);
    } else if i == 1 {
        assert(((a >> 56) & 0xff) as u8 == ((b >> 56) & 0xff) as u8 && ((a >> 48) & 0xff) as u8 != ((b >> 48) & 0xff) as u8 ==> (((((a >> 48) & 0xff) as u8) < (((b >> 48) & 0xff) as u8)) == (a < b))) by (bit_vector);
    } else if i == 2 {
        assert(((a >> 56) & 0xff) as u8 == ((b >> 56) & 0xff) as u8 && ((a >> 48) & 0xff) as u8 == ((b >> 48) & 0xff) as u8 && ((a >> 40) & 0xff) as u8 != ((b >> 40) & 0xff) as u8 ==> (((((a >> 40) & 0xff) as u8) < (((b >> 40) & 0xff) as u8)) == (a < b))) by (bit_vector);
    } else if i == 3 {
        assert(((a >> 56) & 0xff) as u8 == ((b >> 56) & 0xff) as u8 && ((a >> 48) & 0xff) as u8 == ((b >> 48) & 0xff) as u8 && ((a >> 40) & 0xff) as u8 == ((b >> 40) & 0xff) as u8 && ((a >> 32) & 0xff) as u8 != ((b >> 32) & 0xff) as u8 ==> (((((a >> 32) & 0xff) as u8) < (((b >> 32) & 0xff) as u8)) == (a < b))) by (bit_vector);
    } else if i == 4 {
        assert(((a >> 56) & 0xff) as u8 == ((b >> 56) & 0xff) as u8 && ((a >> 48) & 0xff) as u8 == ((b >> 48) & 0xff) as u8 && ((a >> 40) & 0xff) as u8 == ((b >> 40) & 0xff) as u8 && ((a >> 32) & 0xff) as u8 == ((b >> 32) & 0xff) as u8 && ((a >> 24) & 0xff) as u8 != ((b >> 24) & 0xff) as u8 ==> (((((a >> 24) & 0xff) as u8) < (((b >> 24) & 0xff) as u8)) == (a < b))) by (bit_vector);
    } else if i == 5 {
        assert(((a >> 56) & 0xff) as u8 == ((b >> 56) & 0xff) as u8 && ((a >> 48) & 0xff) as u8 == ((b >> 48) & 0xff) as u8 && ((a >> 40) & 0xff) as u8 == ((b >> 40) & 0xff) as u8 && ((a >> 32) & 0xff) as u8 == ((b >> 32) & 0xff) as u8 && ((a >> 24) & 0xff) as u8 == ((b >> 24) & 0xff) as u8 && ((a >> 16) & 0xff) as u8 != ((b >> 16) & 0xff) as u8 ==> (((((a >> 16) & 0xff) as u8) < (((b >> 16) & 0xff) as u8)) == (a < b))) by (bit_vector);
    } else if i == 6 {
        assert(((a >> 56) & 0xff) as u8 == ((b >> 56) & 0xff) as u8 && ((a >> 48) & 0xff) as u8 == ((b >> 48) & 0xff) as u8 && ((a >> 40) & 0xff) as u8 == ((b >> 40) & 0xff) as u8 && ((a >> 32) & 0xff) as u8 == ((b >> 32) & 0xff) as u8 && ((a >> 24) & 0xff) as u8 == ((b >> 24) & 0xff) as u8 && ((a >> 16) & 0xff) as u8 == ((b >> 16) & 0xff) as u8 && ((a >> 8) & 0xff) as u8 != ((b >> 8) & 0xff) as u8 ==> (((((a >> 8) & 0xff) as u8) < (((b >> 8) & 0xff) as u8)) == (a < b))) by (bit_vector);
    } else {
        assert(((a >> 56) & 0xff) as u8 == ((b >> 56) & 0xff) as u8 && ((a >> 48) & 0xff) as u8 == ((b >> 48) & 0xff) as u8 && ((a >> 40) & 0xff) as u8 == ((b >> 40) & 0xff) as u8 && ((a >> 32) & 0xff) as u8 == ((b >> 32) & 0xff) as u8 && ((a >> 24) & 0xff) as u8 == ((b >> 24) & 0xff) as u8 && ((a >> 16) & 0xff) as u8 == ((b >> 16) & 0xff) as u8 && ((a >> 8) & 0xff) as u8 == ((b >> 8) & 0xff) as u8 && (a & 0xff) as u8 != (b & 0xff) as u8 ==> ((((a & 0xff) as u8) < ((b & 0xff) as u8)) == (a < b))) by (bit_vector);
    }
}

} // verus!
