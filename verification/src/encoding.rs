//! The fixed-layout binary field codec.
//!
//! Every message and stored record is one contiguous byte buffer. A
//! fixed-width field occupies a compile-time-known byte range of it; a
//! variable-length field occupies a `(position, count)` pair in the
//! fixed region and its bytes in the tail. Each field type states its
//! canonical bytes, what decodes from them, and which byte ranges its
//! `check` accepts, and proves that decoding its own encoding returns
//! the value unchanged.

use vstd::pervasive::VecAdditionalExecFns;
use vstd::prelude::*;

verus! {

/// Why a buffer was rejected.
#[derive(Clone, Copy, Debug, PartialEq, Eq, Structural)]
pub enum Error {
    UnexpectedlyShortPayload { actual_size: u32, minimum_size: u32 },
    IncorrectBoolean { position: u32, value: u8 },
    IncorrectSegmentReference { position: u32, value: u32 },
    IncorrectSegmentSize { position: u32, value: u32 },
    Utf8 { position: u32 },
    IncorrectMessageType { message_type: u16 },
    BadSignature,
}

/// A fixed-width field of the binary layout.
pub trait Field: Sized {
    /// The number of bytes the field occupies.
    spec fn fwidth() -> usize;

    /// Well-formedness of a field value.
    spec fn fwf(&self) -> bool;

    /// The canonical bytes of the value.
    spec fn fbytes(&self) -> Seq<u8>;

    /// The byte strings `check` accepts.
    spec fn fvalid(bytes: Seq<u8>) -> bool;

    /// The error `check` reports for rejected bytes.
    spec fn fcheck_err(bytes: Seq<u8>, pos: u32) -> Error;

    /// A well-formed value's canonical bytes have the field's width
    /// and pass the check.
    proof fn fbytes_props(&self)
        requires
            self.fwf(),
        ensures
            self.fbytes().len() == Self::fwidth(),
            Self::fvalid(self.fbytes()),
    ;

    /// Reads the field from `buffer[from..to]`: on bytes the check
    /// accepts, the result is well formed and re-encodes to exactly
    /// those bytes.
    fn read(buffer: &Vec<u8>, from: usize, to: usize) -> (r: Self)
        requires
            from <= to <= buffer@.len(),
            to - from == Self::fwidth(),
        ensures
            Self::fvalid(buffer@.subrange(from as int, to as int)) ==> r.fwf() && r.fbytes()
                == buffer@.subrange(from as int, to as int),
    ;

    /// Writes the field's canonical bytes over `buffer[from..to]`.
    fn write(&self, buffer: &mut Vec<u8>, from: usize, to: usize)
        requires
            self.fwf(),
            from <= to <= old(buffer)@.len(),
            to - from == Self::fwidth(),
        ensures
            final(buffer)@.len() == old(buffer)@.len(),
            final(buffer)@.subrange(from as int, to as int) == self.fbytes(),
            forall|j: int|
                0 <= j < old(buffer)@.len() && !(from <= j < to) ==> final(buffer)@[j] == old(
                    buffer,
                )@[j],
    ;

    /// Accepts `buffer[from..to]` exactly when it decodes to a value
    /// this field type can canonically hold.
    fn check(buffer: &Vec<u8>, from: usize, to: usize) -> (r: Result<(), Error>)
        requires
            from <= to <= buffer@.len(),
            to - from == Self::fwidth(),
        ensures
            (r is Ok) == Self::fvalid(buffer@.subrange(from as int, to as int)),
            r matches Err(e) ==> e == Self::fcheck_err(
                buffer@.subrange(from as int, to as int),
                from as u32,
            ),
    ;
}

/// The little-endian bytes of a `u32`.
pub open spec fn le32_bytes(x: u32) -> Seq<u8> {
    seq![
        (x & 0xff) as u8,
        ((x >> 8) & 0xff) as u8,
        ((x >> 16) & 0xff) as u8,
        ((x >> 24) & 0xff) as u8,
    ]
}

/// The `u32` four little-endian bytes hold.
pub open spec fn le32_value(b: Seq<u8>) -> u32 {
    (b[0] as u32) | ((b[1] as u32) << 8) | ((b[2] as u32) << 16) | ((b[3] as u32) << 24)
}

/// The little-endian bytes of a `u64`.
pub open spec fn le64_bytes(x: u64) -> Seq<u8> {
    seq![
        (x & 0xff) as u8,
        ((x >> 8) & 0xff) as u8,
        ((x >> 16) & 0xff) as u8,
        ((x >> 24) & 0xff) as u8,
        ((x >> 32) & 0xff) as u8,
        ((x >> 40) & 0xff) as u8,
        ((x >> 48) & 0xff) as u8,
        ((x >> 56) & 0xff) as u8,
    ]
}

/// The `u64` eight little-endian bytes hold.
pub open spec fn le64_value(b: Seq<u8>) -> u64 {
    (b[0] as u64) | ((b[1] as u64) << 8) | ((b[2] as u64) << 16) | ((b[3] as u64) << 24) | ((
    b[4] as u64) << 32) | ((b[5] as u64) << 40) | ((b[6] as u64) << 48) | ((b[7] as u64) << 56)
}

/// Decoding the little-endian bytes of a `u32` returns it.
pub proof fn lemma_le32_round_trip(x: u32)
    ensures
        le32_value(le32_bytes(x)) == x,
{
    assert((((x & 0xff) as u8) as u32) | ((((x >> 8) & 0xff) as u8) as u32) << 8 | ((((x >> 16)
        & 0xff) as u8) as u32) << 16 | ((((x >> 24) & 0xff) as u8) as u32) << 24 == x)
        by (bit_vector);
}

/// Decoding the little-endian bytes of a `u64` returns it.
pub proof fn lemma_le64_round_trip(x: u64)
    ensures
        le64_value(le64_bytes(x)) == x,
{
    assert((((x & 0xff) as u8) as u64) | ((((x >> 8) & 0xff) as u8) as u64) << 8 | ((((x >> 16)
        & 0xff) as u8) as u64) << 16 | ((((x >> 24) & 0xff) as u8) as u64) << 24 | ((((x >> 32)
        & 0xff) as u8) as u64) << 32 | ((((x >> 40) & 0xff) as u8) as u64) << 40 | ((((x >> 48)
        & 0xff) as u8) as u64) << 48 | ((((x >> 56) & 0xff) as u8) as u64) << 56 == x)
        by (bit_vector);
}

/// Eight little-endian bytes re-encode from the value they hold.
pub proof fn lemma_le64_canonical(b: Seq<u8>)
    requires
        b.len() == 8,
    ensures
        le64_bytes(le64_value(b)) == b,
{
    let b0 = b[0];
    let b1 = b[1];
    let b2 = b[2];
    let b3 = b[3];
    let b4 = b[4];
    let b5 = b[5];
    let b6 = b[6];
    let b7 = b[7];
    assert((((b0 as u64) | ((b1 as u64) << 8) | ((b2 as u64) << 16) | ((b3 as u64) << 24) | ((
    b4 as u64) << 32) | ((b5 as u64) << 40) | ((b6 as u64) << 48) | ((b7 as u64) << 56)) & 0xff) as u8
        == b0 && ((((b0 as u64) | ((b1 as u64) << 8) | ((b2 as u64) << 16) | ((b3 as u64) << 24)
        | ((b4 as u64) << 32) | ((b5 as u64) << 40) | ((b6 as u64) << 48) | ((b7 as u64) << 56))
        >> 8) & 0xff) as u8 == b1 && ((((b0 as u64) | ((b1 as u64) << 8) | ((b2 as u64) << 16) | ((
    b3 as u64) << 24) | ((b4 as u64) << 32) | ((b5 as u64) << 40) | ((b6 as u64) << 48) | ((
    b7 as u64) << 56)) >> 16) & 0xff) as u8 == b2 && ((((b0 as u64) | ((b1 as u64) << 8) | ((
    b2 as u64) << 16) | ((b3 as u64) << 24) | ((b4 as u64) << 32) | ((b5 as u64) << 40) | ((
    b6 as u64) << 48) | ((b7 as u64) << 56)) >> 24) & 0xff) as u8 == b3 && ((((b0 as u64) | ((
    b1 as u64) << 8) | ((b2 as u64) << 16) | ((b3 as u64) << 24) | ((b4 as u64) << 32) | ((
    b5 as u64) << 40) | ((b6 as u64) << 48) | ((b7 as u64) << 56)) >> 32) & 0xff) as u8 == b4 && ((((
    b0 as u64) | ((b1 as u64) << 8) | ((b2 as u64) << 16) | ((b3 as u64) << 24) | ((b4 as u64)
        << 32) | ((b5 as u64) << 40) | ((b6 as u64) << 48) | ((b7 as u64) << 56)) >> 40)
        & 0xff) as u8 == b5 && ((((b0 as u64) | ((b1 as u64) << 8) | ((b2 as u64) << 16) | ((
    b3 as u64) << 24) | ((b4 as u64) << 32) | ((b5 as u64) << 40) | ((b6 as u64) << 48) | ((
    b7 as u64) << 56)) >> 48) & 0xff) as u8 == b6 && ((((b0 as u64) | ((b1 as u64) << 8) | ((
    b2 as u64) << 16) | ((b3 as u64) << 24) | ((b4 as u64) << 32) | ((b5 as u64) << 40) | ((
    b6 as u64) << 48) | ((b7 as u64) << 56)) >> 56) & 0xff) as u8 == b7) by (bit_vector);
    assert(le64_bytes(le64_value(b)) =~= b);
}

/// Four little-endian bytes re-encode from the value they hold.
pub proof fn lemma_le32_canonical(b: Seq<u8>)
    requires
        b.len() == 4,
    ensures
        le32_bytes(le32_value(b)) == b,
{
    let b0 = b[0];
    let b1 = b[1];
    let b2 = b[2];
    let b3 = b[3];
    assert((((b0 as u32) | ((b1 as u32) << 8) | ((b2 as u32) << 16) | ((b3 as u32) << 24))
        & 0xff) as u8 == b0 && ((((b0 as u32) | ((b1 as u32) << 8) | ((b2 as u32) << 16) | ((
    b3 as u32) << 24)) >> 8) & 0xff) as u8 == b1 && ((((b0 as u32) | ((b1 as u32) << 8) | ((
    b2 as u32) << 16) | ((b3 as u32) << 24)) >> 16) & 0xff) as u8 == b2 && ((((b0 as u32) | ((
    b1 as u32) << 8) | ((b2 as u32) << 16) | ((b3 as u32) << 24)) >> 24) & 0xff) as u8 == b3)
        by (bit_vector);
    assert(le32_bytes(le32_value(b)) =~= b);
}

/// A well-formed time's nanosecond count fits the unsigned encoding
/// and splits back into its parts.
pub proof fn lemma_timespec_nanos_bound(t: Timespec)
    requires
        t.wf(),
    ensures
        0 <= t.spec_nanos() <= 0xffff_ffff_ffff_ffff,
        t.spec_nanos() as u64 / 1_000_000_000 == t.sec,
        t.spec_nanos() as u64 % 1_000_000_000 == t.nsec,
{
    let n = t.spec_nanos();
    assert(0 <= n) by (nonlinear_arith)
        requires
            0 <= t.sec,
            0 <= t.nsec,
            n == t.sec * 1_000_000_000 + t.nsec,
    ;
    assert(n as u64 / 1_000_000_000 == t.sec && n as u64 % 1_000_000_000 == t.nsec)
        by (nonlinear_arith)
        requires
            0 <= t.sec,
            0 <= t.nsec < 1_000_000_000,
            n == t.sec * 1_000_000_000 + t.nsec,
            0 <= n <= 0xffff_ffff_ffff_ffff,
    ;
}


/// The little-endian bytes of a `u16`.
pub open spec fn le16_bytes(x: u16) -> Seq<u8> {
    seq![(x & 0xff) as u8, ((x >> 8) & 0xff) as u8]
}

/// The `u16` two little-endian bytes hold.
pub open spec fn le16_value(b: Seq<u8>) -> u16 {
    (b[0] as u16) | ((b[1] as u16) << 8)
}

/// Decoding the little-endian bytes of a `u16` returns it.
pub proof fn lemma_le16_round_trip(x: u16)
    ensures
        le16_value(le16_bytes(x)) == x,
{
    assert((((x & 0xff) as u8) as u16) | ((((x >> 8) & 0xff) as u8) as u16) << 8 == x)
        by (bit_vector);
}

/// Two little-endian bytes re-encode from the value they hold.
pub proof fn lemma_le16_canonical(b: Seq<u8>)
    requires
        b.len() == 2,
    ensures
        le16_bytes(le16_value(b)) == b,
{
    let b0 = b[0];
    let b1 = b[1];
    assert((((b0 as u16) | ((b1 as u16) << 8)) & 0xff) as u8 == b0 && ((((b0 as u16) | ((
    b1 as u16) << 8)) >> 8) & 0xff) as u8 == b1) by (bit_vector);
    assert(le16_bytes(le16_value(b)) =~= b);
}

impl Field for u16 {
    open spec fn fwidth() -> usize {
        2
    }

    open spec fn fwf(&self) -> bool {
        true
    }

    open spec fn fbytes(&self) -> Seq<u8> {
        le16_bytes(*self)
    }

    open spec fn fvalid(bytes: Seq<u8>) -> bool {
        true
    }

    open spec fn fcheck_err(bytes: Seq<u8>, pos: u32) -> Error {
        Error::BadSignature
    }

    proof fn fbytes_props(&self) {
    }

    fn read(buffer: &Vec<u8>, from: usize, to: usize) -> (r: u16) {
        let r = (buffer[from] as u16) | ((buffer[from + 1] as u16) << 8);
        proof {
            let sub = buffer@.subrange(from as int, to as int);
            assert(forall|j: int| 0 <= j < 2 ==> sub[j] == buffer@[from + j]);
            assert(r == le16_value(sub));
            lemma_le16_canonical(sub);
        }
        r
    }

    fn write(&self, buffer: &mut Vec<u8>, from: usize, to: usize) {
        let x = *self;
        buffer.set(from, (x & 0xff) as u8);
        buffer.set(from + 1, ((x >> 8) & 0xff) as u8);
        proof {
            assert(final(buffer)@.subrange(from as int, to as int) =~= le16_bytes(x));
        }
    }

    fn check(buffer: &Vec<u8>, from: usize, to: usize) -> (r: Result<(), Error>) {
        Ok(())
    }
}

impl Field for bool {
    open spec fn fwidth() -> usize {
        1
    }

    open spec fn fwf(&self) -> bool {
        true
    }

    open spec fn fbytes(&self) -> Seq<u8> {
        seq![
            if *self {
                1u8
            } else {
                0u8
            },
        ]
    }

    open spec fn fvalid(bytes: Seq<u8>) -> bool {
        bytes[0] == 0 || bytes[0] == 1
    }

    open spec fn fcheck_err(bytes: Seq<u8>, pos: u32) -> Error {
        Error::IncorrectBoolean { position: pos, value: bytes[0] }
    }

    proof fn fbytes_props(&self) {
    }

    fn read(buffer: &Vec<u8>, from: usize, to: usize) -> (r: bool) {
        let r = buffer[from] == 1;
        proof {
            let sub = buffer@.subrange(from as int, to as int);
            assert(sub[0] == buffer@[from as int]);
            if bool::fvalid(sub) {
                assert(r.fbytes() =~= sub);
            }
        }
        r
    }

    fn write(&self, buffer: &mut Vec<u8>, from: usize, to: usize) {
        let b: u8 = if *self {
            1
        } else {
            0
        };
        buffer.set(from, b);
        proof {
            assert(final(buffer)@.subrange(from as int, to as int) =~= self.fbytes());
        }
    }

    fn check(buffer: &Vec<u8>, from: usize, to: usize) -> (r: Result<(), Error>) {
        let v = buffer[from];
        if v == 0 || v == 1 {
            Ok(())
        } else {
            Err(Error::IncorrectBoolean { position: from as u32, value: v })
        }
    }
}

impl Field for u32 {
    open spec fn fwidth() -> usize {
        4
    }

    open spec fn fwf(&self) -> bool {
        true
    }

    open spec fn fbytes(&self) -> Seq<u8> {
        le32_bytes(*self)
    }

    open spec fn fvalid(bytes: Seq<u8>) -> bool {
        true
    }

    open spec fn fcheck_err(bytes: Seq<u8>, pos: u32) -> Error {
        Error::BadSignature
    }

    proof fn fbytes_props(&self) {
    }

    fn read(buffer: &Vec<u8>, from: usize, to: usize) -> (r: u32) {
        let r = (buffer[from] as u32) | ((buffer[from + 1] as u32) << 8) | ((buffer[from
            + 2] as u32) << 16) | ((buffer[from + 3] as u32) << 24);
        proof {
            let sub = buffer@.subrange(from as int, to as int);
            assert(forall|j: int| 0 <= j < 4 ==> sub[j] == buffer@[from + j]);
            assert(r == le32_value(sub));
            lemma_le32_canonical(sub);
        }
        r
    }

    fn write(&self, buffer: &mut Vec<u8>, from: usize, to: usize) {
        let x = *self;
        buffer.set(from, (x & 0xff) as u8);
        buffer.set(from + 1, ((x >> 8) & 0xff) as u8);
        buffer.set(from + 2, ((x >> 16) & 0xff) as u8);
        buffer.set(from + 3, ((x >> 24) & 0xff) as u8);
        proof {
            assert(final(buffer)@.subrange(from as int, to as int) =~= le32_bytes(x));
        }
    }

    fn check(buffer: &Vec<u8>, from: usize, to: usize) -> (r: Result<(), Error>) {
        Ok(())
    }
}

impl Field for u64 {
    open spec fn fwidth() -> usize {
        8
    }

    open spec fn fwf(&self) -> bool {
        true
    }

    open spec fn fbytes(&self) -> Seq<u8> {
        le64_bytes(*self)
    }

    open spec fn fvalid(bytes: Seq<u8>) -> bool {
        true
    }

    open spec fn fcheck_err(bytes: Seq<u8>, pos: u32) -> Error {
        Error::BadSignature
    }

    proof fn fbytes_props(&self) {
    }

    fn read(buffer: &Vec<u8>, from: usize, to: usize) -> (r: u64) {
        let r = (buffer[from] as u64) | ((buffer[from + 1] as u64) << 8) | ((buffer[from
            + 2] as u64) << 16) | ((buffer[from + 3] as u64) << 24) | ((buffer[from + 4] as u64)
            << 32) | ((buffer[from + 5] as u64) << 40) | ((buffer[from + 6] as u64) << 48) | ((
        buffer[from + 7] as u64) << 56);
        proof {
            let sub = buffer@.subrange(from as int, to as int);
            assert(forall|j: int| 0 <= j < 8 ==> sub[j] == buffer@[from + j]);
            assert(r == le64_value(sub));
            lemma_le64_canonical(sub);
        }
        r
    }

    fn write(&self, buffer: &mut Vec<u8>, from: usize, to: usize) {
        let x = *self;
        buffer.set(from, (x & 0xff) as u8);
        buffer.set(from + 1, ((x >> 8) & 0xff) as u8);
        buffer.set(from + 2, ((x >> 16) & 0xff) as u8);
        buffer.set(from + 3, ((x >> 24) & 0xff) as u8);
        buffer.set(from + 4, ((x >> 32) & 0xff) as u8);
        buffer.set(from + 5, ((x >> 40) & 0xff) as u8);
        buffer.set(from + 6, ((x >> 48) & 0xff) as u8);
        buffer.set(from + 7, ((x >> 56) & 0xff) as u8);
        proof {
            assert(final(buffer)@.subrange(from as int, to as int) =~= le64_bytes(x));
        }
    }

    fn check(buffer: &Vec<u8>, from: usize, to: usize) -> (r: Result<(), Error>) {
        Ok(())
    }
}

/// Writes raw bytes over `buffer[from..to]`.
pub fn write_bytes_at(buffer: &mut Vec<u8>, from: usize, data: &Vec<u8>)
    requires
        from + data@.len() <= old(buffer)@.len(),
    ensures
        final(buffer)@.len() == old(buffer)@.len(),
        final(buffer)@.subrange(from as int, from + data@.len()) == data@,
        forall|j: int|
            0 <= j < old(buffer)@.len() && !(from <= j < from + data@.len()) ==> final(buffer)@[j] == old(buffer)@[j],
{
    let total = buffer.len();
    let mut i: usize = 0;
    while i < data.len()
        invariant
            total == buffer@.len(),
            from + data@.len() <= total,
            from + data@.len() <= buffer@.len(),
            i <= data@.len(),
            buffer@.len() == old(buffer)@.len(),
            forall|j: int| from <= j < from + i ==> buffer@[j] == data@[j - from],
            forall|j: int|
                0 <= j < old(buffer)@.len() && !(from <= j < from + i) ==> buffer@[j] == old(
                    buffer,
                )@[j],
        decreases data@.len() - i,
    {
        buffer.set(from + i, data[i]);
        i = i + 1;
    }
    proof {
        assert(final(buffer)@.subrange(from as int, from + data@.len()) =~= data@);
    }
}

/// Reads `width` raw bytes from `buffer[from..]`.
pub fn read_bytes_at(buffer: &Vec<u8>, from: usize, width: usize) -> (r: Vec<u8>)
    requires
        from + width <= buffer@.len(),
    ensures
        r@ == buffer@.subrange(from as int, from + width),
{
    let total = buffer.len();
    let mut r: Vec<u8> = Vec::new();
    let mut i: usize = 0;
    while i < width
        invariant
            total == buffer@.len(),
            from + width <= total,
            from + width <= buffer@.len(),
            i <= width,
            r@ =~= buffer@.subrange(from as int, from + i),
        decreases width - i,
    {
        r.push(buffer[from + i]);
        i = i + 1;
    }
    proof {
        assert(r@ =~= buffer@.subrange(from as int, from + width));
    }
    r
}

impl Field for crate::crypto::Hash {
    open spec fn fwidth() -> usize {
        32
    }

    open spec fn fwf(&self) -> bool {
        self.wf()
    }

    open spec fn fbytes(&self) -> Seq<u8> {
        self@
    }

    open spec fn fvalid(bytes: Seq<u8>) -> bool {
        true
    }

    open spec fn fcheck_err(bytes: Seq<u8>, pos: u32) -> Error {
        Error::BadSignature
    }

    proof fn fbytes_props(&self) {
    }

    fn read(buffer: &Vec<u8>, from: usize, to: usize) -> (r: crate::crypto::Hash) {
        crate::crypto::Hash::from_bytes(read_bytes_at(buffer, from, 32))
    }

    fn write(&self, buffer: &mut Vec<u8>, from: usize, to: usize) {
        write_bytes_at(buffer, from, self.as_bytes());
    }

    fn check(buffer: &Vec<u8>, from: usize, to: usize) -> (r: Result<(), Error>) {
        Ok(())
    }
}

impl Field for crate::crypto::PublicKey {
    open spec fn fwidth() -> usize {
        32
    }

    open spec fn fwf(&self) -> bool {
        self.wf()
    }

    open spec fn fbytes(&self) -> Seq<u8> {
        self@
    }

    open spec fn fvalid(bytes: Seq<u8>) -> bool {
        true
    }

    open spec fn fcheck_err(bytes: Seq<u8>, pos: u32) -> Error {
        Error::BadSignature
    }

    proof fn fbytes_props(&self) {
    }

    fn read(buffer: &Vec<u8>, from: usize, to: usize) -> (r: crate::crypto::PublicKey) {
        crate::crypto::PublicKey::from_bytes(read_bytes_at(buffer, from, 32))
    }

    fn write(&self, buffer: &mut Vec<u8>, from: usize, to: usize) {
        write_bytes_at(buffer, from, self.as_bytes());
    }

    fn check(buffer: &Vec<u8>, from: usize, to: usize) -> (r: Result<(), Error>) {
        Ok(())
    }
}

/// A point in wall-clock time: seconds and nanoseconds since the
/// epoch. Encoded as one unsigned count of nanoseconds.
#[derive(Clone, Copy, Debug, PartialEq, Eq, Structural)]
pub struct Timespec {
    pub sec: i64,
    pub nsec: i32,
}

impl Timespec {
    /// A representable time: non-negative, normalised, and within the
    /// range the nanosecond encoding can carry.
    pub open spec fn wf(&self) -> bool {
        0 <= self.sec && 0 <= self.nsec < 1_000_000_000 && self.spec_nanos()
            <= 0xffff_ffff_ffff_ffff
    }

    /// The nanoseconds since the epoch.
    pub open spec fn spec_nanos(&self) -> int {
        self.sec * 1_000_000_000 + self.nsec
    }
}

impl Field for Timespec {
    open spec fn fwidth() -> usize {
        8
    }

    open spec fn fwf(&self) -> bool {
        self.wf()
    }

    open spec fn fbytes(&self) -> Seq<u8> {
        le64_bytes(self.spec_nanos() as u64)
    }

    open spec fn fvalid(bytes: Seq<u8>) -> bool {
        true
    }

    open spec fn fcheck_err(bytes: Seq<u8>, pos: u32) -> Error {
        Error::BadSignature
    }

    proof fn fbytes_props(&self) {
        lemma_timespec_nanos_bound(*self);
    }

    fn read(buffer: &Vec<u8>, from: usize, to: usize) -> (r: Timespec) {
        let nanos: u64 = Field::read(buffer, from, to);
        let r = Timespec {
            sec: (nanos / 1_000_000_000) as i64,
            nsec: (nanos % 1_000_000_000) as i32,
        };
        proof {
            let sub = buffer@.subrange(from as int, to as int);
            assert(le64_bytes(nanos) == sub) by {
                assert(le64_bytes(le64_value(sub)) == sub) by {
                    lemma_le64_canonical(sub);
                }
            }
            assert(r.sec * 1_000_000_000 + r.nsec == nanos && r.nsec < 1_000_000_000)
                by (nonlinear_arith)
                requires
                    r.sec == nanos / 1_000_000_000,
                    r.nsec == nanos % 1_000_000_000,
            ;
            assert(r.fbytes() == sub);
        }
        r
    }

    fn write(&self, buffer: &mut Vec<u8>, from: usize, to: usize) {
        proof {
            lemma_timespec_nanos_bound(*self);
        }
        let nanos: u64 = (self.sec as u64) * 1_000_000_000 + (self.nsec as u64);
        Field::write(&nanos, buffer, from, to);
    }

    fn check(buffer: &Vec<u8>, from: usize, to: usize) -> (r: Result<(), Error>) {
        Ok(())
    }
}

/// A variable-length field stored in a buffer's tail and referenced by
/// a `(position, count)` pair in its fixed region.
pub trait SegmentField: Sized {
    /// The canonical tail bytes of the value.
    spec fn sbytes(&self) -> Seq<u8>;

    /// The byte strings `check_data` accepts.
    spec fn svalid(bytes: Seq<u8>) -> bool;

    /// A value's own bytes are valid.
    proof fn sbytes_props(&self)
        ensures
            Self::svalid(self.sbytes()),
    ;

    /// Wraps valid tail bytes as a value, which re-encodes to exactly
    /// those bytes.
    fn from_slice(bytes: Vec<u8>) -> (r: Self)
        requires
            Self::svalid(bytes@),
        ensures
            r.sbytes() == bytes@,
    ;

    /// The value's canonical tail bytes.
    fn as_slice(&self) -> (r: Vec<u8>)
        ensures
            r@ == self.sbytes(),
    ;

    /// The number of tail bytes.
    fn count(&self) -> (r: u32)
        requires
            self.sbytes().len() <= u32::MAX,
        ensures
            r == self.sbytes().len(),
    ;

    /// Accepts exactly the valid byte strings, blaming `pos`.
    fn check_data(bytes: &Vec<u8>, pos: u32) -> (r: Result<(), Error>)
        ensures
            (r is Ok) == Self::svalid(bytes@),
    ;
}

impl SegmentField for Vec<u8> {
    open spec fn sbytes(&self) -> Seq<u8> {
        self@
    }

    open spec fn svalid(bytes: Seq<u8>) -> bool {
        true
    }

    proof fn sbytes_props(&self) {
    }

    fn from_slice(bytes: Vec<u8>) -> (r: Vec<u8>) {
        bytes
    }

    fn as_slice(&self) -> (r: Vec<u8>) {
        crate::storage::db::copy_bytes(self)
    }

    fn count(&self) -> (r: u32) {
        self.len() as u32
    }

    fn check_data(bytes: &Vec<u8>, pos: u32) -> (r: Result<(), Error>) {
        Ok(())
    }
}


/// Checks that a byte string is valid UTF-8, scalar by scalar, against
/// the encoding's bit patterns: a well-formed leading byte, its
/// continuation bytes, no overlong encoding and no surrogate value.
pub fn check_utf8(bytes: &Vec<u8>) -> (r: bool)
    ensures
        r == vstd::utf8::valid_utf8(bytes@),
{
    let n = bytes.len();
    let mut p: usize = 0;
    proof {
        assert(bytes@.skip(0) =~= bytes@);
    }
    while p < n
        invariant
            n == bytes@.len(),
            p <= n,
            vstd::utf8::valid_utf8(bytes@) == vstd::utf8::valid_utf8(bytes@.skip(p as int)),
        decreases n - p,
    {
        let ghost tail = bytes@.skip(p as int);
        proof {
            assert(tail.len() == n - p);
            assert(forall|j: int| 0 <= j < tail.len() ==> tail[j] == bytes@[p + j]);
        }
        let b0 = bytes[p];
        let width: usize;
        let cp: u32;
        if b0 <= 0x7f {
            width = 1;
            cp = (b0 & 0x7f) as u32;
        } else if 0xc0 <= b0 && b0 <= 0xdf {
            if n - p < 2 {
                proof {
                    assert(!vstd::utf8::valid_leading_and_continuation_bytes_first_codepoint(
                        tail,
                    ));
                }
                return false;
            }
            let b1 = bytes[p + 1];
            if !(0x80 <= b1 && b1 <= 0xbf) {
                proof {
                    assert(!vstd::utf8::valid_leading_and_continuation_bytes_first_codepoint(
                        tail,
                    ));
                }
                return false;
            }
            width = 2;
            cp = (((b0 & 0x1f) as u32) << 6) | ((b1 & 0x3f) as u32);
        } else if 0xe0 <= b0 && b0 <= 0xef {
            if n - p < 3 {
                proof {
                    assert(!vstd::utf8::valid_leading_and_continuation_bytes_first_codepoint(
                        tail,
                    ));
                }
                return false;
            }
            let b1 = bytes[p + 1];
            let b2 = bytes[p + 2];
            if !(0x80 <= b1 && b1 <= 0xbf) || !(0x80 <= b2 && b2 <= 0xbf) {
                proof {
                    assert(!vstd::utf8::valid_leading_and_continuation_bytes_first_codepoint(
                        tail,
                    ));
                }
                return false;
            }
            width = 3;
            cp = (((b0 & 0x0f) as u32) << 12) | (((b1 & 0x3f) as u32) << 6) | ((b2
                & 0x3f) as u32);
        } else if 0xf0 <= b0 && b0 <= 0xf7 {
            if n - p < 4 {
                proof {
                    assert(!vstd::utf8::valid_leading_and_continuation_bytes_first_codepoint(
                        tail,
                    ));
                }
                return false;
            }
            let b1 = bytes[p + 1];
            let b2 = bytes[p + 2];
            let b3 = bytes[p + 3];
            if !(0x80 <= b1 && b1 <= 0xbf) || !(0x80 <= b2 && b2 <= 0xbf) || !(0x80 <= b3 && b3
                <= 0xbf) {
                proof {
                    assert(!vstd::utf8::valid_leading_and_continuation_bytes_first_codepoint(
                        tail,
                    ));
                }
                return false;
            }
            width = 4;
            cp = (((b0 & 0x07) as u32) << 18) | (((b1 & 0x3f) as u32) << 12) | (((b2
                & 0x3f) as u32) << 6) | ((b3 & 0x3f) as u32);
        } else {
            proof {
                assert(!vstd::utf8::valid_leading_and_continuation_bytes_first_codepoint(tail));
            }
            return false;
        }
        proof {
            assert(vstd::utf8::valid_leading_and_continuation_bytes_first_codepoint(tail));
            assert(vstd::utf8::length_of_first_codepoint(tail) == width);
            assert(vstd::utf8::decode_first_codepoint(tail) == cp);
        }
        if width == 2 && cp < 0x80 {
            return false;
        }
        if width == 3 && cp < 0x800 {
            return false;
        }
        if width == 4 && !(0x10000 <= cp && cp <= 0x10ffff) {
            return false;
        }
        if 0xd800 <= cp && cp <= 0xdfff {
            return false;
        }
        proof {
            assert(vstd::utf8::valid_first_scalar(tail));
            assert(vstd::utf8::length_of_first_scalar(tail) == width);
            assert(vstd::utf8::pop_first_scalar(tail) =~= bytes@.skip(p as int + width as int));
        }
        p = p + width;
    }
    proof {
        assert(bytes@.skip(p as int).len() == 0);
    }
    true
}

/// The error type alloc's checked UTF-8 conversion reports.
#[verifier::external_type_specification]
#[verifier::external_body]
pub struct ExFromUtf8Error(std::string::FromUtf8Error);

/// Relies on String::from_utf8: it accepts exactly the byte strings
/// that are valid UTF-8, and wraps the accepted bytes without change.
pub assume_specification[ String::from_utf8 ](vec: Vec<u8>) -> (r: Result<
    String,
    std::string::FromUtf8Error,
>)
    ensures
        (r is Ok) == vstd::utf8::valid_utf8(vec@),
        r matches Ok(s) ==> vstd::utf8::encode_utf8(s@) == vec@,
;

impl SegmentField for String {
    open spec fn sbytes(&self) -> Seq<u8> {
        vstd::utf8::encode_utf8(self@)
    }

    open spec fn svalid(bytes: Seq<u8>) -> bool {
        vstd::utf8::valid_utf8(bytes)
    }

    proof fn sbytes_props(&self) {
        vstd::utf8::encode_utf8_valid_utf8(self@);
    }

    fn from_slice(bytes: Vec<u8>) -> (r: String) {
        match String::from_utf8(bytes) {
            Ok(s) => s,
            Err(_) => {
                // excluded by the validity precondition
                proof {
                    assert(false);
                }
                String::new()
            },
        }
    }

    fn as_slice(&self) -> (r: Vec<u8>) {
        vstd::string::StrSliceExecFns::as_bytes_vec(self.as_str())
    }

    fn count(&self) -> (r: u32) {
        let b = vstd::string::StrSliceExecFns::as_bytes_vec(self.as_str());
        b.len() as u32
    }

    fn check_data(bytes: &Vec<u8>, pos: u32) -> (r: Result<(), Error>) {
        if check_utf8(bytes) {
            Ok(())
        } else {
            Err(Error::Utf8 { position: pos })
        }
    }
}

} // verus!
