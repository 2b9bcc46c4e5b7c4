//! Message framing and signing.
//!
//! Every message is one contiguous byte buffer: a 10-byte header
//! (network id, protocol version, message id, service id, total
//! length), a fixed-size body, an optional variable-size tail for
//! segments, and a trailing 64-byte Ed25519 signature computed over
//! everything before it. A message read from disk and one read from
//! the network share this layout, so signatures carry across domains.

use vstd::prelude::*;

use crate::crypto::{pub_of, sig_of, sig_valid, SecretKey};
use crate::encoding::{
    le16_bytes, le32_bytes, le32_value, read_bytes_at, write_bytes_at, Error, Field,
};

verus! {

/// The network this build speaks on.
pub const NETWORK_ID: u8 = 0;

/// The framing version this build speaks.
pub const PROTOCOL_VERSION: u8 = 0;

/// Bytes of the header.
pub const HEADER_SIZE: usize = 10;

/// Bytes of the trailing signature.
pub const SIGNATURE_SIZE: usize = 64;

/// An unsealed buffer: header with a zero length field, then the body.
pub open spec fn unsigned_header(message_id: u16, service_id: u16) -> Seq<u8> {
    seq![NETWORK_ID, PROTOCOL_VERSION] + le16_bytes(message_id) + le16_bytes(service_id)
        + le32_bytes(0)
}

/// The buffer with its length field set to the sealed total.
pub open spec fn with_len(b: Seq<u8>) -> Seq<u8> {
    b.take(6) + le32_bytes((b.len() + 64) as u32) + b.skip(10)
}

/// A sealed message: the length-stamped buffer followed by its
/// signature under the given secret seed.
pub open spec fn sealed(b: Seq<u8>, sk: Seq<u8>) -> Seq<u8> {
    with_len(b) + sig_of(sk, with_len(b))
}

/// A fresh message buffer: header for the given ids, zero length
/// field, and a zeroed body of `body_size` bytes.
pub fn make_buffer(message_id: u16, service_id: u16, body_size: usize) -> (r: Vec<u8>)
    requires
        body_size <= 0x1000_0000,
    ensures
        r@ == unsigned_header(message_id, service_id) + Seq::new(body_size as nat, |i: int| 0u8),
        r@.len() == 10 + body_size,
{
    let mut r: Vec<u8> = Vec::new();
    r.push(NETWORK_ID);
    r.push(PROTOCOL_VERSION);
    r.push((message_id & 0xff) as u8);
    r.push(((message_id >> 8) & 0xff) as u8);
    r.push((service_id & 0xff) as u8);
    r.push(((service_id >> 8) & 0xff) as u8);
    r.push(0);
    r.push(0);
    r.push(0);
    r.push(0);
    proof {
        assert((0u32 & 0xff) as u8 == 0u8 && ((0u32 >> 8) & 0xff) as u8 == 0u8 && ((0u32 >> 16)
            & 0xff) as u8 == 0u8 && ((0u32 >> 24) & 0xff) as u8 == 0u8) by (bit_vector);
        assert(le32_bytes(0) =~= seq![0u8, 0u8, 0u8, 0u8]);
        assert(r@ =~= unsigned_header(message_id, service_id));
    }
    let mut i: usize = 0;
    while i < body_size
        invariant
            i <= body_size,
            r@ =~= unsigned_header(message_id, service_id) + Seq::new(i as nat, |j: int| 0u8),
        decreases body_size - i,
    {
        r.push(0);
        proof {
            assert(r@ =~= unsigned_header(message_id, service_id) + Seq::new(
                i as nat + 1,
                |j: int| 0u8,
            ));
        }
        i = i + 1;
    }
    r
}

/// The buffer after a segment is recorded: the 8-byte slot at `slot`
/// holds the tail position and byte count, and the bytes follow the
/// previous end of the buffer.
pub open spec fn seg_written(b: Seq<u8>, slot: int, d: Seq<u8>) -> Seq<u8> {
    b.take(slot) + le32_bytes(b.len() as u32) + le32_bytes(d.len() as u32) + b.skip(slot + 8) + d
}

/// Records a segment: writes its `(position, count)` reference into
/// the fixed slot and appends its bytes to the tail.
pub fn append_segment(buf: &mut Vec<u8>, slot: usize, data: &Vec<u8>)
    requires
        slot + 8 <= old(buf)@.len(),
        old(buf)@.len() + data@.len() <= 0xffff_ffff,
    ensures
        final(buf)@ == seg_written(old(buf)@, slot as int, data@),
        final(buf)@.len() == old(buf)@.len() + data@.len(),
{
    let pos = buf.len() as u32;
    let count = data.len() as u32;
    Field::write(&pos, buf, slot, slot + 4);
    Field::write(&count, buf, slot + 4, slot + 8);
    let mut i: usize = 0;
    let ghost b1 = buf@;
    while i < data.len()
        invariant
            i <= data@.len(),
            buf@ =~= b1 + data@.subrange(0, i as int),
        decreases data@.len() - i,
    {
        buf.push(data[i]);
        i = i + 1;
    }
    proof {
        assert(buf@ =~= b1 + data@);
        assert(buf@ =~= seg_written(old(buf)@, slot as int, data@));
    }
}

/// Stamps the total length into the header and appends the Ed25519
/// signature over everything before it.
pub fn seal(buf: Vec<u8>, sk: &SecretKey) -> (r: Vec<u8>)
    requires
        sk.wf(),
        buf@.len() >= 10,
        buf@.len() + 64 <= 0xffff_ffff,
    ensures
        r@ == sealed(buf@, sk@),
        r@.len() == buf@.len() + 64,
        sig_valid(pub_of(sk@), with_len(buf@), r@.skip(buf@.len() as int)),
{
    let mut buf = buf;
    let ghost b0 = buf@;
    let total = (buf.len() + 64) as u32;
    Field::write(&total, &mut buf, 6, 10);
    proof {
        assert(buf@ =~= with_len(b0));
    }
    let sig = crate::crypto::sign(buf.as_slice(), sk);
    let ghost stamped = buf@;
    let mut i: usize = 0;
    let sb = sig.as_bytes();
    while i < sb.len()
        invariant
            i <= sb@.len(),
            buf@ =~= stamped + sb@.subrange(0, i as int),
        decreases sb@.len() - i,
    {
        buf.push(sb[i]);
        i = i + 1;
    }
    proof {
        assert(buf@ =~= stamped + sb@);
        assert(buf@.skip(b0.len() as int) =~= sb@);
    }
    buf
}

/// Checks the trailing signature of a sealed buffer under a public
/// key.
pub fn buffer_verify(raw: &Vec<u8>, pk: &crate::crypto::PublicKey) -> (r: bool)
    requires
        raw@.len() >= 64,
        pk.wf(),
    ensures
        r == sig_valid(
            pk@,
            raw@.take(raw@.len() - 64),
            raw@.skip(raw@.len() - 64),
        ),
{
    let n = raw.len();
    let body = read_bytes_at(raw, 0, n - 64);
    let sig_bytes = read_bytes_at(raw, n - 64, 64);
    let sig = crate::crypto::Signature::from_bytes(sig_bytes);
    proof {
        assert(body@ =~= raw@.take(raw@.len() - 64));
        assert(sig@ =~= raw@.skip(raw@.len() - 64));
    }
    crate::crypto::verify_signature(body.as_slice(), &sig, pk)
}


/// The message id stored in a framed buffer.
pub open spec fn msg_message_id(b: Seq<u8>) -> u16 {
    crate::encoding::le16_value(b.subrange(2, 4))
}

/// The service id stored in a framed buffer.
pub open spec fn msg_service_id(b: Seq<u8>) -> u16 {
    crate::encoding::le16_value(b.subrange(4, 6))
}

/// The unsigned bytes of a message whose body is an author key and one
/// variable-length segment.
pub open spec fn key_segment_unsigned(mid: u16, sid: u16, pk: Seq<u8>, data: Seq<u8>) -> Seq<u8> {
    unsigned_header(mid, sid) + pk + le32_bytes(50) + le32_bytes(data.len() as u32) + data
}

/// Whether a buffer is an acceptable key-and-segment message of the
/// given ids: long enough, addressed right, and with a segment
/// reference that stays inside the tail.
pub open spec fn key_segment_valid(b: Seq<u8>, mid: u16, sid: u16) -> bool {
    &&& b.len() >= 114
    &&& msg_message_id(b) == mid
    &&& msg_service_id(b) == sid
    &&& {
        let pos = le32_value(b.subrange(42, 46)) as int;
        let cnt = le32_value(b.subrange(46, 50)) as int;
        cnt == 0 || (pos >= 50 && pos + cnt <= b.len() - 64)
    }
}

/// The error a rejected key-and-segment buffer reports.
pub open spec fn key_segment_err(b: Seq<u8>, mid: u16, sid: u16) -> Error {
    if b.len() < 114 {
        Error::UnexpectedlyShortPayload { actual_size: b.len() as u32, minimum_size: 114 }
    } else if msg_message_id(b) != mid || msg_service_id(b) != sid {
        Error::IncorrectMessageType { message_type: msg_message_id(b) }
    } else if !(le32_value(b.subrange(46, 50)) == 0 || le32_value(b.subrange(42, 46)) >= 50) {
        Error::IncorrectSegmentReference { position: 42, value: le32_value(b.subrange(42, 46)) }
    } else {
        Error::IncorrectSegmentSize { position: 46, value: le32_value(b.subrange(46, 50)) }
    }
}

/// The segment bytes a key-and-segment buffer carries.
pub open spec fn key_segment_data(b: Seq<u8>) -> Seq<u8> {
    let pos = le32_value(b.subrange(42, 46)) as int;
    let cnt = le32_value(b.subrange(46, 50)) as int;
    if cnt == 0 {
        Seq::empty()
    } else {
        b.subrange(pos, pos + cnt)
    }
}

/// Sealing a key-and-segment message yields a buffer that passes the
/// check and hands every field back unchanged: the codec loses
/// nothing.
pub proof fn lemma_key_segment_encoding(
    mid: u16,
    sid: u16,
    pk: Seq<u8>,
    data: Seq<u8>,
    sig: Seq<u8>,
)
    requires
        pk.len() == 32,
        sig.len() == 64,
        data.len() + 114 <= 0xffff_ffff,
    ensures
        ({
            let u = key_segment_unsigned(mid, sid, pk, data);
            let b = with_len(u) + sig;
            &&& b.len() == 114 + data.len()
            &&& key_segment_valid(b, mid, sid)
            &&& b.subrange(10, 42) == pk
            &&& key_segment_data(b) == data
            &&& b.take(b.len() - 64) == with_len(u)
            &&& b.skip(b.len() - 64) == sig
        }),
{
    let u = key_segment_unsigned(mid, sid, pk, data);
    let w = with_len(u);
    let b = w + sig;
    assert(u.len() == 50 + data.len());
    assert(w.len() == u.len());
    assert(b.len() == 114 + data.len());
    assert(b.subrange(2, 4) =~= le16_bytes(mid));
    assert(b.subrange(4, 6) =~= le16_bytes(sid));
    crate::encoding::lemma_le16_round_trip(mid);
    crate::encoding::lemma_le16_round_trip(sid);
    assert(b.subrange(42, 46) =~= le32_bytes(50));
    assert(b.subrange(46, 50) =~= le32_bytes(data.len() as u32));
    crate::encoding::lemma_le32_round_trip(50);
    crate::encoding::lemma_le32_round_trip(data.len() as u32);
    assert(b.subrange(10, 42) =~= pk);
    if data.len() > 0 {
        assert(b.subrange(50, 50 + data.len() as int) =~= data);
    } else {
        assert(key_segment_data(b) =~= data);
    }
    assert(b.take(b.len() - 64) =~= w);
    assert(b.skip(b.len() - 64) =~= sig);
}

/// Builds and seals a key-and-segment message.
pub fn new_key_segment_message(mid: u16, sid: u16, pk: &crate::crypto::PublicKey, data: &Vec<u8>, sk:
    &SecretKey) -> (r: Vec<u8>)
    requires
        pk.wf(),
        sk.wf(),
        data@.len() + 114 <= 0xffff_ffff,
    ensures
        r@ == sealed(key_segment_unsigned(mid, sid, pk@, data@), sk@),
        r@.len() == 114 + data@.len(),
        key_segment_valid(r@, mid, sid),
        r@.subrange(10, 42) == pk@,
        key_segment_data(r@) == data@,
        sig_valid(pub_of(sk@), r@.take(r@.len() - 64), r@.skip(r@.len() - 64)),
{
    let mut buf = make_buffer(mid, sid, 40);
    Field::write(pk, &mut buf, 10, 42);
    proof {
        assert(buf@ =~= unsigned_header(mid, sid) + pk@ + Seq::new(8, |i: int| 0u8));
    }
    append_segment(&mut buf, 42, data);
    proof {
        assert(buf@ =~= key_segment_unsigned(mid, sid, pk@, data@));
    }
    let r = seal(buf, sk);
    proof {
        lemma_key_segment_encoding(
            mid,
            sid,
            pk@,
            data@,
            sig_of(sk@, with_len(key_segment_unsigned(mid, sid, pk@, data@))),
        );
    }
    r
}

/// Checks a buffer as a key-and-segment message of the given ids.
pub fn check_key_segment_message(raw: &Vec<u8>, mid: u16, sid: u16) -> (r: Result<(), Error>)
    requires
        raw@.len() <= 0xffff_ffff,
    ensures
        (r is Ok) == key_segment_valid(raw@, mid, sid),
        r matches Err(e) ==> e == key_segment_err(raw@, mid, sid),
{
    if raw.len() < 114 {
        return Err(Error::UnexpectedlyShortPayload {
            actual_size: raw.len() as u32,
            minimum_size: 114,
        });
    }
    let got_mid: u16 = Field::read(raw, 2, 4);
    let got_sid: u16 = Field::read(raw, 4, 6);
    proof {
        crate::encoding::lemma_le16_round_trip(got_mid);
        crate::encoding::lemma_le16_round_trip(got_sid);
        assert(msg_message_id(raw@) == got_mid);
        assert(msg_service_id(raw@) == got_sid);
    }
    if got_mid != mid || got_sid != sid {
        return Err(Error::IncorrectMessageType { message_type: got_mid });
    }
    let pos: u32 = Field::read(raw, 42, 46);
    let cnt: u32 = Field::read(raw, 46, 50);
    proof {
        crate::encoding::lemma_le32_round_trip(pos);
        crate::encoding::lemma_le32_round_trip(cnt);
        assert(le32_value(raw@.subrange(42, 46)) == pos);
        assert(le32_value(raw@.subrange(46, 50)) == cnt);
    }
    if cnt == 0 {
        return Ok(());
    }
    if pos < 50 {
        return Err(Error::IncorrectSegmentReference { position: 42, value: pos });
    }
    if (pos as u64) + (cnt as u64) > (raw.len() - 64) as u64 {
        return Err(Error::IncorrectSegmentSize { position: 46, value: cnt });
    }
    Ok(())
}

/// Reads the author key of a framed message.
pub fn read_author_key(raw: &Vec<u8>) -> (r: crate::crypto::PublicKey)
    requires
        raw@.len() >= 42,
    ensures
        r@ == raw@.subrange(10, 42),
        r.wf(),
{
    crate::crypto::PublicKey::from_bytes(read_bytes_at(raw, 10, 32))
}

/// Reads the segment bytes of a key-and-segment message.
pub fn read_segment_bytes(raw: &Vec<u8>, mid: u16, sid: u16) -> (r: Vec<u8>)
    requires
        key_segment_valid(raw@, mid, sid),
    ensures
        r@ == key_segment_data(raw@),
{
    let pos: u32 = Field::read(raw, 42, 46);
    let cnt: u32 = Field::read(raw, 46, 50);
    proof {
        crate::encoding::lemma_le32_round_trip(pos);
        crate::encoding::lemma_le32_round_trip(cnt);
        assert(le32_value(raw@.subrange(42, 46)) == pos);
        assert(le32_value(raw@.subrange(46, 50)) == cnt);
    }
    if cnt == 0 {
        let r: Vec<u8> = Vec::new();
        proof {
            assert(r@ =~= key_segment_data(raw@));
        }
        r
    } else {
        read_bytes_at(raw, pos as usize, cnt as usize)
    }
}


/// The unsigned bytes of a message whose body is an author key and one
/// 32-byte hash.
pub open spec fn key_hash_unsigned(mid: u16, sid: u16, pk: Seq<u8>, h: Seq<u8>) -> Seq<u8> {
    unsigned_header(mid, sid) + pk + h
}

/// Whether a buffer is an acceptable key-and-hash message of the given
/// ids.
pub open spec fn key_hash_valid(b: Seq<u8>, mid: u16, sid: u16) -> bool {
    b.len() >= 138 && msg_message_id(b) == mid && msg_service_id(b) == sid
}

/// The error a rejected key-and-hash buffer reports.
pub open spec fn key_hash_err(b: Seq<u8>, mid: u16, sid: u16) -> Error {
    if b.len() < 138 {
        Error::UnexpectedlyShortPayload { actual_size: b.len() as u32, minimum_size: 138 }
    } else {
        Error::IncorrectMessageType { message_type: msg_message_id(b) }
    }
}

/// Sealing a key-and-hash message yields a buffer that passes the
/// check and hands both fields back unchanged.
pub proof fn lemma_key_hash_encoding(mid: u16, sid: u16, pk: Seq<u8>, h: Seq<u8>, sig: Seq<u8>)
    requires
        pk.len() == 32,
        h.len() == 32,
        sig.len() == 64,
    ensures
        ({
            let u = key_hash_unsigned(mid, sid, pk, h);
            let b = with_len(u) + sig;
            &&& b.len() == 138
            &&& key_hash_valid(b, mid, sid)
            &&& b.subrange(10, 42) == pk
            &&& b.subrange(42, 74) == h
            &&& b.take(b.len() - 64) == with_len(u)
            &&& b.skip(b.len() - 64) == sig
        }),
{
    let u = key_hash_unsigned(mid, sid, pk, h);
    let w = with_len(u);
    let b = w + sig;
    assert(u.len() == 74);
    assert(w.len() == 74);
    assert(b.subrange(2, 4) =~= le16_bytes(mid));
    assert(b.subrange(4, 6) =~= le16_bytes(sid));
    crate::encoding::lemma_le16_round_trip(mid);
    crate::encoding::lemma_le16_round_trip(sid);
    assert(b.subrange(10, 42) =~= pk);
    assert(b.subrange(42, 74) =~= h);
    assert(b.take(b.len() - 64) =~= w);
    assert(b.skip(b.len() - 64) =~= sig);
}

/// Builds and seals a key-and-hash message.
pub fn new_key_hash(
    mid: u16,
    sid: u16,
    pk: &crate::crypto::PublicKey,
    h: &crate::crypto::Hash,
    sk: &SecretKey,
) -> (r: Vec<u8>)
    requires
        pk.wf(),
        h.wf(),
        sk.wf(),
    ensures
        r@ == sealed(key_hash_unsigned(mid, sid, pk@, h@), sk@),
        r@.len() == 138,
        key_hash_valid(r@, mid, sid),
        r@.subrange(10, 42) == pk@,
        r@.subrange(42, 74) == h@,
        sig_valid(pub_of(sk@), r@.take(r@.len() - 64), r@.skip(r@.len() - 64)),
{
    let mut buf = make_buffer(mid, sid, 64);
    Field::write(pk, &mut buf, 10, 42);
    Field::write(h, &mut buf, 42, 74);
    proof {
        assert(buf@ =~= key_hash_unsigned(mid, sid, pk@, h@));
    }
    let r = seal(buf, sk);
    proof {
        lemma_key_hash_encoding(
            mid,
            sid,
            pk@,
            h@,
            sig_of(sk@, with_len(key_hash_unsigned(mid, sid, pk@, h@))),
        );
    }
    r
}

/// Checks a buffer as a key-and-hash message of the given ids.
pub fn check_key_hash(raw: &Vec<u8>, mid: u16, sid: u16) -> (r: Result<(), Error>)
    requires
        raw@.len() <= 0xffff_ffff,
    ensures
        (r is Ok) == key_hash_valid(raw@, mid, sid),
        r matches Err(e) ==> e == key_hash_err(raw@, mid, sid),
{
    if raw.len() < 138 {
        return Err(Error::UnexpectedlyShortPayload {
            actual_size: raw.len() as u32,
            minimum_size: 138,
        });
    }
    let got_mid: u16 = Field::read(raw, 2, 4);
    let got_sid: u16 = Field::read(raw, 4, 6);
    proof {
        crate::encoding::lemma_le16_round_trip(got_mid);
        crate::encoding::lemma_le16_round_trip(got_sid);
        assert(msg_message_id(raw@) == got_mid);
        assert(msg_service_id(raw@) == got_sid);
    }
    if got_mid != mid || got_sid != sid {
        return Err(Error::IncorrectMessageType { message_type: got_mid });
    }
    Ok(())
}

/// Reads a 32-byte hash field of a framed message.
pub fn read_hash_at(raw: &Vec<u8>, from: usize) -> (r: crate::crypto::Hash)
    requires
        from + 32 <= raw@.len(),
    ensures
        r@ == raw@.subrange(from as int, from + 32),
        r.wf(),
{
    crate::crypto::Hash::from_bytes(read_bytes_at(raw, from, 32))
}






/// Reads a 32-byte public key field at an offset of a buffer.
pub fn read_author_key_at(raw: &Vec<u8>, from: usize) -> (r: crate::crypto::PublicKey)
    requires
        from + 32 <= raw@.len(),
    ensures
        r@ == raw@.subrange(from as int, from + 32),
        r.wf(),
{
    crate::crypto::PublicKey::from_bytes(read_bytes_at(raw, from, 32))
}

} // verus!
