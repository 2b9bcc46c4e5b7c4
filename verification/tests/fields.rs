//! The fixed-width field codec: each field type writes its canonical
//! bytes and reads them back unchanged.

use exonum_core::encoding::{check_utf8, Error, Field, SegmentField, Timespec};

fn buf(n: usize) -> Vec<u8> {
    vec![0u8; n]
}

#[test]
fn u32_field_round_trip() {
    let mut b = buf(8);
    Field::write(&0xdead_beefu32, &mut b, 2, 6);
    assert_eq!(&b[2..6], &[0xef, 0xbe, 0xad, 0xde]);
    let got: u32 = Field::read(&b, 2, 6);
    assert_eq!(got, 0xdead_beef);
    // untouched bytes stay zero
    assert_eq!(b[0], 0);
    assert_eq!(b[7], 0);
}

#[test]
fn u64_field_round_trip() {
    let mut b = buf(8);
    Field::write(&0x0102_0304_0506_0708u64, &mut b, 0, 8);
    assert_eq!(b, vec![8, 7, 6, 5, 4, 3, 2, 1]);
    let got: u64 = Field::read(&b, 0, 8);
    assert_eq!(got, 0x0102_0304_0506_0708);
}

#[test]
fn u16_field_round_trip() {
    let mut b = buf(2);
    Field::write(&0xabcdu16, &mut b, 0, 2);
    let got: u16 = Field::read(&b, 0, 2);
    assert_eq!(got, 0xabcd);
}

#[test]
fn bool_field_check_rejects_other_bytes() {
    let mut b = buf(1);
    Field::write(&true, &mut b, 0, 1);
    assert_eq!(b[0], 1);
    let got: bool = Field::read(&b, 0, 1);
    assert!(got);
    assert!(<bool as Field>::check(&vec![0], 0, 1).is_ok());
    assert!(<bool as Field>::check(&vec![1], 0, 1).is_ok());
    assert_eq!(
        <bool as Field>::check(&vec![2], 0, 1),
        Err(Error::IncorrectBoolean { position: 0, value: 2 })
    );
}

#[test]
fn timespec_encodes_as_nanoseconds() {
    let t = Timespec { sec: 3, nsec: 500_000_000 };
    let mut b = buf(8);
    Field::write(&t, &mut b, 0, 8);
    let nanos: u64 = Field::read(&b, 0, 8);
    assert_eq!(nanos, 3_500_000_000);
    let back: Timespec = Field::read(&b, 0, 8);
    assert_eq!(back, t);
}

#[test]
fn utf8_check_accepts_and_rejects() {
    assert!(check_utf8(&b"plain ascii".to_vec()));
    let two_byte = vec![0xc3, 0xa9];
    assert!(check_utf8(&two_byte));
    let four_byte = vec![0xf0, 0x9f, 0x90, 0x8d];
    assert!(check_utf8(&four_byte));
    // a lone continuation byte, a truncated scalar, an overlong
    // encoding and a surrogate are all refused
    assert!(!check_utf8(&vec![0x80]));
    assert!(!check_utf8(&vec![0xc3]));
    assert!(!check_utf8(&vec![0xc0, 0x80]));
    assert!(!check_utf8(&vec![0xed, 0xa0, 0x80]));
}

#[test]
fn string_segment_round_trip_and_check() {
    let s = String::from("caf\u{e9}");
    let bytes = s.as_slice();
    let back = <String as SegmentField>::from_slice(bytes.clone());
    assert_eq!(back, s);
    assert_eq!(back.count() as usize, bytes.len());
    assert!(<String as SegmentField>::check_data(&bytes, 7).is_ok());
    assert_eq!(
        <String as SegmentField>::check_data(&vec![0xff, 0xfe], 7),
        Err(Error::Utf8 { position: 7 })
    );
}
