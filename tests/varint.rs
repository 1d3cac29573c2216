use hieronymus::parse::ParseError;
use hieronymus::varint::{serialize_to_bytes, varint, VarInt};

fn verify<V: VarInt + std::fmt::Debug + PartialEq>(expected: V, data: &[u8]) {
    let (rest, actual): (&[u8], V) = varint(data).unwrap();
    assert_eq!(expected, actual);
    assert!(rest.is_empty());
}

#[test]
fn it_works() {
    // u16
    verify(0u16, &[0x00]);
    verify(1u16, &[0x01]);
    verify(2u16, &[0x02]);
    verify(3u16, &[0x03]);
    verify(127u16, &[0x7f]);
    verify(128u16, &[0x80, 0x01]);
    verify(255u16, &[0xff, 0x01]);
    verify(0x3fffu16, &[0xff, 0x7f]);
    verify(0xffffu16, &[0xff, 0xff, 0x03]);
    // u32
    verify(0x0fff_ffffu32, &[0xff, 0xff, 0xff, 0x7f]);
    verify(0xffff_ffffu32, &[0xff, 0xff, 0xff, 0xff, 0x0f]);
    // u64
    verify(
        0x7fff_ffff_ffff_ffffu64,
        &[0xff, 0xff, 0xff, 0xff, 0xff, 0xff, 0xff, 0xff, 0x7f],
    );
    verify(
        0xffff_ffff_ffff_ffffu64,
        &[0xff, 0xff, 0xff, 0xff, 0xff, 0xff, 0xff, 0xff, 0xff, 0x01],
    );
    // u128
    verify(
        0x3fff_ffff_ffff_ffff_ffff_ffff_ffff_ffffu128,
        &[
            0xff, 0xff, 0xff, 0xff, 0xff, 0xff, 0xff, 0xff, 0xff, 0xff, 0xff, 0xff, 0xff, 0xff,
            0xff, 0xff, 0xff, 0x7f,
        ],
    );
    verify(
        0xffff_ffff_ffff_ffff_ffff_ffff_ffff_ffffu128,
        &[
            0xff, 0xff, 0xff, 0xff, 0xff, 0xff, 0xff, 0xff, 0xff, 0xff, 0xff, 0xff, 0xff, 0xff,
            0xff, 0xff, 0xff, 0xff, 0x03,
        ],
    );
}

#[test]
fn varint_round_trips_every_width() {
    for v in [0u32, 1, 127, 128, 300, 0x7fff_ffff, u32::MAX] {
        let bytes = serialize_to_bytes(v);
        assert!(bytes.len() <= 5);
        verify(v, &bytes);
    }
    for v in [0i32, 1, -1, i32::MIN, i32::MAX] {
        verify(v, &serialize_to_bytes(v));
    }
    for v in [0i64, -1, i64::MIN, i64::MAX] {
        let bytes = serialize_to_bytes(v);
        assert!(bytes.len() <= 10);
        verify(v, &bytes);
    }
    for v in [0i16, -1, i16::MIN, i16::MAX] {
        verify(v, &serialize_to_bytes(v));
    }
    for v in [0i128, -1, i128::MIN, i128::MAX] {
        let bytes = serialize_to_bytes(v);
        assert!(bytes.len() <= 19);
        verify(v, &bytes);
    }
}

#[test]
fn negative_i32_takes_five_bytes() {
    assert_eq!(serialize_to_bytes(-1i32), vec![0xff, 0xff, 0xff, 0xff, 0x0f]);
    assert_eq!(serialize_to_bytes(300u32), vec![0xac, 0x02]);
}

#[test]
fn varint_leaves_following_bytes() {
    let (rest, v) = varint::<u32>(&[0xac, 0x02, 0x09, 0x07]).unwrap();
    assert_eq!(v, 300);
    assert_eq!(rest, &[0x09, 0x07]);
}

#[test]
fn varint_prefixes_are_incomplete() {
    let bytes = serialize_to_bytes(u32::MAX);
    for n in 0..bytes.len() {
        assert_eq!(varint::<u32>(&bytes[..n]).unwrap_err(), ParseError::Incomplete);
    }
}

#[test]
fn varint_overflow_is_an_error() {
    assert_eq!(varint::<u16>(&[0x80, 0x80, 0x80]).unwrap_err(), ParseError::VarintOverflow);
    assert_eq!(
        varint::<u32>(&[0xff, 0xff, 0xff, 0xff, 0xff, 0x01]).unwrap_err(),
        ParseError::VarintOverflow
    );
    assert_eq!(varint::<u16>(&[0x80, 0x80]).unwrap_err(), ParseError::Incomplete);
}
