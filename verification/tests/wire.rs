use seam::wire::{Reader, Writer};
use seam::Error;

#[test]
fn roundtrips_scalars() {
    let mut buf = Vec::new();
    let mut w = Writer::new(&mut buf);
    w.u8(0xAB);
    w.u16(0xBEEF);
    w.u32(0xDEAD_BEEF);
    w.i32(-42);
    w.i64(i64::MIN);
    w.string("سلام").unwrap();

    let mut r = Reader::new(&buf);
    assert_eq!(r.u8().unwrap(), 0xAB);
    assert_eq!(r.u16().unwrap(), 0xBEEF);
    assert_eq!(r.u32().unwrap(), 0xDEAD_BEEF);
    assert_eq!(r.i32().unwrap(), -42);
    assert_eq!(r.i64().unwrap(), i64::MIN);
    assert_eq!(r.string().unwrap(), "سلام");
    r.finish().unwrap();
}

#[test]
fn short_read_is_truncated_not_panic() {
    let buf = [0u8; 3];
    let mut r = Reader::new(&buf);
    assert!(matches!(r.u32(), Err(Error::Truncated)));
}

#[test]
fn wire_trailing_bytes_are_rejected() {
    let buf = [1u8, 2, 3];
    let mut r = Reader::new(&buf);
    r.u8().unwrap();
    assert!(matches!(r.finish(), Err(Error::TrailingBytes(2))));
}

#[test]
fn bad_utf8_is_rejected() {
    let buf = [0x00, 0x02, 0xFF, 0xFE];
    let mut r = Reader::new(&buf);
    assert!(matches!(r.string(), Err(Error::InvalidUtf8)));
}

#[test]
fn numbers_are_big_endian_on_the_wire() {
    let mut buf = Vec::new();
    let mut w = Writer::new(&mut buf);
    w.u16(0x0102);
    w.u32(0x0304_0506);
    w.u64(0x0708_090A_0B0C_0D0E);
    w.i32(-2);
    w.bytes(&[9, 8]);
    w.string("é").unwrap();
    assert_eq!(
        buf,
        [
            1, 2, 3, 4, 5, 6, 7, 8, 9, 10, 11, 12, 13, 14, 0xFF, 0xFF, 0xFF, 0xFE, 9, 8, 0, 2, 0xC3,
            0xA9
        ]
    );
}

#[test]
fn a_string_that_its_length_field_cannot_count_is_refused() {
    let mut buf = Vec::new();
    let longest = "a".repeat(65_535);
    assert!(Writer::new(&mut buf).string(&longest).is_ok());
    assert_eq!(buf.len(), 65_537);
    let mut buf = Vec::new();
    let too_long = "a".repeat(65_536);
    assert!(matches!(Writer::new(&mut buf).string(&too_long), Err(Error::TooLong)));
}

#[test]
fn a_string_shorter_than_its_length_is_truncated() {
    let buf = [0, 5, b'a', b'b'];
    let mut r = Reader::new(&buf);
    assert!(matches!(r.string(), Err(Error::Truncated)));
    let mut r = Reader::new(&buf);
    assert_eq!(r.remaining(), 4);
    assert_eq!(r.bytes(3).unwrap(), [0, 5, b'a']);
    assert_eq!(r.remaining(), 1);
    assert!(matches!(r.bytes(2), Err(Error::Truncated)));
}

#[test]
fn each_rejection_says_what_is_wrong() {
    assert_eq!(Error::Truncated.describe(), "frame ended unexpectedly");
    assert_eq!(Error::TrailingBytes(3).describe(), "3 unexpected trailing byte(s) after frame");
    assert_eq!(Error::TooLong.describe(), "length-prefixed field exceeds its limit");
    assert_eq!(Error::InvalidUtf8.describe(), "string field is not valid UTF-8");
    assert_eq!(Error::UnknownVariant("Edge").describe(), "unknown discriminant for Edge");
    assert_eq!(Error::UnknownFrameKind(0x7F).describe(), "unknown frame kind 0x7f");
    assert_eq!(
        Error::VersionMismatch { ours: 2, theirs: 1 }.describe(),
        "protocol version mismatch: we speak 2, peer speaks 1"
    );
    assert_eq!(
        Error::BadMagic.describe(),
        "stream did not begin with the seam magic bytes"
    );
}
