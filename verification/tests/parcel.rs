use seam::clipboard::{deflate_pixels, inflate_pixels, Shared};
use seam::frame::Frame;
use seam::parcel::{is_parcel, pack, unpack};
use seam::Error;

#[test]
fn a_parcel_holds_what_was_packed() {
    for shared in [
        Shared::Text { generation: 7, text: "سلام\n".into() },
        Shared::Text { generation: u64::MAX, text: String::new() },
        Shared::Image { generation: 1, width: 2, height: 1, rgba: deflate_pixels(&[9; 8]) },
        Shared::Files {
            generation: 3,
            entries: vec![("dir/ä.txt".into(), vec![1, 2, 3]), ("empty".into(), vec![])],
        },
        Shared::Files { generation: 3, entries: vec![] },
    ] {
        let bytes = pack(&shared).unwrap();
        assert!(is_parcel(bytes[0]));
        assert_eq!(unpack(&bytes), Ok(shared));
    }
}

#[test]
fn text_is_packed_as_exactly_these_bytes() {
    let bytes = pack(&Shared::Text { generation: 258, text: "é".into() }).unwrap();
    assert_eq!(bytes, [1, 0, 0, 0, 0, 0, 0, 1, 2, 0, 0, 0, 2, 0xC3, 0xA9]);
}

#[test]
fn a_damaged_parcel_is_refused() {
    let bytes = pack(&Shared::Files { generation: 1, entries: vec![("a".into(), vec![5; 9])] })
        .unwrap();
    for n in 0..bytes.len() {
        assert_eq!(unpack(&bytes[..n]), Err(Error::Truncated));
    }
    let mut longer = bytes.clone();
    longer.push(0);
    assert_eq!(unpack(&longer), Err(Error::TrailingBytes(1)));
    assert_eq!(unpack(&[9, 0, 0, 0, 0, 0, 0, 0, 0]), Err(Error::UnknownFrameKind(9)));
    let mut text = pack(&Shared::Text { generation: 1, text: "x".into() }).unwrap();
    *text.last_mut().unwrap() = 0xFF;
    assert_eq!(unpack(&text), Err(Error::InvalidUtf8));
    let named = Shared::Files { generation: 1, entries: vec![("n".repeat(70_000), vec![])] };
    assert_eq!(pack(&named), Err(Error::TooLong));
}

#[test]
fn a_frame_is_no_parcel() {
    let mut framed = Vec::new();
    Frame::Leave { seq: 1 }.encode_framed(&mut framed).unwrap();
    assert!(!is_parcel(framed[0]));
}

#[test]
fn a_copied_image_arrives_pixel_for_pixel() {
    let raw = [1, 2, 3, 4, 5, 6, 7, 8];
    let sent = Shared::Image { generation: 1, width: 1, height: 2, rgba: deflate_pixels(&raw) };
    let Ok(Shared::Image { width, height, rgba, .. }) = unpack(&pack(&sent).unwrap()) else {
        panic!("an image arrives as an image");
    };
    assert_eq!(inflate_pixels(&rgba, width, height).as_deref(), Some(&raw[..]));
}
