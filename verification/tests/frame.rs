use seam::event::{
    Button, ButtonEvent, KeyEvent, Motion, Point, Press, ScrollEvent, ScrollUnit,
};
use seam::frame::{Edge, Enter, Frame, Hello, HelloAck, PeerId};
use seam::keys::{LayoutPolicy, LogicalText, Modifiers, PhysicalKey};
use seam::state::KeyState;
use seam::{Error, PROTOCOL_VERSION};

/// One of every frame kind, for exhaustive round-trip coverage.
fn sample_frames() -> Vec<Frame> {
    let mut keys = KeyState::new();
    keys.press(PhysicalKey::left_shift());
    keys.press(PhysicalKey::a());

    vec![
        Frame::Hello(Hello {
            version: PROTOCOL_VERSION,
            peer: PeerId([7; 16]),
            name: "Mac-mini".into(),
            width: 3840,
            height: 2160,
            scale: 512,
            layout_policy: LayoutPolicy::Auto,
        }),
        Frame::HelloAck(HelloAck {
            version: PROTOCOL_VERSION,
            peer: PeerId([9; 16]),
            name: "میز کار".into(),
            accepted: false,
            message: "not paired".into(),
        }),
        Frame::Motion(Motion {
            seq: u32::MAX,
            cursor: Point::from_px(-1920, 1080),
            travel_x: i32::MIN,
            travel_y: i32::MAX,
        }),
        Frame::Button(ButtonEvent {
            seq: 3,
            button: Button::Extra(9),
            press: Press::Down,
            modifiers: Modifiers::left_ctrl(),
        }),
        Frame::Scroll(ScrollEvent {
            seq: 4,
            dx: -120,
            dy: 360,
            unit: ScrollUnit::Pixel,
            end_of_gesture: true,
        }),
        Frame::Key(KeyEvent {
            seq: 5,
            physical: PhysicalKey::a(),
            logical: LogicalText::new("ی").unwrap(),
            press: Press::Repeat,
            modifiers: Modifiers::right_alt(),
        }),
        Frame::Enter(Enter { seq: 6, cursor: Point::from_px(0, 540), edge: Edge::Left, keys }),
        Frame::Leave { seq: 7 },
        Frame::ReleaseAll { seq: 8 },
        Frame::KeyStateDigest { seq: 9, digest: 0xDEAD_BEEF_CAFE_F00D, count: 2 },
        Frame::KeyStateQuery { seq: 10 },
        Frame::KeyStateFull { seq: 11, state: keys },
        Frame::Ping { nonce: 0x1234, t_send_us: 1_700_000_000_000_000 },
        Frame::Pong { nonce: 0x1234, t_send_us: 1, t_echo_us: 2 },
    ]
}

#[test]
fn every_frame_kind_roundtrips() {
    let mut buf = Vec::new();
    for frame in sample_frames() {
        buf.clear();
        frame.encode(&mut buf).expect("encode");
        let decoded = Frame::decode(&buf).expect("decode");
        assert_eq!(decoded, frame, "roundtrip failed for {frame:?}");
    }
}

#[test]
fn length_framing_roundtrips_a_concatenated_stream() {
    let frames = sample_frames();
    let mut buf = Vec::new();
    for f in &frames {
        f.encode_framed(&mut buf).expect("encode_framed");
    }
    let mut rest = &buf[..];
    for expected in &frames {
        let (got, used) = Frame::decode_framed(rest).expect("decode").expect("complete");
        assert_eq!(&got, expected);
        rest = &rest[used..];
    }
    assert!(rest.is_empty());
}

#[test]
fn partial_stream_reads_are_incomplete_not_errors() {
    let mut buf = Vec::new();
    Frame::Leave { seq: 1 }.encode_framed(&mut buf).unwrap();
    // Every strict prefix must report "need more data", never an error.
    for n in 0..buf.len() {
        assert_eq!(
            Frame::decode_framed(&buf[..n]),
            Ok(None),
            "prefix of length {n} should be incomplete"
        );
    }
    assert!(Frame::decode_framed(&buf).unwrap().is_some());
}

#[test]
fn only_motion_is_datagram_safe() {
    for f in sample_frames() {
        let expected = matches!(f, Frame::Motion(_));
        assert_eq!(f.is_datagram_safe(), expected, "{f:?}");
    }
}

#[test]
fn unknown_frame_kind_is_rejected() {
    assert_eq!(Frame::decode(&[0xFE]), Err(Error::UnknownFrameKind(0xFE)));
}

#[test]
fn frame_trailing_bytes_are_rejected() {
    let mut buf = Vec::new();
    Frame::Leave { seq: 1 }.encode(&mut buf).unwrap();
    buf.push(0);
    assert_eq!(Frame::decode(&buf), Err(Error::TrailingBytes(1)));
}

#[test]
fn oversized_length_prefix_is_rejected_before_allocating() {
    let mut buf = u32::MAX.to_be_bytes().to_vec();
    buf.extend_from_slice(&[0; 8]);
    assert_eq!(Frame::decode_framed(&buf), Err(Error::TooLong));
}

#[test]
fn version_mismatch_is_refused() {
    let mut h = Hello {
        version: PROTOCOL_VERSION,
        peer: PeerId::nil(),
        name: "x".into(),
        width: 1,
        height: 1,
        scale: 256,
        layout_policy: LayoutPolicy::Auto,
    };
    assert!(h.check_version().is_ok());
    h.version = PROTOCOL_VERSION + 1;
    assert!(matches!(h.check_version(), Err(Error::VersionMismatch { .. })));
}

#[test]
fn edges_are_opposite_in_pairs() {
    for e in [Edge::Left, Edge::Right, Edge::Top, Edge::Bottom] {
        assert_eq!(e.opposite().opposite(), e);
        assert_ne!(e.opposite(), e);
    }
}

/// Decoding is a trust boundary: arbitrary bytes must produce a `Result`, never a
/// panic. This is the cheap always-on companion to the `cargo-fuzz` target.
#[test]
fn arbitrary_bytes_never_panic() {
    let mut state = 0x2545_F491_4F6C_DD1Du64;
    let mut buf = Vec::with_capacity(64);
    for _ in 0..200_000 {
        state ^= state << 13;
        state ^= state >> 7;
        state ^= state << 17;
        let len = (state % 48) as usize;
        buf.clear();
        for i in 0..len {
            let byte = (state >> (i % 8 * 8)) ^ u64::try_from(i).unwrap_or(0);
            buf.push(byte.to_le_bytes()[0]);
        }
        let _ = Frame::decode(&buf);
        let _ = Frame::decode_framed(&buf);
    }
}

/// Corrupting any single byte of a valid frame must be rejected or decode to
/// something well-formed — never panic.
#[test]
fn bit_flips_in_valid_frames_never_panic() {
    for frame in sample_frames() {
        let mut buf = Vec::new();
        frame.encode(&mut buf).unwrap();
        for i in 0..buf.len() {
            for bit in 0..8 {
                let mut corrupt = buf.clone();
                corrupt[i] ^= 1 << bit;
                let _ = Frame::decode(&corrupt);
            }
        }
    }
}

#[test]
fn a_motion_frame_is_exactly_these_bytes() {
    let frame = Frame::Motion(Motion {
        seq: 1,
        cursor: Point { x: 2, y: -1 },
        travel_x: 3,
        travel_y: 4,
    });
    let mut buf = Vec::new();
    frame.encode(&mut buf).unwrap();
    assert_eq!(buf.len(), 21);
    assert_eq!(
        buf[1..],
        [0, 0, 0, 1, 0, 0, 0, 2, 0xFF, 0xFF, 0xFF, 0xFF, 0, 0, 0, 3, 0, 0, 0, 4]
    );
    let mut framed = Vec::new();
    frame.encode_framed(&mut framed).unwrap();
    assert_eq!(framed[..4], [0, 0, 0, 21]);
    assert_eq!(framed[4..], buf);
    assert_eq!(Frame::decode_framed(&framed).unwrap(), Some((frame, 25)));
}

#[test]
fn a_frame_with_a_name_too_long_is_refused() {
    let hello = Frame::HelloAck(HelloAck {
        version: PROTOCOL_VERSION,
        peer: PeerId([0; 16]),
        name: "n".repeat(70_000),
        accepted: true,
        message: String::new(),
    });
    let mut buf = Vec::new();
    assert_eq!(hello.encode(&mut buf), Err(Error::TooLong));
}

#[test]
fn a_short_id_is_the_first_bytes_in_hexadecimal() {
    let mut raw = [0u8; 16];
    raw[0] = 0xAB;
    raw[1] = 0x01;
    let id = PeerId(raw);
    assert!(id.to_short_string().starts_with("ab01"));
    assert!(!id.is_nil());
    assert!(PeerId::nil().is_nil());
    assert!(id.same(&PeerId(raw)));
    assert!(!id.same(&PeerId::nil()));
}

#[test]
fn every_start_of_a_frame_is_truncated() {
    for frame in sample_frames() {
        let mut buf = Vec::new();
        frame.encode(&mut buf).unwrap();
        for n in 0..buf.len() {
            assert_eq!(Frame::decode(&buf[..n]), Err(Error::Truncated), "{frame:?} at {n}");
        }
    }
}

#[test]
fn a_kind_nobody_knows_is_named() {
    let known = [1u8, 2, 0x10, 0x11, 0x12, 0x13, 0x20, 0x21, 0x22, 0x30, 0x31, 0x32, 0x40, 0x41];
    for kind in 0..=255u8 {
        if !known.contains(&kind) {
            assert_eq!(Frame::decode(&[kind, 1, 2]), Err(Error::UnknownFrameKind(kind)));
        }
    }
}

#[test]
fn a_log_shows_an_identifier_in_full() {
    let mut raw = [0; 16];
    raw[0] = 0xa1;
    raw[15] = 7;
    assert_eq!(PeerId(raw).describe(), format!("PeerId(a1{}07)", "00".repeat(14)));
}
