use seam::event::{Button, Motion, MotionTracker, Point, Press, SUBPIXEL_ONE};

fn motion(seq: u32, tx: i32, ty: i32) -> Motion {
    Motion { seq, cursor: Point::from_px(tx, ty), travel_x: tx, travel_y: ty }
}

#[test]
fn first_packet_has_no_relative_movement() {
    let mut t = MotionTracker::new();
    let a = t.accept(motion(7, 100, 50)).unwrap();
    assert_eq!((a.delta_x, a.delta_y), (0, 0));
    assert_eq!(a.cursor, Point::from_px(100, 50));
}

#[test]
fn lost_packets_do_not_cause_drift() {
    let mut t = MotionTracker::new();
    t.accept(motion(1, 0, 0)).unwrap();
    // Packets 2..=9 are dropped by the network; only 10 arrives.
    let a = t.accept(motion(10, 500, -300)).unwrap();
    assert_eq!((a.delta_x, a.delta_y), (500, -300), "delta must cover the whole gap");
    assert_eq!(a.lost, 8);
}

#[test]
fn reordered_packets_are_discarded() {
    let mut t = MotionTracker::new();
    t.accept(motion(1, 0, 0)).unwrap();
    t.accept(motion(5, 100, 100)).unwrap();
    assert!(t.accept(motion(3, 40, 40)).is_none(), "late packet must not rewind");
    assert!(t.accept(motion(5, 100, 100)).is_none(), "duplicate must be dropped");
}

#[test]
fn sequence_and_travel_survive_wraparound() {
    let mut t = MotionTracker::new();
    t.accept(Motion {
        seq: u32::MAX - 1,
        cursor: Point::default(),
        travel_x: i32::MAX - 5,
        travel_y: 0,
    })
    .unwrap();
    let a = t
        .accept(Motion {
            seq: 1, // wrapped past u32::MAX
            cursor: Point::default(),
            travel_x: i32::MAX.wrapping_add(5), // wrapped past i32::MAX
            travel_y: 0,
        })
        .unwrap();
    assert_eq!(a.delta_x, 10, "wrapping arithmetic must yield the true movement");
}

#[test]
fn reset_prevents_a_bogus_jump_after_reconnect() {
    let mut t = MotionTracker::new();
    t.accept(motion(1, 10_000, 10_000)).unwrap();
    t.reset();
    let a = t.accept(motion(2, 0, 0)).unwrap();
    assert_eq!((a.delta_x, a.delta_y), (0, 0));
}

#[test]
fn subpixel_conversion_roundtrips() {
    assert_eq!(Point::from_px(-3, 7).to_px(), (-3, 7));
    assert_eq!(Point::from_px(1, 1).x, SUBPIXEL_ONE);
}

#[test]
fn the_reported_movement_adds_up_whatever_is_lost() {
    let mut t = MotionTracker::new();
    let (mut x, mut y) = (0, 0);
    for m in [
        motion(1, 10, 10),
        motion(4, 70, -20),
        motion(3, 50, 0),
        motion(4, 70, -20),
        motion(9, -5, 31),
    ] {
        if let Some(a) = t.accept(m) {
            x += a.delta_x;
            y += a.delta_y;
        }
    }
    assert_eq!((x, y), (-5 - 10, 31 - 10));
}

#[test]
fn subpixels_round_towards_the_pixel_they_are_in() {
    assert_eq!(Point { x: 255, y: -1 }.to_px(), (0, -1));
    assert_eq!(Point { x: -256, y: -257 }.to_px(), (-1, -2));
    assert_eq!(Point::from_px(i32::MAX, i32::MIN), Point { x: -256, y: 0 });
}

#[test]
fn every_button_byte_reads_back() {
    for v in 0..=255u8 {
        if let Ok(b) = Button::try_from_u8(v) {
            assert_eq!(b.to_u8(), v);
        }
    }
    assert_eq!(Button::Left.to_u8(), 1);
    assert_eq!(Button::Forward.to_u8(), 5);
    assert!(Button::try_from_u8(0).is_err());
    assert_eq!(Button::Extra(9).to_u8(), 9);
}

#[test]
fn a_held_key_counts_as_down() {
    assert!(Press::Down.is_down());
    assert!(Press::Repeat.is_down());
    assert!(!Press::Up.is_down());
}
