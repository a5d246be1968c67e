use seam::capture::{
    classify, decode_media_key, hid_usage_for, mask_for, modifier_usage_for, modifiers_from,
    notches_from_pixels, tap_verdict, watched_mask, Observed, Permissions, RawEvent, SmoothScroll,
    TapVerdict, FLAGS_CHANGED, KEY_DOWN, KEY_UP, LEFT_MOUSE_DOWN, LEFT_MOUSE_UP, MOUSE_MOVED,
    OTHER_MOUSE_DOWN, RIGHT_MOUSE_UP, SCROLL_WHEEL, SYSTEM_DEFINED, TAP_DISABLED_BY_TIMEOUT,
    TAP_DISABLED_BY_USER_INPUT,
};
use seam::keys::{LogicalText, Modifiers, PhysicalKey};

fn raw(kind: u32) -> RawEvent {
    RawEvent {
        kind,
        x: 10,
        y: 20,
        moved_x: 0,
        moved_y: 0,
        device_x: 0,
        device_y: 0,
        wheel_x: 0,
        wheel_y: 0,
        pixels_x: 0,
        pixels_y: 0,
        keycode: 0,
        flags: 0,
        typed: vec![],
        media: None,
    }
}

fn meaning(e: &RawEvent) -> Option<Observed> {
    classify(e, &mut SmoothScroll::new())
}

#[test]
fn movement_is_the_cursors_own_and_else_the_devices() {
    let mut e = raw(MOUSE_MOVED);
    e.moved_x = 4;
    e.moved_y = -3;
    e.device_x = 9;
    e.device_y = 9;
    assert_eq!(meaning(&e), Some(Observed::Motion { x: 10, y: 20, dx: 4, dy: -3 }));
    e.moved_x = 0;
    e.moved_y = 0;
    assert_eq!(meaning(&e), Some(Observed::Motion { x: 10, y: 20, dx: 9, dy: 9 }));
}

#[test]
fn buttons_are_numbered_as_the_protocol_numbers_them() {
    assert_eq!(meaning(&raw(LEFT_MOUSE_DOWN)), Some(Observed::Button { button: 1, down: true }));
    assert_eq!(meaning(&raw(LEFT_MOUSE_UP)), Some(Observed::Button { button: 1, down: false }));
    assert_eq!(meaning(&raw(RIGHT_MOUSE_UP)), Some(Observed::Button { button: 2, down: false }));
    assert_eq!(meaning(&raw(OTHER_MOUSE_DOWN)), Some(Observed::Button { button: 3, down: true }));
    assert_eq!(meaning(&raw(99)), None);
}

#[test]
fn slow_scrolling_adds_up() {
    let mut left = SmoothScroll::new();
    assert_eq!(notches_from_pixels(&mut left, 0, 6), None);
    assert_eq!(notches_from_pixels(&mut left, 0, 6), Some(Observed::Scroll { dx: 0, dy: 1 }));
    assert_eq!(notches_from_pixels(&mut left, 0, 8), Some(Observed::Scroll { dx: 0, dy: 1 }));
    assert_eq!(notches_from_pixels(&mut left, -25, 0), Some(Observed::Scroll { dx: -2, dy: 0 }));
    assert_eq!(notches_from_pixels(&mut left, -5, 0), Some(Observed::Scroll { dx: -1, dy: 0 }));
}

#[test]
fn wheel_notches_travel_as_they_are() {
    let mut e = raw(SCROLL_WHEEL);
    assert_eq!(meaning(&e), None);
    e.wheel_y = -2;
    e.pixels_y = -40;
    assert_eq!(meaning(&e), Some(Observed::Scroll { dx: 0, dy: -2 }));
    e.wheel_y = 0;
    assert_eq!(meaning(&e), Some(Observed::Scroll { dx: 0, dy: -4 }));
}

#[test]
fn media_keys_are_consumer_keys() {
    // Key 0, state byte 0x0A: volume up, pressed.
    let down = decode_media_key((0 << 16) | (0x0A << 8));
    assert_eq!(
        down,
        Some(Observed::Key {
            text: LogicalText::none(),
            physical: PhysicalKey::consumer(0xE9),
            modifiers: Modifiers::none(),
            down: true,
        })
    );
    let up = decode_media_key((7 << 16) | (0x0B << 8));
    assert!(matches!(up, Some(Observed::Key { physical: PhysicalKey(0x80E2), down: false, .. })));
    assert_eq!(decode_media_key(100 << 16), None);
    let mut e = raw(SYSTEM_DEFINED);
    assert_eq!(meaning(&e), None);
    e.media = Some((16 << 16) | (0x0A << 8));
    assert!(matches!(
        meaning(&e),
        Some(Observed::Key { physical: PhysicalKey(0x80CD), down: true, .. })
    ));
}

#[test]
fn keys_carry_their_text_and_their_place() {
    let mut e = raw(KEY_DOWN);
    e.keycode = 0; // the A key
    e.typed = "ä".encode_utf16().collect();
    assert_eq!(
        meaning(&e),
        Some(Observed::Key {
            text: LogicalText::from_char('ä'),
            physical: PhysicalKey::a(),
            modifiers: Modifiers::none(),
            down: true,
        })
    );
    e.kind = KEY_UP;
    e.typed = vec![0x03]; // a control character is no text
    assert!(matches!(
        meaning(&e),
        Some(Observed::Key { text, physical: PhysicalKey(0x04), down: false, .. }) if text.is_empty()
    ));
    e.keycode = 200;
    assert_eq!(meaning(&e), None, "neither text nor a known key");
    e.typed = "😀".encode_utf16().collect();
    assert!(matches!(
        meaning(&e),
        Some(Observed::Key { text, physical: PhysicalKey(0), .. }) if text.as_str() == "😀"
    ));
    e.typed = vec![0xD800];
    assert!(matches!(
        meaning(&e),
        Some(Observed::Key { text, .. }) if text.as_str() == "\u{FFFD}"
    ));
}

#[test]
fn a_modifier_is_down_while_its_own_flag_is_set() {
    let shift = 0x38;
    assert_eq!(modifier_usage_for(shift), PhysicalKey::left_shift());
    let mut e = raw(FLAGS_CHANGED);
    e.keycode = i64::from(shift);
    e.flags = 0x0002_0002;
    assert!(matches!(
        meaning(&e),
        Some(Observed::Key { physical: PhysicalKey(0xE1), down: true, .. })
    ));
    e.flags = 0;
    assert!(matches!(
        meaning(&e),
        Some(Observed::Key { physical: PhysicalKey(0xE1), down: false, .. })
    ));
    e.keycode = 0;
    assert_eq!(meaning(&e), None);
    assert!(modifiers_from(0).is_empty());
    assert!(modifiers_from(0x0002).contains(Modifiers::left_shift()));
}

#[test]
fn the_key_table_is_the_usb_one() {
    assert_eq!(hid_usage_for(0), PhysicalKey::a());
    assert_eq!(hid_usage_for(49), PhysicalKey::space());
    assert_eq!(hid_usage_for(36), PhysicalKey::enter());
    assert!(hid_usage_for(500).is_unknown());
}

#[test]
fn the_tap_watches_what_it_can_tell() {
    let mask = watched_mask();
    for kind in [MOUSE_MOVED, KEY_DOWN, KEY_UP, SCROLL_WHEEL, SYSTEM_DEFINED] {
        assert_ne!(mask & mask_for(kind), 0);
    }
    assert_eq!(mask_for(10), 1024);
    assert_eq!(mask & mask_for(30), 0);
}

#[test]
fn an_event_is_withheld_only_while_a_peer_owns_the_pointer() {
    let click = Some(Observed::Button { button: 1, down: true });
    assert_eq!(
        tap_verdict(LEFT_MOUSE_DOWN, click, false),
        TapVerdict { rearm: false, forward: click, withhold: false }
    );
    assert!(tap_verdict(LEFT_MOUSE_DOWN, click, true).withhold);
    assert!(tap_verdict(SCROLL_WHEEL, None, true).withhold);
    assert!(!tap_verdict(99, None, true).withhold);
    for kind in [TAP_DISABLED_BY_TIMEOUT, TAP_DISABLED_BY_USER_INPUT] {
        assert_eq!(
            tap_verdict(kind, click, true),
            TapVerdict { rearm: true, forward: None, withhold: false }
        );
    }
}

#[test]
fn both_permissions_are_needed_for_all() {
    assert!(Permissions { can_listen: true, can_post: true }.all_granted());
    assert!(!Permissions { can_listen: true, can_post: false }.all_granted());
}
