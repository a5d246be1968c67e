use seam::event::{Button, ButtonEvent, KeyEvent, Motion, Point, Press, ScrollEvent, ScrollUnit};
use seam::frame::{Frame, Hello, PeerId};
use seam::keys::{LayoutPolicy, LogicalText, Modifiers, PhysicalKey};
use seam::screen::{Desktop, Display, PixelRect};
use seam::session::{
    announce_geometry, hello_speaks_another_protocol, receive_datagram, receive_reliable, Act,
};
use seam::PROTOCOL_VERSION;

fn desktop() -> Desktop {
    let display = |id: u32, x: i32, w: i32, h: i32| Display {
        id,
        pixels: PixelRect::new(x, 0, w, h),
        width_mm: 0,
        height_mm: 0,
        scale: 256,
        primary: id == 1,
    };
    Desktop::new(vec![display(1, 0, 2560, 1080), display(2, -1920, 1920, 1200)])
}

fn hello(version: u16, name: &str, width: u32, height: u32) -> Frame {
    Frame::Hello(Hello {
        version,
        peer: PeerId([1; 16]),
        name: name.into(),
        width,
        height,
        scale: 256,
        layout_policy: LayoutPolicy::Auto,
    })
}

fn key(physical: PhysicalKey, text: &str, modifiers: Modifiers) -> Frame {
    Frame::Key(KeyEvent {
        seq: 1,
        physical,
        logical: LogicalText::new(text).unwrap(),
        press: Press::Down,
        modifiers,
    })
}

#[test]
fn text_is_typed_and_shortcuts_are_pressed() {
    assert_eq!(
        receive_reliable(&key(PhysicalKey::a(), "ä", Modifiers::none())),
        Act::Text { text: "ä".into(), down: true }
    );
    assert_eq!(
        receive_reliable(&key(PhysicalKey::a(), "a", Modifiers::left_ctrl())),
        Act::Key { usage: 4, down: true }
    );
    assert_eq!(
        receive_reliable(&key(PhysicalKey::enter(), "", Modifiers::none())),
        Act::Key { usage: 0x28, down: true }
    );
}

#[test]
fn buttons_and_scrolls_are_passed_on() {
    let button = Frame::Button(ButtonEvent {
        seq: 1,
        button: Button::Middle,
        press: Press::Up,
        modifiers: Modifiers::none(),
    });
    assert_eq!(receive_reliable(&button), Act::Button { button: 3, down: false });
    let scroll = Frame::Scroll(ScrollEvent {
        seq: 1,
        dx: 1,
        dy: -2,
        unit: ScrollUnit::Detent,
        end_of_gesture: false,
    });
    assert_eq!(receive_reliable(&scroll), Act::Scroll { dx: 1, dy: -2 });
    assert_eq!(receive_reliable(&Frame::KeyStateQuery { seq: 1 }), Act::Nothing);
}

#[test]
fn a_greeting_tells_the_screen_or_closes_the_link() {
    assert_eq!(
        receive_reliable(&hello(PROTOCOL_VERSION, "desk\t1.2.3", 1920, 1080)),
        Act::Screen { width: 1920, height: 1080, version: Some("1.2.3".into()) }
    );
    assert_eq!(
        receive_reliable(&hello(PROTOCOL_VERSION, "desk", 1920, 1080)),
        Act::Screen { width: 1920, height: 1080, version: None }
    );
    assert_eq!(receive_reliable(&hello(PROTOCOL_VERSION, "desk", 0, 1080)), Act::Nothing);
    assert_eq!(receive_reliable(&hello(PROTOCOL_VERSION, "desk", u32::MAX, 1)), Act::Nothing);
    assert_eq!(receive_reliable(&hello(PROTOCOL_VERSION + 1, "desk", 1920, 1080)), Act::Close);
    assert!(hello_speaks_another_protocol(PROTOCOL_VERSION + 1));
    assert!(!hello_speaks_another_protocol(PROTOCOL_VERSION));
}

#[test]
fn received_motion_lands_on_a_display_wherever_it_points() {
    let d = desktop();
    for (x, y) in [(5, 5), (2000, 1150), (-9000, 9000), (8_000_000, -8_000_000)] {
        let frame = Frame::Motion(Motion {
            seq: 1,
            cursor: Point::from_px(x, y),
            travel_x: 0,
            travel_y: 0,
        });
        let Act::Move { x, y } = receive_datagram(&frame, &d) else {
            panic!("motion moves the pointer");
        };
        assert!(d.contains(x, y));
    }
    let key = key(PhysicalKey::a(), "a", Modifiers::none());
    assert_eq!(receive_datagram(&key, &d), Act::Nothing, "keys travel reliably");
}

#[test]
fn the_announced_screen_is_the_bounding_box() {
    let Frame::Hello(h) = announce_geometry(&desktop(), "9.9") else {
        panic!("the screen travels in a greeting");
    };
    assert_eq!((h.width, h.height), (4480, 1200));
    assert_eq!(h.version, PROTOCOL_VERSION);
    assert!(h.name.ends_with("\t9.9"), "{:?}", h.name);
    assert_eq!(
        receive_reliable(&Frame::Hello(h)),
        Act::Screen { width: 4480, height: 1200, version: Some("9.9".into()) }
    );
}

#[test]
fn losing_the_pointer_releases_everything() {
    let leave = Frame::Leave { seq: 9 };
    assert_eq!(receive_reliable(&leave), Act::Conceal);
    assert_eq!(receive_datagram(&leave, &desktop()), Act::Conceal);
    assert_eq!(receive_reliable(&Frame::ReleaseAll { seq: 9 }), Act::Release);
}
