//! Turning captured platform events into what the protocol can carry.
//!
//! The platform layer reads an event's fields and hands them over as plain values; what
//! they mean is decided here.
use crate::event::Button;
use crate::keys::{LogicalText, Modifiers, PhysicalKey};
use crate::text;
use vstd::arithmetic::div_mod::*;
use vstd::prelude::*;
use vstd::string::*;
use vstd::utf8::*;

verus! {

// ---------------------------------------------------------------- event kinds
pub const LEFT_MOUSE_DOWN: u32 = 1;

pub const LEFT_MOUSE_UP: u32 = 2;

pub const RIGHT_MOUSE_DOWN: u32 = 3;

pub const RIGHT_MOUSE_UP: u32 = 4;

pub const MOUSE_MOVED: u32 = 5;

pub const LEFT_MOUSE_DRAGGED: u32 = 6;

pub const RIGHT_MOUSE_DRAGGED: u32 = 7;

pub const KEY_DOWN: u32 = 10;

pub const KEY_UP: u32 = 11;

pub const FLAGS_CHANGED: u32 = 12;

/// Where the system puts volume, media and brightness keys: not keyboard events.
pub const SYSTEM_DEFINED: u32 = 14;

pub const SCROLL_WHEEL: u32 = 22;

pub const OTHER_MOUSE_DOWN: u32 = 25;

pub const OTHER_MOUSE_UP: u32 = 26;

pub const OTHER_MOUSE_DRAGGED: u32 = 27;

pub const TAP_DISABLED_BY_TIMEOUT: u32 = 0xFFFF_FFFE;

pub const TAP_DISABLED_BY_USER_INPUT: u32 = 0xFFFF_FFFF;

/// The bit that asks for a kind of event.
pub fn mask_for(event_type: u32) -> (m: u64)
    requires
        event_type < 64,
    ensures
        m == 1u64 << event_type,
{
    1u64 << event_type
}

/// The kinds of event the tap asks for.
pub open spec fn watched(kind: u32) -> bool {
    ||| 1 <= kind <= 7
    ||| 10 <= kind <= 12
    ||| kind == 14
    ||| kind == 22
    ||| 25 <= kind <= 27
}

/// The mask of every kind of event the tap asks for.
pub fn watched_mask() -> (m: u64)
    ensures
        forall|kind: u32| kind < 64 ==> watched(kind) == (#[trigger] (m & (1u64 << kind)) != 0),
{
    let m: u64 = mask_for(MOUSE_MOVED) | mask_for(LEFT_MOUSE_DRAGGED) | mask_for(
        RIGHT_MOUSE_DRAGGED,
    ) | mask_for(OTHER_MOUSE_DRAGGED) | mask_for(LEFT_MOUSE_DOWN) | mask_for(LEFT_MOUSE_UP)
        | mask_for(RIGHT_MOUSE_DOWN) | mask_for(RIGHT_MOUSE_UP) | mask_for(OTHER_MOUSE_DOWN)
        | mask_for(OTHER_MOUSE_UP) | mask_for(SCROLL_WHEEL) | mask_for(KEY_DOWN) | mask_for(KEY_UP)
        | mask_for(FLAGS_CHANGED) | mask_for(SYSTEM_DEFINED);
    proof {
        assert((1u64 << 5u32) | (1u64 << 6u32) | (1u64 << 7u32) | (1u64 << 27u32) | (1u64 << 1u32)
            | (1u64 << 2u32) | (1u64 << 3u32) | (1u64 << 4u32) | (1u64 << 25u32) | (1u64 << 26u32)
            | (1u64 << 22u32) | (1u64 << 10u32) | (1u64 << 11u32) | (1u64 << 12u32) | (1u64
            << 14u32) == 0x0E40_5CFEu64) by (bit_vector);
        assert(forall|kind: u32|
            kind < 64 ==> ((1 <= kind && kind <= 7) || (10 <= kind && kind <= 12) || kind == 14
                || kind == 22 || (25 <= kind && kind <= 27)) == (#[trigger] (0x0E40_5CFEu64 & (1u64
                << kind)) != 0)) by (bit_vector);
    }
    m
}

/// Something the user did on this machine.
#[derive(Clone, Copy, PartialEq, Eq, Debug)]
pub enum Observed {
    /// Pointer moved. `x`/`y` are the absolute position, which freezes while the cursor is
    /// detached; `dx`/`dy` are the movement, which keeps working either way.
    Motion { x: i32, y: i32, dx: i32, dy: i32 },
    /// A mouse button changed state, in the protocol's numbering.
    Button { button: u8, down: bool },
    /// Scrolled. Positive `dy` is away from the user.
    Scroll { dx: i32, dy: i32 },
    /// A key changed state. `text` is what the local layout produced, and `physical`
    /// identifies the key itself; each kind of key needs a different one.
    Key { text: LogicalText, physical: PhysicalKey, modifiers: Modifiers, down: bool },
}

/// The fields of a captured event that decide what it means. Those that do not belong to
/// the event's kind are ignored.
#[derive(PartialEq, Eq, Debug)]
pub struct RawEvent {
    pub kind: u32,
    /// Where the cursor is.
    pub x: i32,
    pub y: i32,
    /// How far the cursor moved.
    pub moved_x: i64,
    pub moved_y: i64,
    /// How far the device moved, wherever the cursor may go.
    pub device_x: i64,
    pub device_y: i64,
    /// Wheel notches.
    pub wheel_x: i64,
    pub wheel_y: i64,
    /// Pixels of smooth scrolling.
    pub pixels_x: i64,
    pub pixels_y: i64,
    pub keycode: i64,
    pub flags: u64,
    /// What the layout typed, as UTF-16.
    pub typed: Vec<u16>,
    /// The payload of a media-key event, where the event is one.
    pub media: Option<i64>,
}

// ---------------------------------------------------------------- key tables
/// The USB HID usage of a keycode: the keys that type nothing, and letters and space, so
/// that a shortcut can be addressed by position. 0 for any other.
pub open spec fn hid_usage(keycode: u16) -> u16 {
    match keycode {
        0x33 => 0x2A,
        0x24 => 0x28,
        0x30 => 0x2B,
        0x35 => 0x29,
        0x75 => 0x4C,
        0x7B => 0x50,
        0x7C => 0x4F,
        0x7D => 0x51,
        0x7E => 0x52,
        0x73 => 0x4A,
        0x77 => 0x4D,
        0x74 => 0x4B,
        0x79 => 0x4E,
        0x7A => 0x3A,
        0x78 => 0x3B,
        0x63 => 0x3C,
        0x76 => 0x3D,
        0x60 => 0x3E,
        0x61 => 0x3F,
        0x62 => 0x40,
        0x64 => 0x41,
        0x65 => 0x42,
        0x6D => 0x43,
        0x67 => 0x44,
        0x6F => 0x45,
        0x00 => 0x04,
        0x0B => 0x05,
        0x08 => 0x06,
        0x02 => 0x07,
        0x0E => 0x08,
        0x03 => 0x09,
        0x05 => 0x0A,
        0x04 => 0x0B,
        0x22 => 0x0C,
        0x26 => 0x0D,
        0x28 => 0x0E,
        0x25 => 0x0F,
        0x2E => 0x10,
        0x2D => 0x11,
        0x1F => 0x12,
        0x23 => 0x13,
        0x0C => 0x14,
        0x0F => 0x15,
        0x01 => 0x16,
        0x11 => 0x17,
        0x20 => 0x18,
        0x09 => 0x19,
        0x0D => 0x1A,
        0x07 => 0x1B,
        0x10 => 0x1C,
        0x06 => 0x1D,
        0x31 => 0x2C,
        _ => 0,
    }
}

/// Keycode to USB HID usage.
pub fn hid_usage_for(keycode: u16) -> (k: PhysicalKey)
    ensures
        k.0 == hid_usage(keycode),
{
    let usage: u16 = match keycode {
        0x33 => 0x2A, // Backspace
        0x24 => 0x28, // Return
        0x30 => 0x2B, // Tab
        0x35 => 0x29, // Escape
        0x75 => 0x4C, // Forward Delete
        0x7B => 0x50, // Left
        0x7C => 0x4F, // Right
        0x7D => 0x51, // Down
        0x7E => 0x52, // Up
        0x73 => 0x4A, // Home
        0x77 => 0x4D, // End
        0x74 => 0x4B, // Page Up
        0x79 => 0x4E, // Page Down
        0x7A => 0x3A, // F1
        0x78 => 0x3B, // F2
        0x63 => 0x3C, // F3
        0x76 => 0x3D, // F4
        0x60 => 0x3E, // F5
        0x61 => 0x3F, // F6
        0x62 => 0x40, // F7
        0x64 => 0x41, // F8
        0x65 => 0x42, // F9
        0x6D => 0x43, // F10
        0x67 => 0x44, // F11
        0x6F => 0x45, // F12
        0x00 => 0x04, // A
        0x0B => 0x05, // B
        0x08 => 0x06, // C
        0x02 => 0x07, // D
        0x0E => 0x08, // E
        0x03 => 0x09, // F
        0x05 => 0x0A, // G
        0x04 => 0x0B, // H
        0x22 => 0x0C, // I
        0x26 => 0x0D, // J
        0x28 => 0x0E, // K
        0x25 => 0x0F, // L
        0x2E => 0x10, // M
        0x2D => 0x11, // N
        0x1F => 0x12, // O
        0x23 => 0x13, // P
        0x0C => 0x14, // Q
        0x0F => 0x15, // R
        0x01 => 0x16, // S
        0x11 => 0x17, // T
        0x20 => 0x18, // U
        0x09 => 0x19, // V
        0x0D => 0x1A, // W
        0x07 => 0x1B, // X
        0x10 => 0x1C, // Y
        0x06 => 0x1D, // Z
        0x31 => 0x2C, // Space
        _ => 0,
    };
    PhysicalKey(usage)
}

/// The USB HID usage of a modifier's keycode, 0 for any other key.
pub open spec fn modifier_usage(keycode: u16) -> u16 {
    match keycode {
        0x37 => 0xE3,
        0x36 => 0xE7,
        0x38 => 0xE1,
        0x3C => 0xE5,
        0x3B => 0xE0,
        0x3E => 0xE4,
        0x3A => 0xE2,
        0x3D => 0xE6,
        _ => 0,
    }
}

/// Keycode of a modifier to its USB HID usage.
pub fn modifier_usage_for(keycode: u16) -> (k: PhysicalKey)
    ensures
        k.0 == modifier_usage(keycode),
{
    let usage: u16 = match keycode {
        0x37 => 0xE3, // Left Command
        0x36 => 0xE7, // Right Command
        0x38 => 0xE1, // Left Shift
        0x3C => 0xE5, // Right Shift
        0x3B => 0xE0, // Left Control
        0x3E => 0xE4, // Right Control
        0x3A => 0xE2, // Left Option
        0x3D => 0xE6, // Right Option
        _ => 0,
    };
    PhysicalKey(usage)
}

/// `bit` where `flag` is set among `flags`.
pub open spec fn carried(flags: u64, flag: u64, bit: u16) -> u16 {
    if flags & flag != 0 {
        bit
    } else {
        0
    }
}

/// The modifier mask that event flags stand for. The device-dependent flags tell left
/// from right.
pub open spec fn flag_modifiers(flags: u64) -> u16 {
    0 | carried(flags, 0x2, 0x2) | carried(flags, 0x4, 0x20) | carried(flags, 0x1, 0x1) | carried(flags, 0x2000, 0x10) | carried(flags, 0x20, 0x4) | carried(flags, 0x40, 0x40) | carried(flags, 0x8, 0x8) | carried(flags, 0x10, 0x80) | carried(flags, 0x10000, 0x100)
}

/// Event flags to the protocol's modifier mask.
pub fn modifiers_from(flags: u64) -> (m: Modifiers)
    ensures
        m.0 == flag_modifiers(flags),
{
    let table: [(u64, Modifiers); 9] = [
        (0x2, Modifiers::left_shift()),
        (0x4, Modifiers::right_shift()),
        (0x1, Modifiers::left_ctrl()),
        (0x2000, Modifiers::right_ctrl()),
        (0x20, Modifiers::left_alt()),
        (0x40, Modifiers::right_alt()),
        (0x8, Modifiers::left_gui()),
        (0x10, Modifiers::right_gui()),
        (0x10000, Modifiers::caps_lock()),
    ];
    let mut m = Modifiers::none();
    let mut i: usize = 0;
    while i < 9
        invariant
            i <= 9,
            table@ == seq![
                (0x2u64, Modifiers(0x2)),
                (0x4u64, Modifiers(0x20)),
                (0x1u64, Modifiers(0x1)),
                (0x2000u64, Modifiers(0x10)),
                (0x20u64, Modifiers(0x4)),
                (0x40u64, Modifiers(0x40)),
                (0x8u64, Modifiers(0x8)),
                (0x10u64, Modifiers(0x80)),
                (0x10000u64, Modifiers(0x100)),
            ],
            m.0 == first_flags(flags, i as nat),
        decreases 9 - i,
    {
        let (bit, modifier) = table[i];
        let before: u16 = m.0;
        if flags & bit != 0 {
            m = m.union(modifier);
        }
        assert(before | 0 == before) by (bit_vector);
        i = i + 1;
    }
    m
}

/// The mask of the first `n` flags.
spec fn first_flags(flags: u64, n: nat) -> u16 {
    if n == 0 {
        0
    } else if n == 1 {
        0 | carried(flags, 0x2, 0x2)
    } else if n == 2 {
        0 | carried(flags, 0x2, 0x2) | carried(flags, 0x4, 0x20)
    } else if n == 3 {
        0 | carried(flags, 0x2, 0x2) | carried(flags, 0x4, 0x20) | carried(flags, 0x1, 0x1)
    } else if n == 4 {
        0 | carried(flags, 0x2, 0x2) | carried(flags, 0x4, 0x20) | carried(flags, 0x1, 0x1) | carried(flags, 0x2000, 0x10)
    } else if n == 5 {
        0 | carried(flags, 0x2, 0x2) | carried(flags, 0x4, 0x20) | carried(flags, 0x1, 0x1) | carried(flags, 0x2000, 0x10) | carried(flags, 0x20, 0x4)
    } else if n == 6 {
        0 | carried(flags, 0x2, 0x2) | carried(flags, 0x4, 0x20) | carried(flags, 0x1, 0x1) | carried(flags, 0x2000, 0x10) | carried(flags, 0x20, 0x4) | carried(flags, 0x40, 0x40)
    } else if n == 7 {
        0 | carried(flags, 0x2, 0x2) | carried(flags, 0x4, 0x20) | carried(flags, 0x1, 0x1) | carried(flags, 0x2000, 0x10) | carried(flags, 0x20, 0x4) | carried(flags, 0x40, 0x40) | carried(flags, 0x8, 0x8)
    } else if n == 8 {
        0 | carried(flags, 0x2, 0x2) | carried(flags, 0x4, 0x20) | carried(flags, 0x1, 0x1) | carried(flags, 0x2000, 0x10) | carried(flags, 0x20, 0x4) | carried(flags, 0x40, 0x40) | carried(flags, 0x8, 0x8) | carried(flags, 0x10, 0x80)
    } else {
        flag_modifiers(flags)
    }
}

// ---------------------------------------------------------------- typed text
/// `char::from_u32`: the character with that scalar value, where there is one.
#[verifier::external_body]
fn scalar(n: u32) -> (c: Option<char>)
    ensures
        c is Some <==> n < 0xD800 || 0xE000 <= n < 0x11_0000,
        c matches Some(c) ==> c as int == n,
{
    char::from_u32(n)
}

/// The characters that UTF-16 units stand for. A surrogate without its other half stands
/// for the replacement character.
pub open spec fn utf16_text(units: Seq<u16>) -> Seq<char>
    decreases units.len(),
{
    if units.len() == 0 {
        Seq::empty()
    } else {
        let a = units[0];
        if units.len() >= 2 && 0xD800 <= a < 0xDC00 && 0xDC00 <= units[1] < 0xE000 {
            seq![(0x1_0000 + (a - 0xD800) * 0x400 + (units[1] - 0xDC00)) as char] + utf16_text(
                units.skip(2),
            )
        } else if 0xD800 <= a < 0xE000 {
            seq!['\u{FFFD}'] + utf16_text(units.skip(1))
        } else {
            seq![a as char] + utf16_text(units.skip(1))
        }
    }
}

/// A control character, which a command types: it is no text.
pub open spec fn is_control(c: char) -> bool {
    (c as int) < 0x20 || 0x7F <= c as int <= 0x9F
}

/// Text without its control characters.
pub open spec fn printable(s: Seq<char>) -> Seq<char>
    decreases s.len(),
{
    if s.len() == 0 {
        Seq::empty()
    } else if is_control(s.last()) {
        printable(s.drop_last())
    } else {
        printable(s.drop_last()).push(s.last())
    }
}

proof fn printable_append(s: Seq<char>, c: char)
    ensures
        printable(s.push(c)) == (if is_control(c) {
            printable(s)
        } else {
            printable(s).push(c)
        }),
{
    assert(s.push(c).drop_last() =~= s);
}

fn decode_typed(units: &[u16]) -> (s: Vec<char>)
    ensures
        s@ == printable(utf16_text(units@)),
{
    let mut s: Vec<char> = Vec::new();
    let mut i: usize = 0;
    let ghost mut done: Seq<char> = Seq::empty();
    assert(units@.skip(0) =~= units@);
    assert(done + utf16_text(units@) =~= utf16_text(units@));
    while i < units.len()
        invariant
            i <= units@.len(),
            s@ == printable(done),
            done + utf16_text(units@.skip(i as int)) == utf16_text(units@),
        decreases units.len() - i,
    {
        let a: u32 = units[i] as u32;
        let ghost rest = units@.skip(i as int);
        let ghost before = done;
        let mut code: u32 = a;
        let mut used: usize = 1;
        if 0xD800 <= a && a < 0xE000 {
            code = 0xFFFD;
            if a < 0xDC00 && units.len() - i >= 2 {
                let b: u32 = units[i + 1] as u32;
                if 0xDC00 <= b && b < 0xE000 {
                    code = 0x1_0000 + (a - 0xD800) * 0x400 + (b - 0xDC00);
                    used = 2;
                }
            }
        }
        let c = match scalar(code) {
            Some(c) => c,
            None => '\u{FFFD}',
        };
        proof {
            assert(rest.len() >= 2 ==> rest[1] == units@[i + 1]);
            assert(rest.skip(used as int) =~= units@.skip(i + used));
            assert(utf16_text(rest) == seq![c] + utf16_text(rest.skip(used as int)));
            done = before.push(c);
            assert(done + utf16_text(rest.skip(used as int)) =~= before + utf16_text(rest));
            printable_append(before, c);
        }
        if !(c < '\u{20}' || ('\u{7F}' <= c && c <= '\u{9F}')) {
            s.push(c);
        }
        i = i + used;
    }
    proof {
        assert(units@.skip(i as int) =~= Seq::<u16>::empty());
        assert(done + Seq::<char>::empty() =~= done);
    }
    s
}

// ---------------------------------------------------------------- smooth scrolling
/// Division that rounds toward zero.
pub open spec fn whole_tens(v: int) -> int {
    if v >= 0 {
        v / 10
    } else {
        -((-v) / 10)
    }
}

/// A number of notches as it travels: one beyond the 32-bit range is dropped.
pub open spec fn narrow(v: int) -> int {
    if i32::MIN <= v <= i32::MAX {
        v
    } else {
        0
    }
}

/// Smooth-scroll pixels that do not make a whole notch yet.
#[derive(Clone, Copy, Debug)]
pub struct SmoothScroll {
    x: i64,
    y: i64,
}

impl View for SmoothScroll {
    type V = (int, int);

    /// The pixels left over, sideways and upward.
    closed spec fn view(&self) -> (int, int) {
        (self.x as int, self.y as int)
    }
}

impl SmoothScroll {
    /// Less than a notch is left over in either direction.
    #[verifier::type_invariant]
    pub closed spec fn wf(self) -> bool {
        -10 < self.x < 10 && -10 < self.y < 10
    }

    pub fn new() -> (s: SmoothScroll)
        ensures
            s@ == (0int, 0int),
    {
        SmoothScroll { x: 0, y: 0 }
    }
}

/// What smooth scrolling by (px, py) makes of the pixels left over: the notches, if there
/// are any, and the pixels left over then.
pub open spec fn scrolled(left: (int, int), px: int, py: int) -> (Option<(int, int)>, (int, int)) {
    let (x, y) = (left.0 + px, left.1 + py);
    let (nx, ny) = (whole_tens(x), whole_tens(y));
    (
        if nx == 0 && ny == 0 {
            None
        } else {
            Some((narrow(nx), narrow(ny)))
        },
        (x - 10 * nx, y - 10 * ny),
    )
}

/// Accumulate smooth-scroll pixels into whole wheel notches the far side understands.
///
/// Ten pixels to a notch. The remainder carries across events, so slow, fine scrolling
/// still adds up instead of being rounded away.
pub fn notches_from_pixels(left: &mut SmoothScroll, px: i64, py: i64) -> (r: Option<Observed>)
    ensures
        ({
            let (notches, after) = scrolled(old(left)@, px as int, py as int);
            &&& final(left)@ == after
            &&& match notches {
                Some((nx, ny)) => r == Some(Observed::Scroll { dx: nx as i32, dy: ny as i32 }),
                None => r is None,
            }
        }),
{
    proof {
        use_type_invariant(&*left);
    }
    let total_y: i128 = left.y as i128 + py as i128;
    let total_x: i128 = left.x as i128 + px as i128;
    let notches_y: i128 = total_y / 10;
    let notches_x: i128 = total_x / 10;
    *left = SmoothScroll {
        x: (total_x - notches_x * 10) as i64,
        y: (total_y - notches_y * 10) as i64,
    };
    if notches_y == 0 && notches_x == 0 {
        return None;
    }
    Some(Observed::Scroll { dx: to_i32(notches_x), dy: to_i32(notches_y) })
}

fn to_i32(v: i128) -> (r: i32)
    ensures
        r == narrow(v as int),
{
    if v < i32::MIN as i128 || v > i32::MAX as i128 {
        0
    } else {
        v as i32
    }
}

/// Slow scrolling is never rounded away: what went in is what came out in notches of ten
/// pixels plus what is left over, and less than a notch is left over.
pub proof fn no_scrolling_is_lost(left: (int, int), px: int, py: int)
    requires
        -10 < left.0 < 10,
        -10 < left.1 < 10,
        -0x4_0000_0000 <= px <= 0x4_0000_0000,
        -0x4_0000_0000 <= py <= 0x4_0000_0000,
    ensures
        ({
            let (notches, after) = scrolled(left, px, py);
            let (nx, ny) = match notches {
                Some(n) => n,
                None => (0int, 0int),
            };
            &&& left.0 + px == 10 * nx + after.0
            &&& left.1 + py == 10 * ny + after.1
            &&& -10 < after.0 < 10
            &&& -10 < after.1 < 10
        }),
{
}

// ---------------------------------------------------------------- media keys
/// The Consumer-page usage of a media key, if it is one.
pub open spec fn media_usage(key: int) -> Option<u16> {
    if key == 0 {
        Some(0xE9)  // volume up
    } else if key == 1 {
        Some(0xEA)  // volume down
    } else if key == 7 {
        Some(0xE2)  // mute
    } else if key == 16 {
        Some(0xCD)  // play and pause
    } else if key == 17 || key == 19 {
        Some(0xB5)  // next, fast
    } else if key == 18 || key == 20 {
        Some(0xB6)  // previous, rewind
    } else if key == 2 {
        Some(0x6F)  // brightness up
    } else if key == 3 {
        Some(0x70)  // brightness down
    } else {
        None
    }
}

/// The key code in a media payload: its bits 16 to 31.
pub open spec fn media_code(data1: int) -> int {
    data1 / 0x1_0000 % 0x1_0000
}

/// Whether a media payload says that the key went down: its bits 8 to 15 hold 10.
pub open spec fn media_down(data1: int) -> bool {
    data1 / 0x100 % 0x100 == 0x0A
}

/// Where the bits of a media payload lie, as numbers.
proof fn media_bits(data1: i64)
    ensures
        (data1 >> 16) & 0xFFFF == media_code(data1 as int),
        (((data1 >> 8) & 0xFF) == 0x0A) == media_down(data1 as int),
{
    let high = data1 >> 16;
    let low = data1 >> 8;
    assert(0 <= (high & 0xFFFF) && (high & 0xFFFF) <= 0xFFFF && (high - (high & 0xFFFF)) % 0x1_0000
        == 0) by (bit_vector);
    assert((data1 >> 16) * 0x1_0000 <= data1 && data1 < (data1 >> 16) * 0x1_0000 + 0x1_0000)
        by (bit_vector);
    field_of(data1 as int, high as int, (high & 0xFFFF) as int, 0x1_0000);
    assert(0 <= (low & 0xFF) && (low & 0xFF) <= 0xFF && (low - (low & 0xFF)) % 0x100 == 0)
        by (bit_vector);
    assert((data1 >> 8) * 0x100 <= data1 && data1 < (data1 >> 8) * 0x100 + 0x100) by (bit_vector);
    field_of(data1 as int, low as int, (low & 0xFF) as int, 0x100);
}

/// The bits of a number above a power of two, and the ones cut off above them again.
proof fn field_of(v: int, above: int, field: int, unit: int)
    requires
        unit > 0,
        above * unit <= v < above * unit + unit,
        (above - field) % unit == 0,
        0 <= field < unit,
    ensures
        v / unit % unit == field,
{
    lemma_fundamental_div_mod_converse(v, unit, above, v - above * unit);
    let cut = (above - field) / unit;
    lemma_fundamental_div_mod(above - field, unit);
    assert(unit * cut == cut * unit) by (nonlinear_arith);
    lemma_fundamental_div_mod_converse(above, unit, cut, field);
}

/// Decode a media key, if that is what the payload holds. Anything else passes through
/// untouched: swallowing unknown system events is how a machine quietly breaks.
pub fn decode_media_key(data1: i64) -> (r: Option<Observed>)
    ensures
        match media_usage(media_code(data1 as int)) {
            Some(usage) => r matches Some(Observed::Key { text, physical, modifiers, down })
                && text@ == Seq::<char>::empty() && physical.0 == usage | 0x8000 && modifiers
                == Modifiers::none() && down == media_down(data1 as int),
            None => r is None,
        },
{
    proof {
        media_bits(data1);
    }
    let key: i64 = (data1 >> 16) & 0xFFFF;
    let down = ((data1 >> 8) & 0xFF) == 0x0A;
    let usage: u16 = match key {
        0 => 0xE9,
        1 => 0xEA,
        7 => 0xE2,
        16 => 0xCD,
        17 | 19 => 0xB5,
        18 | 20 => 0xB6,
        2 => 0x6F,
        3 => 0x70,
        _ => {
            return None;
        },
    };
    Some(
        Observed::Key {
            text: LogicalText::none(),
            physical: PhysicalKey::consumer(usage),
            modifiers: Modifiers::none(),
            down,
        },
    )
}

// ---------------------------------------------------------------- classification
/// A keycode as the tables take it: one out of range counts as 0.
pub open spec fn keycode_of(v: i64) -> u16 {
    if 0 <= v <= 0xFFFF {
        v as u16
    } else {
        0
    }
}

/// The text that a key typed: none where it does not fit the protocol's capacity.
pub open spec fn typed_text(units: Seq<u16>) -> Seq<char> {
    let s = printable(utf16_text(units));
    if encode_utf8(s).len() <= 15 {
        s
    } else {
        Seq::empty()
    }
}

/// What an observed event says, with its text as characters.
pub enum ObservedModel {
    Motion { x: int, y: int, dx: int, dy: int },
    Button { button: int, down: bool },
    Scroll { dx: int, dy: int },
    Key { text: Seq<char>, physical: PhysicalKey, modifiers: Modifiers, down: bool },
}

impl View for Observed {
    type V = ObservedModel;

    open spec fn view(&self) -> ObservedModel {
        match *self {
            Observed::Motion { x, y, dx, dy } => ObservedModel::Motion {
                x: x as int,
                y: y as int,
                dx: dx as int,
                dy: dy as int,
            },
            Observed::Button { button, down } => ObservedModel::Button {
                button: button as int,
                down,
            },
            Observed::Scroll { dx, dy } => ObservedModel::Scroll { dx: dx as int, dy: dy as int },
            Observed::Key { text, physical, modifiers, down } => ObservedModel::Key {
                text: text@,
                physical,
                modifiers,
                down,
            },
        }
    }
}

/// Movement prefers the cursor's own distance, so the pointer moves at the same speed on
/// every machine; where the cursor is pinned against an edge it falls back to the device's.
pub open spec fn movement(e: RawEvent) -> (int, int) {
    if e.moved_x != 0 || e.moved_y != 0 {
        (narrow(e.moved_x as int), narrow(e.moved_y as int))
    } else {
        (narrow(e.device_x as int), narrow(e.device_y as int))
    }
}

/// What a captured event means, and the smooth-scroll pixels left over afterwards.
pub open spec fn meaning(e: RawEvent, left: (int, int)) -> (Option<ObservedModel>, (int, int)) {
    let k = e.kind;
    if k == MOUSE_MOVED || k == LEFT_MOUSE_DRAGGED || k == RIGHT_MOUSE_DRAGGED || k
        == OTHER_MOUSE_DRAGGED {
        let (dx, dy) = movement(e);
        (Some(ObservedModel::Motion { x: e.x as int, y: e.y as int, dx, dy }), left)
    } else if k == LEFT_MOUSE_DOWN || k == LEFT_MOUSE_UP {
        (Some(ObservedModel::Button { button: 1, down: k == LEFT_MOUSE_DOWN }), left)
    } else if k == RIGHT_MOUSE_DOWN || k == RIGHT_MOUSE_UP {
        (Some(ObservedModel::Button { button: 2, down: k == RIGHT_MOUSE_DOWN }), left)
    } else if k == OTHER_MOUSE_DOWN || k == OTHER_MOUSE_UP {
        (Some(ObservedModel::Button { button: 3, down: k == OTHER_MOUSE_DOWN }), left)
    } else if k == SCROLL_WHEEL {
        if e.wheel_x != 0 || e.wheel_y != 0 {
            (
                Some(
                    ObservedModel::Scroll {
                        dx: narrow(e.wheel_x as int),
                        dy: narrow(e.wheel_y as int),
                    },
                ),
                left,
            )
        } else if e.pixels_x == 0 && e.pixels_y == 0 {
            (None, left)
        } else {
            let (notches, after) = scrolled(left, e.pixels_x as int, e.pixels_y as int);
            (
                match notches {
                    Some((dx, dy)) => Some(ObservedModel::Scroll { dx, dy }),
                    None => None,
                },
                after,
            )
        }
    } else if k == KEY_DOWN || k == KEY_UP {
        let physical = PhysicalKey(hid_usage(keycode_of(e.keycode)));
        let text = typed_text(e.typed@);
        (
            // A key with neither text nor a known identity cannot be reproduced.
            if text.len() == 0 && physical.0 == 0 {
                None
            } else {
                Some(
                    ObservedModel::Key {
                        text,
                        physical,
                        modifiers: Modifiers(flag_modifiers(e.flags)),
                        down: k == KEY_DOWN,
                    },
                )
            },
            left,
        )
    } else if k == SYSTEM_DEFINED {
        (
            match e.media {
                Some(data1) => match media_usage(media_code(data1 as int)) {
                    Some(usage) => Some(
                        ObservedModel::Key {
                            text: Seq::empty(),
                            physical: PhysicalKey(usage | 0x8000),
                            modifiers: Modifiers(0),
                            down: media_down(data1 as int),
                        },
                    ),
                    None => None,
                },
                None => None,
            },
            left,
        )
    } else if k == FLAGS_CHANGED {
        let physical = PhysicalKey(modifier_usage(keycode_of(e.keycode)));
        let modifiers = Modifiers(flag_modifiers(e.flags));
        (
            match physical.spec_modifier_bit() {
                // A flag change carries no direction: the key is down when its own bit is
                // still set.
                Some(bit) => Some(
                    ObservedModel::Key {
                        text: Seq::empty(),
                        physical,
                        modifiers,
                        down: modifiers.has(bit),
                    },
                ),
                None => None,
            },
            left,
        )
    } else {
        (None, left)
    }
}

fn keycode(v: i64) -> (k: u16)
    ensures
        k == keycode_of(v),
{
    if 0 <= v && v <= 0xFFFF {
        v as u16
    } else {
        0
    }
}

fn classify_key(e: &RawEvent) -> (r: Option<Observed>)
    requires
        e.kind == KEY_DOWN || e.kind == KEY_UP,
    ensures
        match meaning(*e, (0, 0)).0 {
            Some(m) => r is Some && r->0@ == m,
            None => r is None,
        },
{
    let physical = hid_usage_for(keycode(e.keycode));
    let modifiers = modifiers_from(e.flags);
    let typed = decode_typed(e.typed.as_slice());
    let typed = text::string_of(typed.as_slice());
    let logical = match LogicalText::new(typed.as_str()) {
        Some(t) => t,
        None => LogicalText::none(),
    };
    if logical.is_empty() && physical.is_unknown() {
        return None;
    }
    Some(Observed::Key { text: logical, physical, modifiers, down: e.kind == KEY_DOWN })
}

fn classify_scroll(e: &RawEvent, left: &mut SmoothScroll) -> (r: Option<Observed>)
    requires
        e.kind == SCROLL_WHEEL,
    ensures
        match meaning(*e, old(left)@).0 {
            Some(m) => r is Some && r->0@ == m,
            None => r is None,
        },
        final(left)@ == meaning(*e, old(left)@).1,
{
    if e.wheel_x == 0 && e.wheel_y == 0 {
        // Zero wheel notches is not zero motion: smooth devices carry their movement in
        // pixels while the notch fields stay zero.
        if e.pixels_x == 0 && e.pixels_y == 0 {
            return None;
        }
        return notches_from_pixels(left, e.pixels_x, e.pixels_y);
    }
    Some(Observed::Scroll { dx: to_i32(e.wheel_x as i128), dy: to_i32(e.wheel_y as i128) })
}

fn classify_flags(e: &RawEvent) -> (r: Option<Observed>)
    requires
        e.kind == FLAGS_CHANGED,
    ensures
        match meaning(*e, (0, 0)).0 {
            Some(m) => r is Some && r->0@ == m,
            None => r is None,
        },
{
    let physical = modifier_usage_for(keycode(e.keycode));
    match physical.modifier_bit() {
        None => None,
        Some(bit) => {
            let modifiers = modifiers_from(e.flags);
            Some(
                Observed::Key {
                    text: LogicalText::none(),
                    physical,
                    modifiers,
                    down: modifiers.contains(bit),
                },
            )
        },
    }
}

/// Turn a captured event into something the protocol can carry.
pub fn classify(e: &RawEvent, left: &mut SmoothScroll) -> (r: Option<Observed>)
    ensures
        match meaning(*e, old(left)@).0 {
            Some(m) => r is Some && r->0@ == m,
            None => r is None,
        },
        final(left)@ == meaning(*e, old(left)@).1,
{
    let kind: u32 = e.kind;
    if kind == MOUSE_MOVED || kind == LEFT_MOUSE_DRAGGED || kind == RIGHT_MOUSE_DRAGGED || kind
        == OTHER_MOUSE_DRAGGED {
        let (dx, dy): (i64, i64) = if e.moved_x != 0 || e.moved_y != 0 {
            (e.moved_x, e.moved_y)
        } else {
            (e.device_x, e.device_y)
        };
        Some(Observed::Motion { x: e.x, y: e.y, dx: to_i32(dx as i128), dy: to_i32(dy as i128) })
    } else if kind == LEFT_MOUSE_DOWN || kind == LEFT_MOUSE_UP {
        Some(Observed::Button { button: 1, down: kind == LEFT_MOUSE_DOWN })
    } else if kind == RIGHT_MOUSE_DOWN || kind == RIGHT_MOUSE_UP {
        Some(Observed::Button { button: 2, down: kind == RIGHT_MOUSE_DOWN })
    } else if kind == OTHER_MOUSE_DOWN || kind == OTHER_MOUSE_UP {
        Some(Observed::Button { button: 3, down: kind == OTHER_MOUSE_DOWN })
    } else if kind == SCROLL_WHEEL {
        classify_scroll(e, left)
    } else if kind == KEY_DOWN || kind == KEY_UP {
        classify_key(e)
    } else if kind == SYSTEM_DEFINED {
        match e.media {
            Some(data1) => decode_media_key(data1),
            None => None,
        }
    } else if kind == FLAGS_CHANGED {
        classify_flags(e)
    } else {
        None
    }
}

// ---------------------------------------------------------------- the tap
/// What the tap does with an event.
#[derive(Clone, Copy, PartialEq, Eq, Debug)]
pub struct TapVerdict {
    /// Re-enable the tap: the system switched it off.
    pub rearm: bool,
    /// What to pass on to whoever forwards input.
    pub forward: Option<Observed>,
    /// Keep the event from this machine.
    pub withhold: bool,
}

/// What the tap does with an event of `kind` that means `observed`.
pub open spec fn verdict(kind: u32, observed: Option<Observed>, suppressing: bool) -> TapVerdict {
    if kind == TAP_DISABLED_BY_TIMEOUT || kind == TAP_DISABLED_BY_USER_INPUT {
        TapVerdict { rearm: true, forward: None, withhold: false }
    } else {
        TapVerdict {
            rearm: false,
            forward: observed,
            withhold: suppressing && (observed is Some || kind == SCROLL_WHEEL),
        }
    }
}

/// Decide what the tap does with an event of `kind` that means `observed`.
///
/// A notice that the tap was disabled comes first and always re-arms it. An event is
/// withheld only while a peer owns the pointer. Declining to forward a scroll must not let
/// it land here, so scrolls are withheld then whether or not they travel; anything else
/// that means nothing passes through.
pub fn tap_verdict(kind: u32, observed: Option<Observed>, suppressing: bool) -> (v: TapVerdict)
    ensures
        v == verdict(kind, observed, suppressing),
{
    if kind == TAP_DISABLED_BY_TIMEOUT || kind == TAP_DISABLED_BY_USER_INPUT {
        return TapVerdict { rearm: true, forward: None, withhold: false };
    }
    let withhold = suppressing && (observed.is_some() || kind == SCROLL_WHEEL);
    TapVerdict { rearm: false, forward: observed, withhold }
}

/// What the system lets this process do.
#[derive(Clone, Copy, PartialEq, Eq, Debug, Structural)]
pub struct Permissions {
    /// Required to observe input.
    pub can_listen: bool,
    /// Required to inject input, and to withhold it from this machine.
    pub can_post: bool,
}

impl Permissions {
    #[must_use]
    pub fn all_granted(self) -> (b: bool)
        ensures
            b == (self.can_listen && self.can_post),
    {
        self.can_listen && self.can_post
    }
}

// ---------------------------------------------------------------- what the tables say
/// The letter keys of a Mac are the letter keys of the protocol, in alphabetical order: the
/// key engraved C copies, and the one engraved V pastes, on the far side too.
pub proof fn letter_keys_are_the_letters()
    ensures
        hid_usage(0x00) == PhysicalKey::a().0 + 0,
        hid_usage(0x0B) == PhysicalKey::a().0 + 1,
        hid_usage(0x08) == PhysicalKey::a().0 + 2,
        hid_usage(0x02) == PhysicalKey::a().0 + 3,
        hid_usage(0x0E) == PhysicalKey::a().0 + 4,
        hid_usage(0x03) == PhysicalKey::a().0 + 5,
        hid_usage(0x05) == PhysicalKey::a().0 + 6,
        hid_usage(0x04) == PhysicalKey::a().0 + 7,
        hid_usage(0x22) == PhysicalKey::a().0 + 8,
        hid_usage(0x26) == PhysicalKey::a().0 + 9,
        hid_usage(0x28) == PhysicalKey::a().0 + 10,
        hid_usage(0x25) == PhysicalKey::a().0 + 11,
        hid_usage(0x2E) == PhysicalKey::a().0 + 12,
        hid_usage(0x2D) == PhysicalKey::a().0 + 13,
        hid_usage(0x1F) == PhysicalKey::a().0 + 14,
        hid_usage(0x23) == PhysicalKey::a().0 + 15,
        hid_usage(0x0C) == PhysicalKey::a().0 + 16,
        hid_usage(0x0F) == PhysicalKey::a().0 + 17,
        hid_usage(0x01) == PhysicalKey::a().0 + 18,
        hid_usage(0x11) == PhysicalKey::a().0 + 19,
        hid_usage(0x20) == PhysicalKey::a().0 + 20,
        hid_usage(0x09) == PhysicalKey::a().0 + 21,
        hid_usage(0x0D) == PhysicalKey::a().0 + 22,
        hid_usage(0x07) == PhysicalKey::a().0 + 23,
        hid_usage(0x10) == PhysicalKey::a().0 + 24,
        hid_usage(0x06) == PhysicalKey::a().0 + 25,
        hid_usage(0x00) == PhysicalKey::a().0,
        hid_usage(0x0B) == PhysicalKey::b().0,
        hid_usage(0x08) == PhysicalKey::c().0,
        hid_usage(0x09) == PhysicalKey::v().0,
        hid_usage(0x07) == PhysicalKey::x().0,
        hid_usage(0x10) == PhysicalKey::y().0,
        hid_usage(0x06) == PhysicalKey::z().0,
        PhysicalKey::a().0 == 4,
{
}

/// The keys that type nothing are the protocol's keys of the same name, the arrows each in
/// its own direction, and the function keys in turn.
pub proof fn other_keys_are_themselves()
    ensures
        hid_usage(0x33) == PhysicalKey::backspace().0,
        hid_usage(0x24) == PhysicalKey::enter().0,
        hid_usage(0x30) == PhysicalKey::tab().0,
        hid_usage(0x35) == PhysicalKey::escape().0,
        hid_usage(0x31) == PhysicalKey::space().0,
        hid_usage(0x7B) == PhysicalKey::left_arrow().0,
        hid_usage(0x7C) == PhysicalKey::right_arrow().0,
        hid_usage(0x7D) == PhysicalKey::down_arrow().0,
        hid_usage(0x7E) == PhysicalKey::up_arrow().0,
        hid_usage(0x73) == 0x4A,
        hid_usage(0x74) == 0x4B,
        hid_usage(0x75) == 0x4C,
        hid_usage(0x77) == 0x4D,
        hid_usage(0x79) == 0x4E,
        hid_usage(0x7A) == 0x3A + 0,
        hid_usage(0x78) == 0x3A + 1,
        hid_usage(0x63) == 0x3A + 2,
        hid_usage(0x76) == 0x3A + 3,
        hid_usage(0x60) == 0x3A + 4,
        hid_usage(0x61) == 0x3A + 5,
        hid_usage(0x62) == 0x3A + 6,
        hid_usage(0x64) == 0x3A + 7,
        hid_usage(0x65) == 0x3A + 8,
        hid_usage(0x6D) == 0x3A + 9,
        hid_usage(0x67) == 0x3A + 10,
        hid_usage(0x6F) == 0x3A + 11,
{
}

/// No two keys of a Mac are taken for one, and a key that is not in the table for none.
pub proof fn keycodes_are_never_confused(a: u16, b: u16)
    requires
        hid_usage(a) == hid_usage(b),
        hid_usage(a) != 0,
    ensures
        a == b,
{
}

/// The modifier keys of a Mac are the protocol's modifiers, left for left and right for right:
/// Command is Gui, Option is Alt.
pub proof fn modifier_keys_are_themselves(keycode: u16)
    ensures
        modifier_usage(0x37) == PhysicalKey::left_gui().0,
        modifier_usage(0x36) == PhysicalKey::right_gui().0,
        modifier_usage(0x38) == PhysicalKey::left_shift().0,
        modifier_usage(0x3C) == PhysicalKey::right_shift().0,
        modifier_usage(0x3B) == PhysicalKey::left_ctrl().0,
        modifier_usage(0x3E) == PhysicalKey::right_ctrl().0,
        modifier_usage(0x3A) == PhysicalKey::left_alt().0,
        modifier_usage(0x3D) == PhysicalKey::right_alt().0,
        modifier_usage(keycode) != 0 ==> hid_usage(keycode) == 0 && 0x36 <= keycode <= 0x3E,
{
}

/// Each flag of an event is one modifier, told left from right, and no flag is another's.
pub proof fn flags_are_the_modifiers(flags: u64)
    by (bit_vector)
    ensures
        (flag_modifiers(flags) & 0x01 != 0) == (flags & 0x1 != 0),
        (flag_modifiers(flags) & 0x02 != 0) == (flags & 0x2 != 0),
        (flag_modifiers(flags) & 0x04 != 0) == (flags & 0x20 != 0),
        (flag_modifiers(flags) & 0x08 != 0) == (flags & 0x8 != 0),
        (flag_modifiers(flags) & 0x10 != 0) == (flags & 0x2000 != 0),
        (flag_modifiers(flags) & 0x20 != 0) == (flags & 0x4 != 0),
        (flag_modifiers(flags) & 0x40 != 0) == (flags & 0x40 != 0),
        (flag_modifiers(flags) & 0x80 != 0) == (flags & 0x10 != 0),
        (flag_modifiers(flags) & 0x100 != 0) == (flags & 0x10000 != 0),
        flag_modifiers(flags) < 0x200,
{
}

/// The media keys are the consumer keys of the same name.
pub proof fn media_keys_are_themselves(key: int)
    ensures
        media_usage(0) == Some(0xE9u16),
        media_usage(1) == Some(0xEAu16),
        media_usage(7) == Some(0xE2u16),
        media_usage(16) == Some(0xCDu16),
        media_usage(17) == Some(0xB5u16),
        media_usage(18) == Some(0xB6u16),
        media_usage(19) == media_usage(17),
        media_usage(20) == media_usage(18),
        media_usage(2) == Some(0x6Fu16),
        media_usage(3) == Some(0x70u16),
        !(0 <= key <= 3 || key == 7 || 16 <= key <= 20) ==> media_usage(key) is None,
{
}

/// The pointer's movement is captured as it happened: where the cursor is by its two
/// coordinates, and how far it went each way, the way the cursor itself went if it went
/// anywhere and the way the device went if it did not.
pub proof fn movement_is_captured_as_it_happened(e: RawEvent, left: (int, int))
    requires
        e.kind == 5 || e.kind == 6 || e.kind == 7 || e.kind == 27,
        i32::MIN <= e.moved_x <= i32::MAX,
        i32::MIN <= e.moved_y <= i32::MAX,
        i32::MIN <= e.device_x <= i32::MAX,
        i32::MIN <= e.device_y <= i32::MAX,
    ensures
        meaning(e, left).0 matches Some(ObservedModel::Motion { x, y, dx, dy }) && {
            &&& x == e.x
            &&& y == e.y
            &&& e.moved_x != 0 || e.moved_y != 0 ==> dx == e.moved_x && dy == e.moved_y
            &&& e.moved_x == 0 && e.moved_y == 0 ==> dx == e.device_x && dy == e.device_y
        },
        meaning(e, left).1 == left,
{
}

/// A click is captured as the protocol's button of the same name, down when it went down and
/// up when it went up.
pub proof fn clicks_are_captured_as_their_button(e: RawEvent, left: (int, int))
    ensures
        1 <= e.kind <= 4 || e.kind == 25 || e.kind == 26 ==> (meaning(e, left).0 matches Some(
            ObservedModel::Button { button, down },
        ) && button == (if e.kind <= 2 {
            Button::Left.code()
        } else if e.kind <= 4 {
            Button::Right.code()
        } else {
            Button::Middle.code()
        }) && down == (e.kind == 1 || e.kind == 3 || e.kind == 25)),
        Button::Left.code() == 1,
        Button::Right.code() == 2,
        Button::Middle.code() == 3,
{
}

/// Wheel notches travel as they are, sideways as sideways and up as up.
pub proof fn notches_travel_as_they_are(e: RawEvent, left: (int, int))
    requires
        e.kind == 22,
        e.wheel_x != 0 || e.wheel_y != 0,
        i32::MIN <= e.wheel_x <= i32::MAX,
        i32::MIN <= e.wheel_y <= i32::MAX,
    ensures
        meaning(e, left).0 matches Some(ObservedModel::Scroll { dx, dy }) && dx == e.wheel_x && dy
            == e.wheel_y,
        meaning(e, left).1 == left,
{
}

/// Smooth scrolling goes the way it was scrolled, and sideways and upward scrolling never mix:
/// ten pixels make a notch in their own direction.
pub proof fn smooth_scrolling_keeps_its_direction(e: RawEvent, notches_x: int, notches_y: int)
    requires
        e.kind == 22,
        e.wheel_x == 0,
        e.wheel_y == 0,
        e.pixels_x == 10 * notches_x,
        e.pixels_y == 10 * notches_y,
        i32::MIN <= notches_x <= i32::MAX,
        i32::MIN <= notches_y <= i32::MAX,
        notches_x != 0 || notches_y != 0,
    ensures
        meaning(e, (0, 0)).0 matches Some(ObservedModel::Scroll { dx, dy }) && dx == notches_x && dy
            == notches_y,
        meaning(e, (0, 0)).1 == (0int, 0int),
{
}

/// A key press carries both identities of the key and what was held: the text the layout
/// typed, the key of that keycode, the modifiers of those flags, and whether it went down.
pub proof fn a_key_carries_its_text_and_its_place(e: RawEvent, left: (int, int))
    requires
        e.kind == 10 || e.kind == 11,
        0 <= e.keycode <= 0xFFFF,
    ensures
        ({
            let text = printable(utf16_text(e.typed@));
            match meaning(e, left).0 {
                Some(ObservedModel::Key { text: t, physical, modifiers, down }) => {
                    &&& physical.0 == hid_usage(e.keycode as u16)
                    &&& encode_utf8(text).len() <= 15 ==> t == text
                    &&& modifiers.0 == flag_modifiers(e.flags)
                    &&& down == (e.kind == 10)
                    &&& physical.0 != 0 || t.len() > 0
                },
                Some(_) => false,
                None => hid_usage(e.keycode as u16) == 0 && (text.len() == 0 || encode_utf8(
                    text,
                ).len() > 15),
            }
        }),
{
}

/// What a layout typed is kept but for control characters, which a command types: text that
/// holds none is kept whole, and what is kept holds none.
pub proof fn only_control_characters_are_left_out(s: Seq<char>)
    ensures
        forall|i: int| 0 <= i < printable(s).len() ==> !is_control(#[trigger] printable(s)[i]),
        forall|i: int|
            0 <= i < s.len() && !is_control(#[trigger] s[i]) ==> printable(s).contains(s[i]),
        (forall|i: int| 0 <= i < s.len() ==> !is_control(#[trigger] s[i])) ==> printable(s) == s,
        is_control('\n') && is_control('\u{1b}') && is_control('\u{7f}'),
        !is_control(' ') && !is_control('~') && !is_control('\u{a0}'),
    decreases s.len(),
{
    if s.len() > 0 {
        let front = s.drop_last();
        only_control_characters_are_left_out(front);
        let (p, q) = (printable(s), printable(front));
        assert forall|i: int| 0 <= i < p.len() implies !is_control(#[trigger] p[i]) by {
            if i < q.len() {
                assert(p[i] == q[i]);
            }
        }
        assert forall|i: int| 0 <= i < s.len() && !is_control(#[trigger] s[i]) implies p.contains(
            s[i],
        ) by {
            if i < front.len() {
                assert(front[i] == s[i]);
                let k = choose|k: int| 0 <= k < q.len() && q[k] == s[i];
                assert(p[k] == s[i]);
            } else {
                assert(p[p.len() - 1] == s[i]);
            }
        }
        if forall|i: int| 0 <= i < s.len() ==> !is_control(#[trigger] s[i]) {
            assert forall|i: int| 0 <= i < front.len() implies !is_control(#[trigger] front[i]) by {
                assert(front[i] == s[i]);
            }
            assert(!is_control(s[s.len() - 1]));
            assert(p =~= s);
        }
    }
}

/// A modifier key is down while its own flag is set: left Shift by its flag, and so each.
pub proof fn a_modifier_is_down_while_its_flag_is_set(e: RawEvent, left: (int, int))
    requires
        e.kind == 12,
    ensures
        meaning(e, left).0 matches Some(ObservedModel::Key { text, physical, modifiers, down }) ==> {
            &&& text.len() == 0
            &&& physical.0 == modifier_usage(e.keycode as u16)
            &&& modifiers.0 == flag_modifiers(e.flags)
        },
        e.keycode == 0x38 ==> (meaning(e, left).0 matches Some(ObservedModel::Key { down, .. })
            && down == (e.flags & 0x2 != 0)),
        e.keycode == 0x3C ==> (meaning(e, left).0 matches Some(ObservedModel::Key { down, .. })
            && down == (e.flags & 0x4 != 0)),
        e.keycode == 0x3B ==> (meaning(e, left).0 matches Some(ObservedModel::Key { down, .. })
            && down == (e.flags & 0x1 != 0)),
        e.keycode == 0x3E ==> (meaning(e, left).0 matches Some(ObservedModel::Key { down, .. })
            && down == (e.flags & 0x2000 != 0)),
        e.keycode == 0x3A ==> (meaning(e, left).0 matches Some(ObservedModel::Key { down, .. })
            && down == (e.flags & 0x20 != 0)),
        e.keycode == 0x3D ==> (meaning(e, left).0 matches Some(ObservedModel::Key { down, .. })
            && down == (e.flags & 0x40 != 0)),
        e.keycode == 0x37 ==> (meaning(e, left).0 matches Some(ObservedModel::Key { down, .. })
            && down == (e.flags & 0x8 != 0)),
        e.keycode == 0x36 ==> (meaning(e, left).0 matches Some(ObservedModel::Key { down, .. })
            && down == (e.flags & 0x10 != 0)),
{
    flags_are_the_modifiers(e.flags);
    crate::keys::a_modifier_key_holds_its_own_modifier(PhysicalKey::a());
}

/// An event is kept from this machine only while a peer owns the pointer, and then every event
/// that travels is; what travels is what was observed. A tap that the system switched off is
/// switched on again, and holds nothing back meanwhile.
pub proof fn the_tap_withholds_only_what_travels(
    kind: u32,
    observed: Option<Observed>,
    suppressing: bool,
)
    ensures
        ({
            let v = verdict(kind, observed, suppressing);
            &&& !suppressing ==> !v.withhold
            &&& suppressing && v.forward is Some ==> v.withhold
            &&& suppressing && kind == 22 ==> v.withhold
            &&& kind < 0xFFFF_FFFE ==> v.forward == observed && !v.rearm
            &&& kind >= 0xFFFF_FFFE ==> v.rearm && !v.withhold && v.forward is None
            &&& observed is None && kind != 22 ==> !v.withhold
        }),
{
}

/// What is observed is told as it is, part by part.
pub proof fn what_is_observed_is_told_as_it_is(e: Observed)
    ensures
        match (e, e@) {
            (
                Observed::Motion { x, y, dx, dy },
                ObservedModel::Motion { x: mx, y: my, dx: mdx, dy: mdy },
            ) => mx == x && my == y && mdx == dx && mdy == dy,
            (Observed::Button { button, down }, ObservedModel::Button { button: b, down: d }) => b
                == button && d == down,
            (Observed::Scroll { dx, dy }, ObservedModel::Scroll { dx: mdx, dy: mdy }) => mdx == dx
                && mdy == dy,
            (
                Observed::Key { text, physical, modifiers, down },
                ObservedModel::Key { text: t, physical: p, modifiers: m, down: d },
            ) => t == text@ && p == physical && m == modifiers && d == down,
            _ => false,
        },
{
}

/// What is not among the letters, the named keys, the function keys and the arrows is taken
/// for no key at all.
pub proof fn other_keycodes_are_no_keys(keycode: u16)
    ensures
        hid_usage(keycode) == 0 || 0x04 <= hid_usage(keycode) <= 0x1D || 0x28 <= hid_usage(keycode)
            <= 0x2C || 0x3A <= hid_usage(keycode) <= 0x45 || 0x4A <= hid_usage(keycode) <= 0x52,
        keycode >= 0x7F ==> hid_usage(keycode) == 0,
{
}

/// Smooth scrolling loses nothing: the notches, ten pixels each, and the pixels left over make
/// up what was left over before and what was scrolled. What is left over is less than a notch,
/// and goes the way of the whole.
pub proof fn no_pixel_is_lost(left: (int, int), px: int, py: int)
    requires
        -0x1_0000_0000 < left.0 + px < 0x1_0000_0000,
        -0x1_0000_0000 < left.1 + py < 0x1_0000_0000,
    ensures
        ({
            let (notches, after) = scrolled(left, px, py);
            let (nx, ny) = match notches {
                Some(n) => n,
                None => (0, 0),
            };
            &&& 10 * nx + after.0 == left.0 + px
            &&& 10 * ny + after.1 == left.1 + py
            &&& -10 < after.0 < 10 && -10 < after.1 < 10
            &&& left.0 + px >= 0 ==> after.0 >= 0 && nx >= 0
            &&& left.0 + px <= 0 ==> after.0 <= 0 && nx <= 0
            &&& left.1 + py >= 0 ==> after.1 >= 0 && ny >= 0
            &&& left.1 + py <= 0 ==> after.1 <= 0 && ny <= 0
            &&& notches is None <==> nx == 0 && ny == 0
        }),
{
}

/// A media payload carries the key in its upper half, and behind it in its next byte whether it
/// went down, which is told by ten.
pub proof fn a_media_payload_carries_key_and_direction(key: int, state: int, rest: int)
    requires
        0 <= key < 0x1_0000,
        0 <= state < 0x100,
        0 <= rest < 0x100,
    ensures
        media_code(key * 0x1_0000 + state * 0x100 + rest) == key,
        media_down(key * 0x1_0000 + state * 0x100 + rest) == (state == 10),
{
    let data = key * 0x1_0000 + state * 0x100 + rest;
    assert(data / 0x1_0000 == key);
    assert(data / 0x100 == key * 0x100 + state);
    assert((key * 0x100 + state) % 0x100 == state);
}

/// The tap asks for the kinds of event that mean something, and for no other.
pub proof fn what_is_watched_is_what_means_something(e: RawEvent, left: (int, int))
    ensures
        meaning(e, left).0 is Some ==> watched(e.kind),
        watched(e.kind) ==> 1 <= e.kind <= 7 || e.kind == 10 || e.kind == 11 || e.kind == 12 || e.kind
            == 14 || e.kind == 22 || e.kind == 25 || e.kind == 26 || e.kind == 27,
        1 <= e.kind <= 7 || e.kind == 10 || e.kind == 11 || e.kind == 12 || e.kind == 14 || e.kind
            == 22 || e.kind == 25 || e.kind == 26 || e.kind == 27 ==> watched(e.kind),
{
}

} // verus!
