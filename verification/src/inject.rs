//! Reproducing input on the machine it was meant for.
//!
//! The rule that governs all of it: fail open. Not forwarding a keystroke is a bug; leaving
//! someone unable to use their computer is damage.
use crate::capture::Permissions;
use crate::event::Button;
use crate::keys::PhysicalKey;
use crate::screen::PixelRect;
use crate::{capture, text};
use vstd::prelude::*;
use vstd::string::*;

verus! {

/// An error of the machine's input system.
#[derive(Debug)]
#[non_exhaustive]
pub enum Error {
    /// The operating system refused.
    Platform(String),
    /// A permission is missing, and this is where to grant it.
    PermissionDenied { what: String, where_to: String },
    /// This machine cannot do it.
    Unsupported(&'static str),
}

impl Error {
    /// What a person is told.
    pub open spec fn message(self) -> Seq<char> {
        match self {
            Error::Platform(why) => "the operating system refused an input operation: "@ + why@,
            Error::PermissionDenied { what, where_to } => "seam needs permission to "@ + what@
                + " on this machine. Grant it in "@ + where_to@
                + ", then restart seam — the permission does not apply to an already-running program."@,
            Error::Unsupported(what) => "input "@ + what@
                + " is not implemented on this platform yet"@,
        }
    }

    /// What a person is told.
    pub fn describe(&self) -> (s: String)
        ensures
            s@ == self.message(),
    {
        match self {
            Error::Platform(why) => text::plus(
                String::from_str("the operating system refused an input operation: "),
                why.as_str(),
            ),
            Error::PermissionDenied { what, where_to } => {
                let mut s = String::from_str("seam needs permission to ");
                s.append(what.as_str());
                s.append(" on this machine. Grant it in ");
                s.append(where_to.as_str());
                s.append(
                    ", then restart seam — the permission does not apply to an already-running program.",
                );
                s
            },
            Error::Unsupported(what) => {
                let mut s = String::from_str("input ");
                s.append(what);
                s.append(" is not implemented on this platform yet");
                s
            },
        }
    }
}

// ---------------------------------------------------------------- permission to capture
/// Whether input can be captured and withheld under these permissions.
///
/// With the permission to watch alone, the system lets input be seen but silently does not
/// let it be withheld: the pointer would move on two screens at once. Refusing turns that
/// into one sentence.
pub fn may_capture(permissions: Permissions) -> (r: Result<(), Error>)
    ensures
        r is Ok <==> permissions.can_listen && permissions.can_post,
        !permissions.can_listen ==> (r matches Err(Error::PermissionDenied { what, where_to })
            && what@ == "watch the mouse and keyboard"@ && where_to@
            == "System Settings > Privacy & Security > Input Monitoring"@),
        permissions.can_listen && !permissions.can_post ==> (r matches Err(
            Error::PermissionDenied { what, where_to },
        ) && what@
            == "withhold input from this machine while another machine has the pointer. Without this, seam can still see and forward input, but this machine keeps acting on it too — the pointer appears on both screens at once"@
            && where_to@ == "System Settings > Privacy & Security > Accessibility"@),
{
    if !permissions.can_listen {
        return Err(
            Error::PermissionDenied {
                what: String::from_str("watch the mouse and keyboard"),
                where_to: String::from_str(
                    "System Settings > Privacy & Security > Input Monitoring",
                ),
            },
        );
    }
    if !permissions.can_post {
        return Err(
            Error::PermissionDenied {
                what: String::from_str(
                    "withhold input from this machine while another machine has the pointer. Without this, seam can still see and forward input, but this machine keeps acting on it too — the pointer appears on both screens at once",
                ),
                where_to: String::from_str("System Settings > Privacy & Security > Accessibility"),
            },
        );
    }
    Ok(())
}

/// One permission, as it is reported.
#[derive(PartialEq, Eq, Debug)]
pub struct Grant {
    pub what: &'static str,
    pub granted: bool,
    pub where_to: &'static str,
}

/// What this machine will let seam do. Nothing where permissions are not a concept.
#[must_use]
pub fn permission_report(permissions: Option<Permissions>) -> (r: Option<Vec<Grant>>)
    ensures
        match permissions {
            None => r is None,
            Some(p) => {
                &&& r is Some
                &&& r->0@.len() == 2
                &&& r->0@[0].what@ == "capture input"@
                &&& r->0@[0].granted == p.can_listen
                &&& r->0@[0].where_to@ == "System Settings > Privacy & Security > Input Monitoring"@
                &&& r->0@[1].what@ == "inject input"@
                &&& r->0@[1].granted == p.can_post
                &&& r->0@[1].where_to@ == "System Settings > Privacy & Security > Accessibility"@
            },
        },
{
    match permissions {
        None => None,
        Some(p) => {
            let mut report: Vec<Grant> = Vec::new();
            report.push(
                Grant {
                    what: "capture input",
                    granted: p.can_listen,
                    where_to: "System Settings > Privacy & Security > Input Monitoring",
                },
            );
            report.push(
                Grant {
                    what: "inject input",
                    granted: p.can_post,
                    where_to: "System Settings > Privacy & Security > Accessibility",
                },
            );
            Some(report)
        },
    }
}

// ---------------------------------------------------------------- the pointer
/// Where a pixel lies on a scale from 0 to 65535 across an extent, its last pixel being the
/// end of the scale.
pub open spec fn on_scale(v: int, start: int, extent: int) -> int {
    let span = if extent > 1 {
        extent - 1
    } else {
        1
    };
    if v <= start {
        0
    } else if (v - start) * 65535 / span > 65535 {
        65535
    } else {
        (v - start) * 65535 / span
    }
}

fn scaled(v: i32, start: i32, extent: i32) -> (n: i32)
    requires
        i32::MIN <= v - start <= i32::MAX,
    ensures
        n == on_scale(v as int, start as int, extent as int),
{
    let d: i64 = v as i64 - start as i64;
    if d <= 0 {
        return 0;
    }
    let span: i64 = if extent > 1 {
        extent as i64 - 1
    } else {
        1
    };
    let n: i64 = d * 65535 / span;
    proof {
        assert(0 <= d * 65535 / (span as int)) by (nonlinear_arith)
            requires
                d > 0,
                span > 0,
        ;
    }
    if n > 65535 {
        65535
    } else {
        n as i32
    }
}

/// Where a pixel of a desktop lies on the two scales across it.
pub open spec fn normalised(x: int, y: int, desktop: PixelRect) -> (int, int) {
    (
        on_scale(x, desktop.x as int, desktop.width as int),
        on_scale(y, desktop.y as int, desktop.height as int),
    )
}

/// Where to inject the pointer, normalised across the whole virtual desktop and not only
/// the primary screen.
///
/// Going through the input system makes applications see genuine movement.
pub fn inject_motion(x: i32, y: i32, desktop: PixelRect) -> (r: Result<(i32, i32), Error>)
    requires
        i32::MIN <= x - desktop.x <= i32::MAX,
        i32::MIN <= y - desktop.y <= i32::MAX,
    ensures
        if desktop.void() {
            r matches Err(Error::Platform(why)) && why@ == "the virtual desktop has no size"@
        } else {
            r matches Ok((nx, ny)) && (nx as int, ny as int) == normalised(
                x as int,
                y as int,
                desktop,
            )
        },
{
    if desktop.is_empty() {
        return Err(Error::Platform(String::from_str("the virtual desktop has no size")));
    }
    Ok((scaled(x, desktop.x, desktop.width), scaled(y, desktop.y, desktop.height)))
}

/// The whole desktop can be reached: its first pixel is the start of the scale, its last
/// one the end, and no pixel lies off it.
pub proof fn every_corner_can_be_reached(v: int, start: int, extent: int)
    requires
        extent > 1,
    ensures
        on_scale(start, start, extent) == 0,
        on_scale(start + extent - 1, start, extent) == 65535,
        0 <= on_scale(v, start, extent) <= 65535,
{
    let span = extent - 1;
    assert(span * 65535 / span == 65535) by (nonlinear_arith)
        requires
            span > 0,
    ;
    if v > start {
        assert(0 <= (v - start) * 65535 / span) by (nonlinear_arith)
            requires
                v - start > 0,
                span > 0,
        ;
    }
}

/// How far apart two coordinates are.
pub open spec fn apart(a: int, b: int) -> int {
    if a >= b {
        a - b
    } else {
        b - a
    }
}

/// Whether a pointer that was put at one place is there, as nearly as the system puts it.
pub open spec fn landed(put: (int, int), at: (int, int)) -> bool {
    apart(at.0, put.0) <= 2 && apart(at.1, put.1) <= 2
}

/// Whether the pointer is where it was put. The system rounds and clamps, so two pixels of
/// difference are no failure; more means that a window of higher privilege discarded the
/// input, which the system reports as a success.
pub fn motion_landed(x: i32, y: i32, at: (i32, i32)) -> (r: Result<(), Error>)
    ensures
        r is Ok <==> landed((x as int, y as int), (at.0 as int, at.1 as int)),
        r is Err ==> (r matches Err(Error::PermissionDenied { what, where_to }) && what@
            == "move the pointer"@ && where_to@
            == "a window running as administrator currently has focus. Windows blocks input from a lower-privilege program (UIPI) and reports no error. Run seam as administrator, or click a non-elevated window"@),
{
    let dx: i64 = at.0 as i64 - x as i64;
    let dy: i64 = at.1 as i64 - y as i64;
    if -2 <= dx && dx <= 2 && -2 <= dy && dy <= 2 {
        return Ok(());
    }
    Err(
        Error::PermissionDenied {
            what: String::from_str("move the pointer"),
            where_to: String::from_str(
                "a window running as administrator currently has focus. Windows blocks input from a lower-privilege program (UIPI) and reports no error. Run seam as administrator, or click a non-elevated window",
            ),
        },
    )
}

// ---------------------------------------------------------------- buttons and wheels
/// A button of the mouse going one way.
#[derive(Clone, Copy, PartialEq, Eq, Structural, Debug)]
pub enum Stroke {
    LeftDown,
    LeftUp,
    RightDown,
    RightUp,
    MiddleDown,
    MiddleUp,
}

/// What a numbered button going one way is.
pub open spec fn stroke(button: u8, down: bool) -> Option<Stroke> {
    if button == 1 {
        Some(
            if down {
                Stroke::LeftDown
            } else {
                Stroke::LeftUp
            },
        )
    } else if button == 2 {
        Some(
            if down {
                Stroke::RightDown
            } else {
                Stroke::RightUp
            },
        )
    } else if button == 3 {
        Some(
            if down {
                Stroke::MiddleDown
            } else {
                Stroke::MiddleUp
            },
        )
    } else {
        None
    }
}

/// How to press or release a mouse button, numbered as the protocol numbers them.
pub fn inject_button(button: u8, down: bool) -> (r: Result<Stroke, Error>)
    ensures
        match stroke(button, down) {
            Some(s) => r == Ok::<Stroke, Error>(s),
            None => r matches Err(Error::Unsupported(what)) && what@ == "that mouse button"@,
        },
{
    if button == 1 {
        Ok(
            if down {
                Stroke::LeftDown
            } else {
                Stroke::LeftUp
            },
        )
    } else if button == 2 {
        Ok(
            if down {
                Stroke::RightDown
            } else {
                Stroke::RightUp
            },
        )
    } else if button == 3 {
        Ok(
            if down {
                Stroke::MiddleDown
            } else {
                Stroke::MiddleUp
            },
        )
    } else {
        Err(Error::Unsupported("that mouse button"))
    }
}

/// One notch of wheel movement.
pub const WHEEL_DELTA: i32 = 120;

/// A turn of one of the wheels.
#[derive(Clone, Copy, PartialEq, Eq, Structural, Debug)]
pub struct Wheel {
    pub horizontal: bool,
    pub amount: i32,
}

/// So many notches, as far as the machine can count.
pub open spec fn notches(n: int) -> int {
    if n * 120 > i32::MAX {
        i32::MAX as int
    } else if n * 120 < i32::MIN {
        i32::MIN as int
    } else {
        n * 120
    }
}

fn wheel_amount(n: i32) -> (a: i32)
    ensures
        a == notches(n as int),
{
    let wide: i64 = n as i64 * 120;
    if wide > i32::MAX as i64 {
        i32::MAX
    } else if wide < i32::MIN as i64 {
        i32::MIN
    } else {
        wide as i32
    }
}

/// The turns that a scroll takes: the upright wheel first, and none that does not turn.
pub open spec fn turns(dx: int, dy: int) -> Seq<Wheel> {
    (if dy != 0 {
        seq![Wheel { horizontal: false, amount: notches(dy) as i32 }]
    } else {
        Seq::empty()
    }) + (if dx != 0 {
        seq![Wheel { horizontal: true, amount: notches(dx) as i32 }]
    } else {
        Seq::empty()
    })
}

/// How to scroll. Positive `dy` is away from the user.
pub fn inject_scroll(dx: i32, dy: i32) -> (r: Vec<Wheel>)
    ensures
        r@ == turns(dx as int, dy as int),
{
    let mut r: Vec<Wheel> = Vec::new();
    if dy != 0 {
        r.push(Wheel { horizontal: false, amount: wheel_amount(dy) });
    }
    if dx != 0 {
        r.push(Wheel { horizontal: true, amount: wheel_amount(dx) });
    }
    proof {
        assert(r@ =~= turns(dx as int, dy as int));
    }
    r
}

// ---------------------------------------------------------------- text
/// The UTF-16 units of a character.
pub open spec fn units_of(c: char) -> Seq<u16> {
    let n = c as int;
    if n < 0x1_0000 {
        seq![n as u16]
    } else {
        seq![
            (0xD800 + (n - 0x1_0000) / 0x400) as u16,
            (0xDC00 + (n - 0x1_0000) % 0x400) as u16,
        ]
    }
}

/// What the units of a character are, in numbers.
proof fn units_in_numbers(c: char)
    ensures
        0 <= c as int <= 0x10_FFFF,
        !(0xD800 <= c as int <= 0xDFFF),
        (c as u32) as int == c as int,
        (c as int) as char == c,
        (c as int) < 0x1_0000 ==> units_of(c).len() == 1 && units_of(c)[0] == c as int,
        c as int >= 0x1_0000 ==> units_of(c).len() == 2 && units_of(c)[0] == 0xD800 + (c as int
            - 0x1_0000) / 0x400 && units_of(c)[1] == 0xDC00 + (c as int - 0x1_0000) % 0x400,
{
}

/// The UTF-16 units of a text.
pub open spec fn utf16_of(s: Seq<char>) -> Seq<u16>
    decreases s.len(),
{
    if s.len() == 0 {
        Seq::empty()
    } else {
        utf16_of(s.drop_last()) + units_of(s.last())
    }
}

/// The units to type a text by, one key event each.
///
/// Typing by unit bypasses the keyboard layout: the sender already resolved the key to a
/// character with its own layout, and this machine need not agree about which key that is.
pub fn inject_text(s: &str) -> (units: Vec<u16>)
    ensures
        units@ == utf16_of(s@),
{
    let chars = text::chars_of(s);
    let mut units: Vec<u16> = Vec::new();
    let mut i: usize = 0;
    while i < chars.len()
        invariant
            i <= chars@.len(),
            units@ == utf16_of(chars@.take(i as int)),
        decreases chars.len() - i,
    {
        let c = chars[i];
        let ghost before = units@;
        proof {
            let next = chars@.take(i + 1);
            assert(next.drop_last() =~= chars@.take(i as int));
            assert(next.last() == c);
            units_in_numbers(c);
        }
        let n: u32 = c as u32;
        if n < 0x1_0000 {
            units.push(n as u16);
        } else {
            let over: u32 = n - 0x1_0000;
            units.push((0xD800 + over / 0x400) as u16);
            units.push((0xDC00 + over % 0x400) as u16);
        }
        proof {
            assert(units@ =~= before + units_of(c));
        }
        i = i + 1;
    }
    proof {
        assert(chars@.take(chars@.len() as int) =~= chars@);
    }
    units
}

/// Reading the units of a text gives the text, whatever follows it.
proof fn units_read_back(s: Seq<char>, rest: Seq<u16>)
    ensures
        capture::utf16_text(utf16_of(s) + rest) == s + capture::utf16_text(rest),
    decreases s.len(),
{
    if s.len() == 0 {
        assert(utf16_of(s) + rest =~= rest);
        assert(s + capture::utf16_text(rest) =~= capture::utf16_text(rest));
    } else {
        let c = s.last();
        let u = units_of(c);
        units_read_back(s.drop_last(), u + rest);
        assert(utf16_of(s) + rest =~= utf16_of(s.drop_last()) + (u + rest));
        let all = u + rest;
        units_in_numbers(c);
        if (c as int) < 0x1_0000 {
            assert(all.skip(1) =~= rest);
            assert(all[0] == c as int);
            assert(capture::utf16_text(all) == seq![c] + capture::utf16_text(rest));
        } else {
            assert(all.skip(2) =~= rest);
            assert(all[0] == u[0] && all[1] == u[1]);
            assert(0x1_0000 + (u[0] - 0xD800) * 0x400 + (u[1] - 0xDC00) == c as int);
            assert(capture::utf16_text(all) == seq![c] + capture::utf16_text(rest));
        }
        assert(s.drop_last() + (seq![c] + capture::utf16_text(rest)) =~= s + capture::utf16_text(
            rest,
        ));
    }
}

/// Text arrives as it was typed: the units it is typed by stand for exactly its characters.
pub proof fn typed_text_is_the_text(s: Seq<char>)
    ensures
        capture::utf16_text(utf16_of(s)) == s,
{
    units_read_back(s, Seq::empty());
    assert(utf16_of(s) + Seq::<u16>::empty() =~= utf16_of(s));
    assert(s + Seq::<char>::empty() =~= s);
}

// ---------------------------------------------------------------- keys
/// The virtual key of a HID usage, or 0 where there is none.
///
/// Usages of the consumer page carry a flag in the top bit and have virtual keys of their
/// own. Brightness has none: dropped is better than guessed.
pub open spec fn virtual_key(usage: u16) -> u16 {
    if usage >= 0x8000 {
        let u = usage - 0x8000;
        if u == 0xE9 {
            0xAF
        } else if u == 0xEA {
            0xAE
        } else if u == 0xE2 {
            0xAD
        } else if u == 0xCD {
            0xB3
        } else if u == 0xB5 {
            0xB0
        } else if u == 0xB6 {
            0xB1
        } else {
            0
        }
    } else if usage == 0x2A {
        0x08
    } else if usage == 0x28 {
        0x0D
    } else if usage == 0x2B {
        0x09
    } else if usage == 0x29 {
        0x1B
    } else if usage == 0x4C {
        0x2E
    } else if usage == 0x50 {
        0x25
    } else if usage == 0x4F {
        0x27
    } else if usage == 0x51 {
        0x28
    } else if usage == 0x52 {
        0x26
    } else if usage == 0x4A {
        0x24
    } else if usage == 0x4D {
        0x23
    } else if usage == 0x4B {
        0x21
    } else if usage == 0x4E {
        0x22
    } else if 0x3A <= usage <= 0x45 {
        // The function keys.
        (0x70 + (usage - 0x3A)) as u16
    } else if usage == 0xE0 {
        0xA2
    } else if usage == 0xE4 {
        0xA3
    } else if usage == 0xE1 {
        0xA0
    } else if usage == 0xE5 {
        0xA1
    } else if usage == 0xE2 {
        0xA4
    } else if usage == 0xE6 {
        0xA5
    } else if usage == 0xE3 {
        0x5B
    } else if usage == 0xE7 {
        0x5C
    } else if 0x04 <= usage <= 0x1D {
        // The letters.
        (0x41 + (usage - 0x04)) as u16
    } else if 0x1E <= usage <= 0x26 {
        // The digits from one to nine.
        (0x31 + (usage - 0x1E)) as u16
    } else if usage == 0x27 {
        0x30
    } else if usage == 0x2C {
        0x20
    } else {
        0
    }
}

/// The virtual key of a HID usage, or 0 where there is none.
///
/// Only for keys that type no text, and for shortcuts, which are addressed by position.
pub fn virtual_key_for(usage: u16) -> (vk: u16)
    ensures
        vk == virtual_key(usage),
{
    if usage >= 0x8000 {
        let u: u16 = usage - 0x8000;
        return match u {
            0xE9 => 0xAF,
            0xEA => 0xAE,
            0xE2 => 0xAD,
            0xCD => 0xB3,
            0xB5 => 0xB0,
            0xB6 => 0xB1,
            _ => 0,
        };
    }
    if 0x3A <= usage && usage <= 0x45 {
        return 0x70 + (usage - 0x3A);
    }
    if 0x04 <= usage && usage <= 0x1D {
        return 0x41 + (usage - 0x04);
    }
    if 0x1E <= usage && usage <= 0x26 {
        return 0x31 + (usage - 0x1E);
    }
    match usage {
        0x2A => 0x08,
        0x28 => 0x0D,
        0x2B => 0x09,
        0x29 => 0x1B,
        0x4C => 0x2E,
        0x50 => 0x25,
        0x4F => 0x27,
        0x51 => 0x28,
        0x52 => 0x26,
        0x4A => 0x24,
        0x4D => 0x23,
        0x4B => 0x21,
        0x4E => 0x22,
        0xE0 => 0xA2,
        0xE4 => 0xA3,
        0xE1 => 0xA0,
        0xE5 => 0xA1,
        0xE2 => 0xA4,
        0xE6 => 0xA5,
        0xE3 => 0x5B,
        0xE7 => 0x5C,
        0x27 => 0x30,
        0x2C => 0x20,
        _ => 0,
    }
}

/// The virtual key to press or release for a physical key. A key that is not known is said
/// to be unsupported, so that nothing is silently dropped.
pub fn inject_key(usage: u16) -> (r: Result<u16, Error>)
    ensures
        if virtual_key(usage) == 0 {
            r matches Err(Error::Unsupported(what)) && what@ == "that key"@
        } else {
            r == Ok::<u16, Error>(virtual_key(usage))
        },
{
    let vk: u16 = virtual_key_for(usage);
    if vk == 0 {
        Err(Error::Unsupported("that key"))
    } else {
        Ok(vk)
    }
}

/// No two keys of the keyboard page are pressed as the same virtual key.
pub proof fn keys_are_never_confused(a: u16, b: u16)
    requires
        a < 0x8000,
        b < 0x8000,
        virtual_key(a) == virtual_key(b),
        virtual_key(a) != 0,
    ensures
        a == b,
{
}

// ---------------------------------------------------------------- what is held
/// All of a list but one item.
pub open spec fn all_but(list: Seq<u16>, item: u16) -> Seq<u16>
    decreases list.len(),
{
    if list.len() == 0 {
        Seq::empty()
    } else if list.last() == item {
        all_but(list.drop_last(), item)
    } else {
        all_but(list.drop_last(), item).push(list.last())
    }
}

/// What is held once an item has gone down or up: the last one pressed stands last.
pub open spec fn noted(list: Seq<u16>, item: u16, down: bool) -> Seq<u16> {
    if down {
        all_but(list, item).push(item)
    } else {
        all_but(list, item)
    }
}

/// Note that a key or a button went down or up on behalf of a peer, so that whatever is
/// still down can be let go of. Keys of the Consumer page are noted like any other.
pub fn note_held(list: &mut Vec<u16>, item: u16, down: bool)
    ensures
        final(list)@ == noted(old(list)@, item, down),
{
    let ghost all = list@;
    let mut rest: Vec<u16> = Vec::new();
    let mut i: usize = 0;
    while i < list.len()
        invariant
            i <= list@.len(),
            list@ == all,
            rest@ == all_but(all.take(i as int), item),
        decreases list.len() - i,
    {
        proof {
            assert(all.take(i + 1).drop_last() =~= all.take(i as int));
        }
        if list[i] != item {
            rest.push(list[i]);
        }
        i = i + 1;
    }
    proof {
        assert(all.take(all.len() as int) =~= all);
    }
    if down {
        rest.push(item);
    }
    *list = rest;
}

/// What was noted last of an item is what holds of it, and nothing else changes.
pub proof fn held_is_what_was_noted(list: Seq<u16>, item: u16, down: bool, other: u16)
    ensures
        noted(list, item, down).contains(other) <==> if other == item {
            down
        } else {
            list.contains(other)
        },
{
    all_but_one_stay(list, item, other);
    let rest = all_but(list, item);
    if down {
        assert(rest.push(item).contains(other) <==> rest.contains(other) || other == item) by {
            assert(rest.push(item)[rest.len() as int] == item);
            if rest.contains(other) {
                let i = choose|i: int| 0 <= i < rest.len() && rest[i] == other;
                assert(rest.push(item)[i] == other);
            }
        }
    }
}

proof fn all_but_one_stay(list: Seq<u16>, item: u16, other: u16)
    ensures
        all_but(list, item).contains(other) <==> other != item && list.contains(other),
    decreases list.len(),
{
    if list.len() > 0 {
        let front = list.drop_last();
        let last = list[list.len() - 1];
        all_but_one_stay(front, item, other);
        assert(list.contains(other) <==> front.contains(other) || other == last) by {
            if list.contains(other) {
                let i = choose|i: int| 0 <= i < list.len() && list[i] == other;
                assert(i < front.len() ==> front[i] == other);
            }
            if front.contains(other) {
                let i = choose|i: int| 0 <= i < front.len() && front[i] == other;
                assert(list[i] == other);
            }
        }
        let rest = all_but(front, item);
        if last != item {
            assert(rest.push(last).contains(other) <==> rest.contains(other) || other == last) by {
                assert(rest.push(last)[rest.len() as int] == last);
                if rest.contains(other) {
                    let i = choose|i: int| 0 <= i < rest.len() && rest[i] == other;
                    assert(rest.push(last)[i] == other);
                }
            }
        }
    }
}

// ---------------------------------------------------------------- what the tables say
/// A letter key of a Mac presses the same letter on Windows, where a letter's virtual key is
/// the letter itself: what copies on the one copies on the other.
pub proof fn a_letter_key_presses_the_same_letter()
    ensures
        virtual_key(capture::hid_usage(0x00)) == 'A' as int,
        virtual_key(capture::hid_usage(0x0B)) == 'B' as int,
        virtual_key(capture::hid_usage(0x08)) == 'C' as int,
        virtual_key(capture::hid_usage(0x02)) == 'D' as int,
        virtual_key(capture::hid_usage(0x0E)) == 'E' as int,
        virtual_key(capture::hid_usage(0x03)) == 'F' as int,
        virtual_key(capture::hid_usage(0x05)) == 'G' as int,
        virtual_key(capture::hid_usage(0x04)) == 'H' as int,
        virtual_key(capture::hid_usage(0x22)) == 'I' as int,
        virtual_key(capture::hid_usage(0x26)) == 'J' as int,
        virtual_key(capture::hid_usage(0x28)) == 'K' as int,
        virtual_key(capture::hid_usage(0x25)) == 'L' as int,
        virtual_key(capture::hid_usage(0x2E)) == 'M' as int,
        virtual_key(capture::hid_usage(0x2D)) == 'N' as int,
        virtual_key(capture::hid_usage(0x1F)) == 'O' as int,
        virtual_key(capture::hid_usage(0x23)) == 'P' as int,
        virtual_key(capture::hid_usage(0x0C)) == 'Q' as int,
        virtual_key(capture::hid_usage(0x0F)) == 'R' as int,
        virtual_key(capture::hid_usage(0x01)) == 'S' as int,
        virtual_key(capture::hid_usage(0x11)) == 'T' as int,
        virtual_key(capture::hid_usage(0x20)) == 'U' as int,
        virtual_key(capture::hid_usage(0x09)) == 'V' as int,
        virtual_key(capture::hid_usage(0x0D)) == 'W' as int,
        virtual_key(capture::hid_usage(0x07)) == 'X' as int,
        virtual_key(capture::hid_usage(0x10)) == 'Y' as int,
        virtual_key(capture::hid_usage(0x06)) == 'Z' as int,
{
}

/// Letters, digits and function keys have virtual keys in turn: the letters from A, the digits
/// by their characters, with zero behind nine on the keyboard, and the function keys from F1.
pub proof fn keys_in_turn_have_virtual_keys_in_turn(usage: u16)
    ensures
        4 <= usage < 4 + 26 ==> virtual_key(usage) == 0x41 + (usage - 4),
        0x1E <= usage <= 0x26 ==> virtual_key(usage) == 0x31 + (usage - 0x1E),
        virtual_key(0x27) == 0x30,
        0x3A <= usage <= 0x45 ==> virtual_key(usage) == 0x70 + (usage - 0x3A),
{
}

/// Every other key has the virtual key of its own name, on its own side: Gui is the Windows
/// key, Alt is the menu key, and each arrow points its own way.
pub proof fn named_keys_have_their_virtual_keys()
    ensures
        virtual_key(PhysicalKey::backspace().0) == 0x08,
        virtual_key(PhysicalKey::tab().0) == 0x09,
        virtual_key(PhysicalKey::enter().0) == 0x0D,
        virtual_key(PhysicalKey::escape().0) == 0x1B,
        virtual_key(PhysicalKey::space().0) == 0x20,
        virtual_key(0x4B) == 0x21,
        virtual_key(0x4E) == 0x22,
        virtual_key(0x4D) == 0x23,
        virtual_key(0x4A) == 0x24,
        virtual_key(PhysicalKey::left_arrow().0) == 0x25,
        virtual_key(PhysicalKey::up_arrow().0) == 0x26,
        virtual_key(PhysicalKey::right_arrow().0) == 0x27,
        virtual_key(PhysicalKey::down_arrow().0) == 0x28,
        virtual_key(0x4C) == 0x2E,
        virtual_key(PhysicalKey::left_gui().0) == 0x5B,
        virtual_key(PhysicalKey::right_gui().0) == 0x5C,
        virtual_key(PhysicalKey::left_shift().0) == 0xA0,
        virtual_key(PhysicalKey::right_shift().0) == 0xA1,
        virtual_key(PhysicalKey::left_ctrl().0) == 0xA2,
        virtual_key(PhysicalKey::right_ctrl().0) == 0xA3,
        virtual_key(PhysicalKey::left_alt().0) == 0xA4,
        virtual_key(PhysicalKey::right_alt().0) == 0xA5,
        virtual_key(0) == 0,
{
}

/// A media key of a Mac presses the media key of the same name: muting, the volume down and
/// up, the next and the last track, and play. Brightness has none.
pub proof fn a_media_key_presses_the_same_one()
    ensures
        virtual_key((0x8000 + capture::media_usage(7)->0) as u16) == 0xAD,
        virtual_key((0x8000 + capture::media_usage(1)->0) as u16) == 0xAE,
        virtual_key((0x8000 + capture::media_usage(0)->0) as u16) == 0xAF,
        virtual_key((0x8000 + capture::media_usage(17)->0) as u16) == 0xB0,
        virtual_key((0x8000 + capture::media_usage(18)->0) as u16) == 0xB1,
        virtual_key((0x8000 + capture::media_usage(16)->0) as u16) == 0xB3,
        virtual_key((0x8000 + capture::media_usage(2)->0) as u16) == 0,
        virtual_key((0x8000 + capture::media_usage(3)->0) as u16) == 0,
{
}

/// Each button is pressed as itself and let go of as itself, and one that is not among the
/// three is not pressed as another.
pub proof fn a_button_is_pressed_as_itself(button: u8, down: bool)
    ensures
        stroke(Button::Left.code(), true) == Some(Stroke::LeftDown),
        stroke(Button::Left.code(), false) == Some(Stroke::LeftUp),
        stroke(Button::Right.code(), true) == Some(Stroke::RightDown),
        stroke(Button::Right.code(), false) == Some(Stroke::RightUp),
        stroke(Button::Middle.code(), true) == Some(Stroke::MiddleDown),
        stroke(Button::Middle.code(), false) == Some(Stroke::MiddleUp),
        stroke(button, down) is Some <==> 1 <= button <= 3,
{
}

/// Scrolling turns the wheels by a whole notch each, the upright one for up and down and the
/// other for sideways, in the direction that was scrolled, and leaves a wheel alone that was
/// not.
pub proof fn scrolling_turns_its_own_wheel(dx: int, dy: int)
    requires
        -0x100_0000 < dx < 0x100_0000,
        -0x100_0000 < dy < 0x100_0000,
    ensures
        ({
            let t = turns(dx, dy);
            &&& dx == 0 && dy == 0 ==> t.len() == 0
            &&& dx == 0 && dy != 0 ==> t.len() == 1 && !t[0].horizontal && t[0].amount == 120 * dy
            &&& dx != 0 && dy == 0 ==> t.len() == 1 && t[0].horizontal && t[0].amount == 120 * dx
            &&& dx != 0 && dy != 0 ==> t.len() == 2 && !t[0].horizontal && t[0].amount == 120 * dy
                && t[1].horizontal && t[1].amount == 120 * dx
        }),
{
}

/// The pointer is put in proportion: one pixel is never put before an earlier one, and each at
/// most a step of the scale away from where it lies.
pub proof fn the_scale_is_in_proportion(v: int, w: int, start: int, extent: int)
    requires
        extent > 1,
        start <= v <= w < start + extent,
    ensures
        on_scale(v, start, extent) <= on_scale(w, start, extent),
        on_scale(v, start, extent) * (extent - 1) <= (v - start) * 65535 < (on_scale(
            v,
            start,
            extent,
        ) + 1) * (extent - 1),
{
    let span = extent - 1;
    scale_is_a_floor(v - start, span);
    scale_is_a_floor(w - start, span);
    vstd::arithmetic::div_mod::lemma_div_is_ordered((v - start) * 65535, (w - start) * 65535, span);
}

proof fn scale_is_a_floor(d: int, span: int)
    requires
        span > 0,
        0 <= d <= span,
    ensures
        0 <= d * 65535 / span <= 65535,
        (d * 65535 / span) * span <= d * 65535 < (d * 65535 / span + 1) * span,
{
    let q = d * 65535 / span;
    vstd::arithmetic::div_mod::lemma_fundamental_div_mod(d * 65535, span);
    assert(q * span == span * q && (q + 1) * span == span * q + span) by (nonlinear_arith);
    assert(0 <= q <= 65535) by (nonlinear_arith)
        requires
            q * span <= d * 65535 < (q + 1) * span,
            0 <= d <= span,
            span > 0,
    ;
}

/// The two directions do not mix: where the pointer lies sideways follows from its `x` and
/// the width of the desktop alone, and where it lies upright from its `y` and the height. The
/// first pixel lies at the start of both scales and the last at the end.
pub proof fn the_directions_do_not_mix(x: int, y: int, other: int, desktop: PixelRect)
    requires
        desktop.width > 1,
        desktop.height > 1,
    ensures
        normalised(x, other, desktop).0 == normalised(x, y, desktop).0,
        normalised(other, y, desktop).1 == normalised(x, y, desktop).1,
        normalised(desktop.x as int, desktop.y as int, desktop) == (0int, 0int),
        normalised(desktop.x + desktop.width - 1, y, desktop).0 == 65535,
        normalised(x, desktop.y + desktop.height - 1, desktop).1 == 65535,
{
    every_corner_can_be_reached(x, desktop.x as int, desktop.width as int);
    every_corner_can_be_reached(y, desktop.y as int, desktop.height as int);
}

/// Two pixels away in either direction is still there, and three are not.
pub proof fn two_pixels_are_no_failure(put: (int, int), dx: int, dy: int)
    ensures
        landed(put, (put.0 + dx, put.1 + dy)) <==> -2 <= dx <= 2 && -2 <= dy <= 2,
{
}

/// A character is typed by its own number; one beyond those is typed by two units that
/// together spell how far beyond it is, the upper ten bits first.
pub proof fn characters_are_typed_by_their_numbers(c: char)
    ensures
        (c as int) < 0x1_0000 ==> units_of(c) == seq![c as int as u16],
        c as int >= 0x1_0000 ==> {
            let u = units_of(c);
            &&& u.len() == 2
            &&& 0xD800 <= u[0] < 0xDC00
            &&& 0xDC00 <= u[1] < 0xE000
            &&& (u[0] - 0xD800) * 0x400 + (u[1] - 0xDC00) + 0x1_0000 == c as int
        },
{
}

/// A key that has no virtual key of its own is not pressed as another.
pub proof fn other_usages_press_nothing(usage: u16)
    ensures
        usage < 4 || 0x2D <= usage <= 0x39 || 0x46 <= usage <= 0x49 || 0x53 <= usage <= 0xDF || 0xE8
            <= usage < 0x8000 ==> virtual_key(usage) == 0,
        usage >= 0x8000 && virtual_key(usage) != 0 ==> 0xAD <= virtual_key(usage) <= 0xB3,
{
}

} // verus!
