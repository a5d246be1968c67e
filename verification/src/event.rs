//! Input events, and the drift-free motion model.
use crate::keys::{LogicalText, Modifiers, PhysicalKey};
use crate::wire::{Reader, Writer};
use crate::{wire, Error};
use vstd::prelude::*;
use vstd::utf8::*;

verus! {

/// Fractional bits in a [`Point`] coordinate. Coordinates are fixed-point 1/256 px.
///
/// A 1000 Hz mouse moving slowly emits sub-pixel motion every poll; whole pixels would
/// quantise that away.
pub const SUBPIXEL_BITS: u32 = 8;

/// One subpixel unit.
pub const SUBPIXEL_ONE: i32 = 256;

/// A position in fixed-point 1/256 px, in the target screen's coordinate space.
#[derive(Clone, Copy, PartialEq, Eq, Debug, Structural)]
pub struct Point {
    pub x: i32,
    pub y: i32,
}

impl Default for Point {
    fn default() -> (p: Point)
        ensures
            p == (Point { x: 0, y: 0 }),
    {
        Point { x: 0, y: 0 }
    }
}

/// The 32-bit two's complement number congruent to `d`.
pub open spec fn wrap32(d: int) -> int {
    (d + 0x8000_0000) % 0x1_0000_0000 - 0x8000_0000
}

impl Point {
    /// A whole-pixel position. The pixel is scaled by 256 in 32-bit arithmetic, so a
    /// coordinate of 2^23 pixels or more wraps.
    #[must_use]
    pub fn from_px(x: i32, y: i32) -> (p: Point)
        ensures
            p.x == wrap32(x * 256),
            p.y == wrap32(y * 256),
            -0x80_0000 <= x < 0x80_0000 ==> p.x == 256 * x,
            -0x80_0000 <= y < 0x80_0000 ==> p.y == 256 * y,
    {
        proof {
            shift_is_scaling(x);
            shift_is_scaling(y);
        }
        Point { x: x << 8, y: y << 8 }
    }

    /// The pixel this position lies in: each coordinate divided by 256, rounded down.
    #[must_use]
    pub fn to_px(self) -> (p: (i32, i32))
        ensures
            p.0 == self.x as int / 256,
            p.1 == self.y as int / 256,
    {
        let (x, y): (i32, i32) = (self.x, self.y);
        proof {
            assert(256 * (x >> 8) <= x && x < 256 * (x >> 8) + 256) by (bit_vector);
            assert(256 * (y >> 8) <= y && y < 256 * (y >> 8) + 256) by (bit_vector);
        }
        (x >> 8, y >> 8)
    }

    /// The position on the wire.
    pub open spec fn point_bytes(self) -> Seq<u8> {
        wire::be_bytes(wire::bits32(self.x), 4) + wire::be_bytes(wire::bits32(self.y), 4)
    }

    /// A position taken off the front of `s`.
    pub open spec fn get_point(s: Seq<u8>) -> Result<(Point, Seq<u8>), Error> {
        match wire::get_uint(s, 4) {
            Ok((x, rest)) => match wire::get_uint(rest, 4) {
                Ok((y, rest)) => Ok(
                    (Point { x: wire::signed32(x) as i32, y: wire::signed32(y) as i32 }, rest),
                ),
                Err(e) => Err(e),
            },
            Err(e) => Err(e),
        }
    }

    pub(crate) fn encode(self, w: &mut Writer<'_>)
        ensures
            final(w).buf@ == old(w).buf@ + self.point_bytes(),
            final(final(w).buf)@ == final(old(w).buf)@,
    {
        let ghost before = w.buf@;
        w.i32(self.x);
        w.i32(self.y);
        proof {
            assert(w.buf@ =~= before + self.point_bytes());
        }
    }

    pub(crate) fn decode(r: &mut Reader<'_>) -> (p: Result<Point, Error>)
        ensures
            match Point::get_point(old(r)@) {
                Ok((point, rest)) => p == Ok::<Point, Error>(point) && final(r)@ == rest,
                Err(e) => p == Err::<Point, Error>(e),
            },
    {
        let x: i32 = r.i32()?;
        let y: i32 = r.i32()?;
        Ok(Point { x, y })
    }
}

proof fn shift_is_scaling(x: i32)
    ensures
        (x << 8) == wrap32(x * 256),
{
    assert((x << 8) % 256 == 0) by (bit_vector);
    let low: i32 = x & 0xFF_FFFF;
    assert(0 <= low && low <= 0xFF_FFFF && (low < 0x80_0000 ==> (x << 8) == low * 256) && (low
        >= 0x80_0000 ==> (x << 8) == low * 256 - 0x1_0000_0000) && (x - low) % 0x100_0000 == 0)
        by (bit_vector)
        requires
            low == x & 0xFF_FFFF,
    ;
}

/// Within the range a screen can have, pixels survive the trip into subpixels and back.
pub proof fn subpixels_keep_the_pixel(x: int)
    requires
        -0x80_0000 <= x < 0x80_0000,
    ensures
        wrap32(x * 256) == x * 256,
        wrap32(x * 256) / 256 == x,
{
}

/// A position written at the front of a stream is the position read from it.
pub proof fn get_point_of_point_bytes(p: Point, rest: Seq<u8>)
    ensures
        Point::get_point(p.point_bytes() + rest) == Ok::<(Point, Seq<u8>), Error>((p, rest)),
{
    let (x, y) = (wire::bits32(p.x), wire::bits32(p.y));
    wire::be_limits();
    assert(p.point_bytes() + rest =~= wire::be_bytes(x, 4) + (wire::be_bytes(y, 4) + rest));
    wire::get_uint_of_be_bytes(x, 4, wire::be_bytes(y, 4) + rest);
    wire::get_uint_of_be_bytes(y, 4, rest);
}

// ---------------------------------------------------------------- motion
/// Pointer motion.
///
/// Motion rides unreliable datagrams, which is only safe if losing one cannot corrupt
/// state. A delta encoding fails this: one lost packet offsets the pointer forever. Both
/// fields here are cumulative: `cursor` is an absolute position, and `travel` is a running
/// total of raw device counters, so a receiver recovers the true movement with one
/// subtraction no matter how many packets it missed.
#[derive(Clone, Copy, PartialEq, Eq, Debug, Structural)]
pub struct Motion {
    /// Wrapping sequence number, used to discard reordered datagrams.
    pub seq: u32,
    /// Absolute pointer position on the target screen.
    pub cursor: Point,
    /// Cumulative raw horizontal device counter since session start. Wraps.
    pub travel_x: i32,
    /// Cumulative raw vertical device counter since session start. Wraps.
    pub travel_y: i32,
}

/// Motion after a receiver has reconciled it against what it saw last.
#[derive(Clone, Copy, PartialEq, Eq, Debug, Structural)]
pub struct AppliedMotion {
    /// Where to place the pointer in absolute mode.
    pub cursor: Point,
    /// Raw movement since the last accepted packet, for relative mode. Already accounts
    /// for any packets that were lost in between.
    pub delta_x: i32,
    pub delta_y: i32,
    /// How many packets were lost immediately before this one. Diagnostics only.
    pub lost: u32,
}

/// How far `m` is ahead of `prev` in sequence, across the `u32` boundary.
pub open spec fn seq_gap(prev: Motion, m: Motion) -> int {
    (m.seq - prev.seq) % 0x1_0000_0000
}

/// Whether `m` was sent after `prev`: less than half the sequence space ahead of it.
pub open spec fn newer(prev: Motion, m: Motion) -> bool {
    0 < seq_gap(prev, m) < 0x8000_0000
}

/// What a receiver makes of `m` when `last` is the last motion it accepted.
pub open spec fn applied(last: Option<Motion>, m: Motion) -> Option<AppliedMotion> {
    match last {
        None => Some(AppliedMotion { cursor: m.cursor, delta_x: 0, delta_y: 0, lost: 0 }),
        Some(prev) => if newer(prev, m) {
            Some(
                AppliedMotion {
                    cursor: m.cursor,
                    delta_x: wrap32(m.travel_x - prev.travel_x) as i32,
                    delta_y: wrap32(m.travel_y - prev.travel_y) as i32,
                    lost: (seq_gap(prev, m) - 1) as u32,
                },
            )
        } else {
            None
        },
    }
}

/// Receiver-side motion state. Turns a stream of lossy, possibly reordered [`Motion`]
/// datagrams into correct pointer updates.
#[derive(Clone, Copy, Debug)]
pub struct MotionTracker {
    last: Option<Motion>,
}

impl Default for MotionTracker {
    fn default() -> (t: MotionTracker)
        ensures
            t@ is None,
    {
        MotionTracker::new()
    }
}

impl View for MotionTracker {
    type V = Option<Motion>;

    /// The last motion accepted.
    closed spec fn view(&self) -> Option<Motion> {
        self.last
    }
}

impl MotionTracker {
    #[must_use]
    pub fn new() -> (t: MotionTracker)
        ensures
            t@ is None,
    {
        MotionTracker { last: None }
    }

    /// Forget history, e.g. after re-entering this screen or reconnecting.
    ///
    /// The next packet then reports a zero delta rather than a huge bogus one relative to
    /// a stale counter from a previous session.
    pub fn reset(&mut self)
        ensures
            final(self)@ is None,
    {
        self.last = None;
    }

    /// Accept a datagram, or return `None` if it is stale (arrived out of order).
    pub fn accept(&mut self, m: Motion) -> (r: Option<AppliedMotion>)
        ensures
            r == applied(old(self)@, m),
            final(self)@ == (if r is Some {
                Some(m)
            } else {
                old(self)@
            }),
    {
        let applied = match self.last {
            // First packet of a session: the absolute position is known, relative movement
            // is not yet meaningful.
            None => AppliedMotion { cursor: m.cursor, delta_x: 0, delta_y: 0, lost: 0 },
            Some(prev) => {
                let gap: u32 = m.seq.wrapping_sub(prev.seq);
                if gap == 0 || gap >= 0x8000_0000 {
                    // Reordered or duplicated. Applying it would move the pointer
                    // backwards, which is exactly the jitter this eliminates.
                    return None;
                }
                AppliedMotion {
                    cursor: m.cursor,
                    delta_x: m.travel_x.wrapping_sub(prev.travel_x),
                    delta_y: m.travel_y.wrapping_sub(prev.travel_y),
                    lost: gap - 1,
                }
            },
        };
        self.last = Some(m);
        Some(applied)
    }
}

/// The last motion a tracker holds after hearing `heard` from a fresh start.
pub open spec fn last_accepted(heard: Seq<Motion>) -> Option<Motion>
    decreases heard.len(),
{
    if heard.len() == 0 {
        None
    } else {
        let before = last_accepted(heard.drop_last());
        if applied(before, heard.last()) is Some {
            Some(heard.last())
        } else {
            before
        }
    }
}

/// The relative movement, as (x, y), that all updates together reported.
pub open spec fn total_delta(heard: Seq<Motion>) -> (int, int)
    decreases heard.len(),
{
    if heard.len() == 0 {
        (0, 0)
    } else {
        let (x, y) = total_delta(heard.drop_last());
        match applied(last_accepted(heard.drop_last()), heard.last()) {
            Some(a) => (x + a.delta_x, y + a.delta_y),
            None => (x, y),
        }
    }
}

/// One more step keeps the sum congruent to the distance travelled.
proof fn carried_on(sum: int, prev: int, next: int, first: int)
    requires
        (sum - (prev - first)) % 0x1_0000_0000 == 0,
        -0x8000_0000 <= prev < 0x8000_0000,
        -0x8000_0000 <= next < 0x8000_0000,
    ensures
        (sum + wrap32(next - prev) - (next - first)) % 0x1_0000_0000 == 0,
        -0x8000_0000 <= wrap32(next - prev) < 0x8000_0000,
{
}

/// No drift: whichever packets were lost, repeated or reordered, the movement reported so
/// far is exactly the device's own movement from the first packet to the last one
/// accepted, modulo the counters' width.
pub proof fn loss_never_causes_drift(heard: Seq<Motion>)
    requires
        heard.len() > 0,
    ensures
        last_accepted(heard) matches Some(l) && {
            &&& (total_delta(heard).0 - (l.travel_x - heard[0].travel_x)) % 0x1_0000_0000 == 0
            &&& (total_delta(heard).1 - (l.travel_y - heard[0].travel_y)) % 0x1_0000_0000 == 0
        },
    decreases heard.len(),
{
    let before = heard.drop_last();
    if before.len() > 0 {
        loss_never_causes_drift(before);
        assert(before[0] == heard[0]);
        let (m, prev) = (heard.last(), last_accepted(before)->0);
        if newer(prev, m) {
            let (first, sum) = (heard[0], total_delta(before));
            carried_on(sum.0, prev.travel_x as int, m.travel_x as int, first.travel_x as int);
            carried_on(sum.1, prev.travel_y as int, m.travel_y as int, first.travel_y as int);
        }
    } else {
        reveal_with_fuel(last_accepted, 2);
        reveal_with_fuel(total_delta, 2);
    }
}

/// A packet heard a second time, or one sent before the last one accepted, is discarded.
pub proof fn stale_motion_is_discarded(last: Motion, m: Motion)
    requires
        m.seq == last.seq || newer(m, last),
    ensures
        applied(Some(last), m) is None,
{
}

/// Every motion that is accepted, the first and each later one, is reported at the position
/// that this very packet carries; the first carries no movement yet.
pub proof fn a_motion_lands_where_its_packet_says(last: Option<Motion>, m: Motion)
    ensures
        applied(last, m) matches Some(a) ==> a.cursor.x == m.cursor.x && a.cursor.y == m.cursor.y,
        last is None ==> applied(last, m) is Some && applied(last, m)->0.delta_x == 0 && applied(
            last,
            m,
        )->0.delta_y == 0 && applied(last, m)->0.lost == 0,
{
}

/// A packet sent `k` after the last one accepted is accepted, across the end of the counter
/// as well: it tells how many were lost between the two, and the movement between them, each
/// way by its own counter.
pub proof fn a_later_packet_makes_up_for_the_lost(prev: Motion, m: Motion, k: int)
    requires
        0 < k < 0x8000_0000,
        m.seq == (prev.seq + k) % 0x1_0000_0000,
    ensures
        applied(Some(prev), m) matches Some(a) && {
            &&& a.lost == k - 1
            &&& (a.delta_x - (m.travel_x - prev.travel_x)) % 0x1_0000_0000 == 0
            &&& (a.delta_y - (m.travel_y - prev.travel_y)) % 0x1_0000_0000 == 0
            &&& -0x8000_0000 <= m.travel_x - prev.travel_x < 0x8000_0000 ==> a.delta_x == m.travel_x
                - prev.travel_x
            &&& -0x8000_0000 <= m.travel_y - prev.travel_y < 0x8000_0000 ==> a.delta_y == m.travel_y
                - prev.travel_y
        },
{
    assert(seq_gap(prev, m) == k);
}

/// A packet sent up to half the counter before the last one accepted, or the same one again,
/// is not accepted.
pub proof fn an_earlier_packet_is_dropped(last: Motion, m: Motion, k: int)
    requires
        0 <= k <= 0x8000_0000,
        last.seq == (m.seq + k) % 0x1_0000_0000,
    ensures
        applied(Some(last), m) is None,
{
    assert(seq_gap(last, m) == (-k) % 0x1_0000_0000);
}

/// The position that was reported last, after hearing `heard` from a fresh start.
pub open spec fn last_reported(heard: Seq<Motion>) -> Option<Point>
    decreases heard.len(),
{
    if heard.len() == 0 {
        None
    } else {
        match applied(last_accepted(heard.drop_last()), heard.last()) {
            Some(a) => Some(a.cursor),
            None => last_reported(heard.drop_last()),
        }
    }
}

/// The pointer never lags behind: whatever was lost, repeated or reordered, the position
/// reported last is the one that the last packet accepted carries.
pub proof fn the_pointer_is_where_the_last_packet_put_it(heard: Seq<Motion>)
    ensures
        heard.len() > 0 ==> last_accepted(heard) is Some,
        match last_accepted(heard) {
            Some(m) => heard.contains(m) && last_reported(heard) == Some(m.cursor),
            None => last_reported(heard) is None,
        },
    decreases heard.len(),
{
    if heard.len() > 0 {
        let before = heard.drop_last();
        the_pointer_is_where_the_last_packet_put_it(before);
        assert(heard[heard.len() - 1] == heard.last());
        if let Some(m) = last_accepted(before) {
            let i = choose|i: int| 0 <= i < before.len() && before[i] == m;
            assert(heard[i] == m);
        }
    }
}

// ---------------------------------------------------------------- buttons and presses
/// A pointer button. Numbers follow the Linux evdev ordering.
#[derive(Clone, Copy, PartialEq, Eq, Debug, Structural)]
pub enum Button {
    Left,
    Right,
    Middle,
    /// "Back" / side button 1.
    Back,
    /// "Forward" / side button 2.
    Forward,
    /// Any further button, carried by index.
    Extra(u8),
}

impl Button {
    /// The value a number stands for, if any.
    pub open spec fn of_code(v: u8) -> Option<Button> {
        match v {
            0 => None,
            1 => Some(Button::Left),
            2 => Some(Button::Right),
            3 => Some(Button::Middle),
            4 => Some(Button::Back),
            5 => Some(Button::Forward),
            n => Some(Button::Extra(n)),
        }
    }

    /// A value taken off the front of `s`.
    pub open spec fn get_button(s: Seq<u8>) -> Result<(Button, Seq<u8>), Error> {
        match wire::get_uint(s, 1) {
            Err(e) => Err(e),
            Ok((v, s)) => match Button::of_code(v as u8) {
                Some(it) => Ok((it, s)),
                None => Err(Error::UnknownVariant("Button")),
            },
        }
    }

    pub(crate) fn decode(r: &mut Reader<'_>) -> (v: Result<Button, Error>)
        ensures
            match Button::get_button(old(r)@) {
                Ok((it, rest)) => v == Ok::<Button, Error>(it) && final(r)@ == rest,
                Err(e) => v == Err::<Button, Error>(e),
            },
    {
        let v: u8 = r.u8()?;
        Button::from_u8(v)
    }

    /// The button's number.
    pub open spec fn code(self) -> u8 {
        match self {
            Button::Left => 1,
            Button::Right => 2,
            Button::Middle => 3,
            Button::Back => 4,
            Button::Forward => 5,
            Button::Extra(n) => n,
        }
    }

    /// Whether the button is the one its number names: an extra button numbered like a
    /// named one, or 0, is not.
    pub open spec fn canonical(self) -> bool {
        self matches Button::Extra(n) ==> n > 5
    }

    /// Map a platform backend's button index onto the protocol's numbering.
    ///
    /// Rejects 0, which every backend uses to mean "no button".
    pub fn try_from_u8(v: u8) -> (b: Result<Button, Error>)
        ensures
            match Button::of_code(v) {
                Some(it) => b == Ok::<Button, Error>(it),
                None => b == Err::<Button, Error>(Error::UnknownVariant("Button")),
            },
    {
        Button::from_u8(v)
    }

    /// The protocol's numbering, for a platform backend to map onto its own.
    #[must_use]
    pub fn to_u8(self) -> (v: u8)
        ensures
            v == self.code(),
    {
        match self {
            Button::Left => 1,
            Button::Right => 2,
            Button::Middle => 3,
            Button::Back => 4,
            Button::Forward => 5,
            Button::Extra(n) => n,
        }
    }

    pub(crate) fn from_u8(v: u8) -> (b: Result<Button, Error>)
        ensures
            match Button::of_code(v) {
                Some(it) => b == Ok::<Button, Error>(it),
                None => b == Err::<Button, Error>(Error::UnknownVariant("Button")),
            },
    {
        match v {
            1 => Ok(Button::Left),
            2 => Ok(Button::Right),
            3 => Ok(Button::Middle),
            4 => Ok(Button::Back),
            5 => Ok(Button::Forward),
            0 => Err(Error::UnknownVariant("Button")),
            n => Ok(Button::Extra(n)),
        }
    }
}

/// Whether a key or button went down or up.
#[derive(Clone, Copy, PartialEq, Eq, Debug, Structural)]
pub enum Press {
    Up,
    Down,
    /// An auto-repeat from holding the key. Distinguished from `Down` so a receiver can
    /// suppress it and let its own OS generate repeats at the local rate.
    Repeat,
}

impl Press {
    /// The value a number stands for, if any.
    pub open spec fn of_code(v: u8) -> Option<Press> {
        match v {
            0 => Some(Press::Up),
            1 => Some(Press::Down),
            2 => Some(Press::Repeat),
            _ => None,
        }
    }

    /// A value taken off the front of `s`.
    pub open spec fn get_press(s: Seq<u8>) -> Result<(Press, Seq<u8>), Error> {
        match wire::get_uint(s, 1) {
            Err(e) => Err(e),
            Ok((v, s)) => match Press::of_code(v as u8) {
                Some(it) => Ok((it, s)),
                None => Err(Error::UnknownVariant("Press")),
            },
        }
    }

    pub(crate) fn decode(r: &mut Reader<'_>) -> (v: Result<Press, Error>)
        ensures
            match Press::get_press(old(r)@) {
                Ok((it, rest)) => v == Ok::<Press, Error>(it) && final(r)@ == rest,
                Err(e) => v == Err::<Press, Error>(e),
            },
    {
        let v: u8 = r.u8()?;
        Press::from_u8(v)
    }

    /// The press's number on the wire.
    pub open spec fn code(self) -> u8 {
        match self {
            Press::Up => 0,
            Press::Down => 1,
            Press::Repeat => 2,
        }
    }

    pub(crate) fn to_u8(self) -> (v: u8)
        ensures
            v == self.code(),
    {
        match self {
            Press::Up => 0,
            Press::Down => 1,
            Press::Repeat => 2,
        }
    }

    pub(crate) fn from_u8(v: u8) -> (p: Result<Press, Error>)
        ensures
            match Press::of_code(v) {
                Some(it) => p == Ok::<Press, Error>(it),
                None => p == Err::<Press, Error>(Error::UnknownVariant("Press")),
            },
    {
        match v {
            0 => Ok(Press::Up),
            1 => Ok(Press::Down),
            2 => Ok(Press::Repeat),
            _ => Err(Error::UnknownVariant("Press")),
        }
    }

    #[must_use]
    pub fn is_down(self) -> (b: bool)
        ensures
            b == (self != Press::Up),
    {
        match self {
            Press::Up => false,
            Press::Down => true,
            Press::Repeat => true,
        }
    }
}

/// A pointer button event. Carried reliably: a lost button-up leaves a stuck drag.
#[derive(Clone, Copy, PartialEq, Eq, Debug, Structural)]
pub struct ButtonEvent {
    pub seq: u32,
    pub button: Button,
    pub press: Press,
    pub modifiers: Modifiers,
}

/// Unit of a scroll event.
#[derive(Clone, Copy, PartialEq, Eq, Debug, Structural)]
pub enum ScrollUnit {
    /// Traditional notched wheel, in 1/120 of a detent.
    Detent,
    /// Pixel-precise scrolling from a trackpad or free-spinning wheel.
    Pixel,
}

impl ScrollUnit {
    /// The value a number stands for, if any.
    pub open spec fn of_code(v: u8) -> Option<ScrollUnit> {
        match v {
            0 => Some(ScrollUnit::Detent),
            1 => Some(ScrollUnit::Pixel),
            _ => None,
        }
    }

    /// A value taken off the front of `s`.
    pub open spec fn get_unit(s: Seq<u8>) -> Result<(ScrollUnit, Seq<u8>), Error> {
        match wire::get_uint(s, 1) {
            Err(e) => Err(e),
            Ok((v, s)) => match ScrollUnit::of_code(v as u8) {
                Some(it) => Ok((it, s)),
                None => Err(Error::UnknownVariant("ScrollUnit")),
            },
        }
    }

    pub(crate) fn decode(r: &mut Reader<'_>) -> (v: Result<ScrollUnit, Error>)
        ensures
            match ScrollUnit::get_unit(old(r)@) {
                Ok((it, rest)) => v == Ok::<ScrollUnit, Error>(it) && final(r)@ == rest,
                Err(e) => v == Err::<ScrollUnit, Error>(e),
            },
    {
        let v: u8 = r.u8()?;
        ScrollUnit::from_u8(v)
    }

    /// The unit's number on the wire.
    pub open spec fn code(self) -> u8 {
        match self {
            ScrollUnit::Detent => 0,
            ScrollUnit::Pixel => 1,
        }
    }

    pub(crate) fn to_u8(self) -> (v: u8)
        ensures
            v == self.code(),
    {
        match self {
            ScrollUnit::Detent => 0,
            ScrollUnit::Pixel => 1,
        }
    }

    pub(crate) fn from_u8(v: u8) -> (u: Result<ScrollUnit, Error>)
        ensures
            match ScrollUnit::of_code(v) {
                Some(it) => u == Ok::<ScrollUnit, Error>(it),
                None => u == Err::<ScrollUnit, Error>(Error::UnknownVariant("ScrollUnit")),
            },
    {
        match v {
            0 => Ok(ScrollUnit::Detent),
            1 => Ok(ScrollUnit::Pixel),
            _ => Err(Error::UnknownVariant("ScrollUnit")),
        }
    }
}

/// A scroll event.
///
/// Reliable, not datagram: scroll is incremental and has no absolute reference to
/// resynchronise against, so a dropped packet is permanently lost scrolling.
#[derive(Clone, Copy, PartialEq, Eq, Debug, Structural)]
pub struct ScrollEvent {
    pub seq: u32,
    pub dx: i32,
    pub dy: i32,
    pub unit: ScrollUnit,
    /// Set on the final event of a trackpad fling, so the receiver can end momentum.
    pub end_of_gesture: bool,
}

/// A keyboard event carrying both identities of the key. See [`crate::keys`].
#[derive(Clone, Copy, PartialEq, Eq, Debug)]
pub struct KeyEvent {
    pub seq: u32,
    /// Layout-independent physical key (USB HID usage).
    pub physical: PhysicalKey,
    /// Text the sender's layout produced. Empty for non-text keys.
    pub logical: LogicalText,
    pub press: Press,
    pub modifiers: Modifiers,
}

/// What a [`KeyEvent`] says, with its text as characters.
pub struct KeyModel {
    pub seq: u32,
    pub physical: PhysicalKey,
    pub text: Seq<char>,
    pub press: Press,
    pub modifiers: Modifiers,
}

impl View for KeyEvent {
    type V = KeyModel;

    open spec fn view(&self) -> KeyModel {
        KeyModel {
            seq: self.seq,
            physical: self.physical,
            text: self.logical@,
            press: self.press,
            modifiers: self.modifiers,
        }
    }
}

impl KeyModel {
    /// The event on the wire.
    pub open spec fn key_bytes(self) -> Seq<u8> {
        wire::be_bytes(self.seq as nat, 4) + (wire::be_bytes(self.physical.0 as nat, 2) + (
        LogicalText::text_bytes(self.text) + (wire::be_bytes(self.press.code() as nat, 1)
            + wire::be_bytes(self.modifiers.0 as nat, 2))))
    }

    /// A key event taken off the front of `s`.
    pub open spec fn get_key(s: Seq<u8>) -> Result<(KeyModel, Seq<u8>), Error> {
        match wire::get_uint(s, 4) {
            Err(e) => Err(e),
            Ok((seq, s)) => match wire::get_uint(s, 2) {
                Err(e) => Err(e),
                Ok((usage, s)) => match LogicalText::get_text(s) {
                    Err(e) => Err(e),
                    Ok((text, s)) => match Press::get_press(s) {
                        Err(e) => Err(e),
                        Ok((press, s)) => match wire::get_uint(s, 2) {
                            Err(e) => Err(e),
                            Ok((mask, s)) => Ok(
                                (
                                    KeyModel {
                                        seq: seq as u32,
                                        physical: PhysicalKey(usage as u16),
                                        text,
                                        press,
                                        modifiers: Modifiers(mask as u16),
                                    },
                                    s,
                                ),
                            ),
                        },
                    },
                },
            },
        }
    }
}

/// A key event written at the front of a stream is the one read from it.
pub proof fn get_key_of_key_bytes(k: KeyModel, rest: Seq<u8>)
    requires
        encode_utf8(k.text).len() <= 15,
    ensures
        KeyModel::get_key(k.key_bytes() + rest) == Ok::<(KeyModel, Seq<u8>), Error>((k, rest)),
{
    wire::be_limits();
    let mask = wire::be_bytes(k.modifiers.0 as nat, 2);
    let press = wire::be_bytes(k.press.code() as nat, 1);
    let text = LogicalText::text_bytes(k.text);
    let usage = wire::be_bytes(k.physical.0 as nat, 2);
    let seq = wire::be_bytes(k.seq as nat, 4);
    let after_press = mask + rest;
    let after_text = press + after_press;
    let after_usage = text + after_text;
    let after_seq = usage + after_usage;
    assert(k.key_bytes() + rest =~= seq + after_seq);
    wire::get_uint_of_be_bytes(k.seq as nat, 4, after_seq);
    wire::get_uint_of_be_bytes(k.physical.0 as nat, 2, after_usage);
    crate::keys::get_text_of_text_bytes(k.text, after_text);
    wire::get_uint_of_be_bytes(k.press.code() as nat, 1, after_press);
    wire::get_uint_of_be_bytes(k.modifiers.0 as nat, 2, rest);
}

impl KeyEvent {
    pub(crate) fn decode(r: &mut Reader<'_>) -> (k: Result<KeyEvent, Error>)
        ensures
            match KeyModel::get_key(old(r)@) {
                Ok((model, rest)) => k is Ok && k->Ok_0@ == model && final(r)@ == rest,
                Err(e) => k == Err::<KeyEvent, Error>(e),
            },
    {
        let seq: u32 = r.u32()?;
        let usage: u16 = r.u16()?;
        let logical = LogicalText::decode(r)?;
        let press = Press::decode(r)?;
        let mask: u16 = r.u16()?;
        Ok(
            KeyEvent {
                seq,
                physical: PhysicalKey(usage),
                logical,
                press,
                modifiers: Modifiers(mask),
            },
        )
    }

    pub(crate) fn encode(&self, w: &mut Writer<'_>)
        ensures
            final(w).buf@ == old(w).buf@ + self@.key_bytes(),
            final(final(w).buf)@ == final(old(w).buf)@,
    {
        let ghost before = w.buf@;
        w.u32(self.seq);
        w.u16(self.physical.0);
        self.logical.encode(w);
        w.u8(self.press.to_u8());
        w.u16(self.modifiers.0);
        proof {
            assert(w.buf@ =~= before + self@.key_bytes());
        }
    }
}

// ---------------------------------------------------------------- numbering
/// The numbers of the buttons, of the presses and of the units: left is 1, right 2, middle 3,
/// back 4, forward 5 and each further button its own number; 0 is no button. Up is 0, down 1
/// and a repeat 2; a detent is 0 and a pixel 1.
pub proof fn inputs_have_their_numbers(n: u8)
    ensures
        Button::Left.code() == 1,
        Button::Right.code() == 2,
        Button::Middle.code() == 3,
        Button::Back.code() == 4,
        Button::Forward.code() == 5,
        Button::Extra(n).code() == n,
        Button::of_code(0) is None,
        n != 0 ==> Button::of_code(n) is Some && Button::of_code(n)->0.code() == n
            && Button::of_code(n)->0.canonical(),
        Press::Up.code() == 0,
        Press::Down.code() == 1,
        Press::Repeat.code() == 2,
        match Press::of_code(n) {
            Some(p) => n < 3 && p.code() == n,
            None => n >= 3,
        },
        ScrollUnit::Detent.code() == 0,
        ScrollUnit::Pixel.code() == 1,
        match ScrollUnit::of_code(n) {
            Some(u) => n < 2 && u.code() == n,
            None => n >= 2,
        },
{
}

} // verus!
