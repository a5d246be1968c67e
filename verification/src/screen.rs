//! Screen geometry: what displays a machine has, and where its edges are.
//!
//! A desktop is a union of rectangles, not one rectangle: inside its bounding box there
//! can be coordinates that exist on no display, and sending the pointer there strands it.
use crate::event::Point;
use crate::{event, focus};
use vstd::prelude::*;

verus! {

/// Millimetres, in fixed point: 1/64 mm.
pub type Millis = i32;

/// Sub-units per millimetre.
pub const MM: i32 = 64;

/// A rectangle in a machine's pixel coordinate space.
///
/// `x`/`y` may be negative: a monitor placed left of or above the primary has negative
/// origin coordinates on every platform.
#[derive(Clone, Copy, PartialEq, Eq, Debug, Structural)]
pub struct PixelRect {
    pub x: i32,
    pub y: i32,
    pub width: i32,
    pub height: i32,
}

impl Default for PixelRect {
    fn default() -> (r: PixelRect)
        ensures
            r == (PixelRect { x: 0, y: 0, width: 0, height: 0 }),
    {
        PixelRect { x: 0, y: 0, width: 0, height: 0 }
    }
}

impl PixelRect {
    /// Whether a coordinate lies in the rectangle.
    pub open spec fn covers(self, x: int, y: int) -> bool {
        self.x <= x < self.x + self.width && self.y <= y < self.y + self.height
    }

    /// Whether the rectangle has no area.
    pub open spec fn void(self) -> bool {
        self.width <= 0 || self.height <= 0
    }

    /// Whether its far edges are coordinates.
    pub open spec fn fits(self) -> bool {
        &&& i32::MIN <= self.x + self.width <= i32::MAX
        &&& i32::MIN <= self.y + self.height <= i32::MAX
    }

    #[must_use]
    pub fn new(x: i32, y: i32, width: i32, height: i32) -> (r: PixelRect)
        ensures
            r == (PixelRect { x, y, width, height }),
    {
        PixelRect { x, y, width, height }
    }

    #[must_use]
    pub fn right(&self) -> (v: i32)
        requires
            self.fits(),
        ensures
            v == self.x + self.width,
    {
        self.x + self.width
    }

    #[must_use]
    pub fn bottom(&self) -> (v: i32)
        requires
            self.fits(),
        ensures
            v == self.y + self.height,
    {
        self.y + self.height
    }

    #[must_use]
    pub fn contains(&self, x: i32, y: i32) -> (b: bool)
        ensures
            b == self.covers(x as int, y as int),
    {
        x >= self.x && (x as i64) < self.x as i64 + self.width as i64 && y >= self.y && (y as i64)
            < self.y as i64 + self.height as i64
    }

    #[must_use]
    pub fn is_empty(&self) -> (b: bool)
        ensures
            b == self.void(),
    {
        self.width <= 0 || self.height <= 0
    }
}

/// One physical display.
#[derive(Clone, Copy, PartialEq, Eq, Debug, Structural)]
pub struct Display {
    /// Stable per-machine identifier.
    pub id: u32,
    /// Position and size in this machine's pixel coordinate space.
    pub pixels: PixelRect,
    /// Physical size in 1/64 mm, where the system exposes it.
    pub width_mm: i32,
    pub height_mm: i32,
    /// Backing scale in 1/256 units: 256 = 1x, 512 = 2x Retina.
    pub scale: u32,
    /// Whether this is the machine's primary display.
    pub primary: bool,
}

/// Pixels at the nominal 96 dots per inch, in 1/64 mm: sixteen units each, within the
/// 32-bit range.
pub open spec fn nominal_mm(px: int) -> int {
    focus::within(px * 16, i32::MIN as int, i32::MAX as int)
}

fn nominal(px: i32) -> (v: i32)
    ensures
        v == nominal_mm(px as int),
{
    let v: i64 = px as i64 * 16;
    if v > i32::MAX as i64 {
        i32::MAX
    } else if v < i32::MIN as i64 {
        i32::MIN
    } else {
        v as i32
    }
}

impl Display {
    /// Pixels per millimetre, horizontally, in 1/256 units; `None` for a display that
    /// reports no physical size, has a negative width, or is denser than 32 bits can say.
    pub open spec fn density(self) -> Option<nat> {
        if self.width_mm <= 0 || self.pixels.width < 0 {
            None
        } else {
            let d = self.pixels.width * 256 * 64 / self.width_mm as int;
            if d <= u32::MAX {
                Some(d as nat)
            } else {
                None
            }
        }
    }

    /// Physical pixels per millimetre, horizontally, in 1/256 units.
    #[must_use]
    pub fn density_x(&self) -> (r: Option<u32>)
        ensures
            match self.density() {
                Some(d) => r is Some && r->0 == d,
                None => r is None,
            },
    {
        if self.width_mm <= 0 || self.pixels.width < 0 {
            return None;
        }
        let px: u64 = self.pixels.width as u64;
        let mm: u64 = self.width_mm as u64;
        let d: u64 = px * 256 * 64 / mm;
        if d > u32::MAX as u64 {
            None
        } else {
            Some(d as u32)
        }
    }

    /// The display with a nominal physical size where it reports none.
    pub open spec fn sized(self) -> Display {
        if self.width_mm <= 0 || self.height_mm <= 0 {
            Display {
                width_mm: nominal_mm(self.pixels.width as int) as i32,
                height_mm: nominal_mm(self.pixels.height as int) as i32,
                ..self
            }
        } else {
            self
        }
    }

    /// A nominal physical size for a display that does not report one, so that it lands
    /// somewhere plausible instead of being zero-sized.
    #[must_use]
    pub fn with_assumed_size_if_unknown(self) -> (d: Display)
        ensures
            d == self.sized(),
    {
        if self.width_mm <= 0 || self.height_mm <= 0 {
            Display {
                width_mm: nominal(self.pixels.width),
                height_mm: nominal(self.pixels.height),
                ..self
            }
        } else {
            self
        }
    }
}

/// Everything a machine can display on.
#[derive(Clone, PartialEq, Eq, Debug)]
pub struct Desktop {
    pub displays: Vec<Display>,
}

impl Default for Desktop {
    fn default() -> (d: Desktop)
        ensures
            d.displays@ == Seq::<Display>::empty(),
    {
        Desktop { displays: Vec::new() }
    }
}

/// The sides of a rectangle: left, top, right and bottom.
pub struct Sides {
    pub left: int,
    pub top: int,
    pub right: int,
    pub bottom: int,
}

/// The smaller of two numbers.
pub open spec fn least(a: int, b: int) -> int {
    if a < b {
        a
    } else {
        b
    }
}

/// The larger of two numbers.
pub open spec fn most(a: int, b: int) -> int {
    if a > b {
        a
    } else {
        b
    }
}

/// The sides of the smallest rectangle around every display that has an area, if any has.
pub open spec fn hull(ds: Seq<Display>) -> Option<Sides>
    decreases ds.len(),
{
    if ds.len() == 0 {
        None
    } else {
        let before = hull(ds.drop_last());
        let r = ds.last().pixels;
        if r.void() {
            before
        } else {
            let own = Sides {
                left: r.x as int,
                top: r.y as int,
                right: r.x + r.width,
                bottom: r.y + r.height,
            };
            match before {
                None => Some(own),
                Some(s) => Some(
                    Sides {
                        left: least(s.left, own.left),
                        top: least(s.top, own.top),
                        right: most(s.right, own.right),
                        bottom: most(s.bottom, own.bottom),
                    },
                ),
            }
        }
    }
}

/// The first display marked primary.
pub open spec fn first_primary(ds: Seq<Display>) -> Option<Display>
    decreases ds.len(),
{
    if ds.len() == 0 {
        None
    } else {
        match first_primary(ds.drop_last()) {
            Some(d) => Some(d),
            None => if ds.last().primary {
                Some(ds.last())
            } else {
                None
            },
        }
    }
}

/// The first display marked primary, or else the first of all.
pub open spec fn main_display(ds: Seq<Display>) -> Option<Display> {
    match first_primary(ds) {
        Some(d) => Some(d),
        None => if ds.len() > 0 {
            Some(ds[0])
        } else {
            None
        },
    }
}

/// More displays behind it do not change which is the first primary one.
proof fn first_primary_stays(ds: Seq<Display>, n: int)
    requires
        0 <= n <= ds.len(),
        first_primary(ds.take(n)) is Some,
    ensures
        first_primary(ds) == first_primary(ds.take(n)),
    decreases ds.len() - n,
{
    if n < ds.len() {
        assert(ds.take(n + 1).drop_last() =~= ds.take(n));
        first_primary_stays(ds, n + 1);
    } else {
        assert(ds.take(n) =~= ds);
    }
}

/// Where on a display a coordinate is nearest to.
pub open spec fn nearest_on(r: PixelRect, x: int, y: int) -> (int, int) {
    (
        focus::within(x, r.x as int, r.x + r.width - 1),
        focus::within(y, r.y as int, r.y + r.height - 1),
    )
}

/// The square of the distance between two coordinates.
pub open spec fn distance(a: (int, int), b: (int, int)) -> int {
    (a.0 - b.0) * (a.0 - b.0) + (a.1 - b.1) * (a.1 - b.1)
}

/// The nearest coordinate on any display that has an area; of several displays equally
/// near, on the first.
pub open spec fn nearest(ds: Seq<Display>, x: int, y: int) -> Option<(int, int)>
    decreases ds.len(),
{
    if ds.len() == 0 {
        None
    } else {
        let before = nearest(ds.drop_last(), x, y);
        let r = ds.last().pixels;
        if r.void() {
            before
        } else {
            let here = nearest_on(r, x, y);
            match before {
                None => Some(here),
                Some(p) => if distance(here, (x, y)) < distance(p, (x, y)) {
                    Some(here)
                } else {
                    Some(p)
                },
            }
        }
    }
}

/// Whether a coordinate lands on a display.
pub open spec fn on_display(ds: Seq<Display>, x: int, y: int) -> bool {
    exists|i: int| 0 <= i < ds.len() && (#[trigger] ds[i]).pixels.covers(x, y)
}

/// A coordinate moved to the nearest one on a display.
pub open spec fn onto_display(ds: Seq<Display>, x: int, y: int) -> (int, int) {
    if on_display(ds, x, y) {
        (x, y)
    } else {
        match nearest(ds, x, y) {
            Some(p) => p,
            None => (x, y),
        }
    }
}

/// A coordinate as a fraction of an extent that starts at `start`, in 1/65535.
pub open spec fn fraction(v: int, start: int, extent: int) -> int {
    if v <= start {
        0
    } else {
        focus::within((v - start) * 65535 / extent, 0, 65535)
    }
}

impl Desktop {
    /// The far edges of every display that has an area are coordinates.
    pub open spec fn edges_fit(self) -> bool {
        forall|i: int|
            0 <= i < self.displays@.len() && !(#[trigger] self.displays@[i]).pixels.void()
                ==> self.displays@[i].pixels.fits()
    }

    /// Every display's far edges are coordinates, and so is the size of the whole.
    pub open spec fn wf(self) -> bool {
        &&& self.edges_fit()
        &&& hull(self.displays@) matches Some(s) ==> s.right - s.left <= i32::MAX && s.bottom
            - s.top <= i32::MAX
    }

    /// Whether every display's far edges are coordinates, and so is the size of the whole.
    #[must_use]
    pub fn fits(&self) -> (b: bool)
        ensures
            b == self.wf(),
    {
        let mut found = false;
        let (mut left, mut top, mut right, mut bottom): (i64, i64, i64, i64) = (0, 0, 0, 0);
        let mut i: usize = 0;
        while i < self.displays.len()
            invariant
                i <= self.displays@.len(),
                forall|k: int|
                    0 <= k < i && !(#[trigger] self.displays@[k]).pixels.void()
                        ==> self.displays@[k].pixels.fits(),
                match hull(self.displays@.take(i as int)) {
                    None => !found,
                    Some(s) => found && left == s.left && top == s.top && right == s.right && bottom
                        == s.bottom && i32::MIN <= left && right <= i32::MAX && left < right
                        && i32::MIN <= top && bottom <= i32::MAX && top < bottom,
                },
            decreases self.displays.len() - i,
        {
            proof {
                assert(self.displays@.take(i + 1).drop_last() =~= self.displays@.take(i as int));
            }
            let r = self.displays[i].pixels;
            if !r.is_empty() {
                let own_right: i64 = r.x as i64 + r.width as i64;
                let own_bottom: i64 = r.y as i64 + r.height as i64;
                if own_right > i32::MAX as i64 || own_bottom > i32::MAX as i64 {
                    proof {
                        assert(!self.displays@[i as int].pixels.fits());
                    }
                    return false;
                }
                if !found {
                    found = true;
                    left = r.x as i64;
                    top = r.y as i64;
                    right = own_right;
                    bottom = own_bottom;
                } else {
                    if (r.x as i64) < left {
                        left = r.x as i64;
                    }
                    if (r.y as i64) < top {
                        top = r.y as i64;
                    }
                    if own_right > right {
                        right = own_right;
                    }
                    if own_bottom > bottom {
                        bottom = own_bottom;
                    }
                }
            }
            i = i + 1;
        }
        proof {
            assert(self.displays@.take(self.displays@.len() as int) =~= self.displays@);
        }
        !found || (right - left <= i32::MAX as i64 && bottom - top <= i32::MAX as i64)
    }

    #[must_use]
    pub fn new(displays: Vec<Display>) -> (d: Desktop)
        ensures
            d.displays@ == displays@.map_values(|d: Display| d.sized()),
    {
        let mut out: Vec<Display> = Vec::new();
        let mut i: usize = 0;
        let ghost want = displays@.map_values(|d: Display| d.sized());
        while i < displays.len()
            invariant
                i <= displays@.len(),
                want == displays@.map_values(|d: Display| d.sized()),
                out@ == want.take(i as int),
            decreases displays.len() - i,
        {
            out.push(displays[i].with_assumed_size_if_unknown());
            proof {
                assert(want.take(i + 1) =~= want.take(i as int).push(want[i as int]));
            }
            i = i + 1;
        }
        proof {
            assert(want.take(want.len() as int) =~= want);
        }
        Desktop { displays: out }
    }

    #[must_use]
    pub fn is_empty(&self) -> (b: bool)
        ensures
            b == (forall|i: int|
                0 <= i < self.displays@.len() ==> (#[trigger] self.displays@[i]).pixels.void()),
    {
        let mut i: usize = 0;
        while i < self.displays.len()
            invariant
                i <= self.displays@.len(),
                forall|k: int| 0 <= k < i ==> (#[trigger] self.displays@[k]).pixels.void(),
            decreases self.displays.len() - i,
        {
            if !self.displays[i].pixels.is_empty() {
                return false;
            }
            i = i + 1;
        }
        true
    }

    /// The first display marked primary, or else the first of all.
    #[must_use]
    pub fn primary(&self) -> (r: Option<&Display>)
        ensures
            match main_display(self.displays@) {
                Some(d) => r is Some && *r->0 == d,
                None => r is None,
            },
    {
        let mut i: usize = 0;
        while i < self.displays.len()
            invariant
                i <= self.displays@.len(),
                first_primary(self.displays@.take(i as int)) is None,
            decreases self.displays.len() - i,
        {
            proof {
                let next = self.displays@.take(i + 1);
                assert(next.drop_last() =~= self.displays@.take(i as int));
                assert(next.last() == self.displays@[i as int]);
            }
            if self.displays[i].primary {
                proof {
                    first_primary_stays(self.displays@, i + 1);
                }
                return Some(&self.displays[i]);
            }
            i = i + 1;
        }
        proof {
            assert(self.displays@.take(self.displays@.len() as int) =~= self.displays@);
        }
        if self.displays.len() == 0 {
            None
        } else {
            Some(&self.displays[0])
        }
    }

    /// The smallest rectangle containing every display.
    ///
    /// Not a description of the desktop's shape: see [`Desktop::contains`].
    #[must_use]
    pub fn bounding_box(&self) -> (r: PixelRect)
        requires
            self.wf(),
        ensures
            match hull(self.displays@) {
                None => r == (PixelRect { x: 0, y: 0, width: 0, height: 0 }),
                Some(s) => r.x == s.left && r.y == s.top && r.x + r.width == s.right && r.y
                    + r.height == s.bottom && !r.void() && r.fits(),
            },
    {
        let mut found = false;
        let (mut left, mut top, mut right, mut bottom): (i32, i32, i32, i32) = (0, 0, 0, 0);
        let mut i: usize = 0;
        while i < self.displays.len()
            invariant
                i <= self.displays@.len(),
                self.wf(),
                match hull(self.displays@.take(i as int)) {
                    None => !found,
                    Some(s) => found && left == s.left && top == s.top && right == s.right && bottom
                        == s.bottom && left < right && top < bottom,
                },
            decreases self.displays.len() - i,
        {
            proof {
                assert(self.displays@.take(i + 1).drop_last() =~= self.displays@.take(i as int));
            }
            let r = self.displays[i].pixels;
            if !r.is_empty() {
                assert(self.displays@[i as int].pixels.fits());
                let (own_right, own_bottom): (i32, i32) = (r.right(), r.bottom());
                if !found {
                    found = true;
                    left = r.x;
                    top = r.y;
                    right = own_right;
                    bottom = own_bottom;
                } else {
                    if r.x < left {
                        left = r.x;
                    }
                    if r.y < top {
                        top = r.y;
                    }
                    if own_right > right {
                        right = own_right;
                    }
                    if own_bottom > bottom {
                        bottom = own_bottom;
                    }
                }
            }
            i = i + 1;
        }
        proof {
            assert(self.displays@.take(self.displays@.len() as int) =~= self.displays@);
        }
        if !found {
            return PixelRect::new(0, 0, 0, 0);
        }
        PixelRect::new(left, top, right - left, bottom - top)
    }

    /// Whether a pixel coordinate lands on an actual display.
    ///
    /// This is what stops the pointer being sent into a gap in an L-shaped desktop, where
    /// it would be invisible and unreachable.
    #[must_use]
    pub fn contains(&self, x: i32, y: i32) -> (b: bool)
        ensures
            b == on_display(self.displays@, x as int, y as int),
    {
        self.display_at(x, y).is_some()
    }

    /// The display a coordinate falls on: the first that covers it.
    #[must_use]
    pub fn display_at(&self, x: i32, y: i32) -> (r: Option<&Display>)
        ensures
            match r {
                None => !on_display(self.displays@, x as int, y as int),
                Some(d) => exists|i: int|
                    {
                        &&& 0 <= i < self.displays@.len()
                        &&& #[trigger] self.displays@[i] == *d
                        &&& d.pixels.covers(x as int, y as int)
                        &&& forall|k: int|
                            0 <= k < i ==> !(#[trigger] self.displays@[k]).pixels.covers(
                                x as int,
                                y as int,
                            )
                    },
            },
            r is Some ==> on_display(self.displays@, x as int, y as int),
    {
        let mut i: usize = 0;
        while i < self.displays.len()
            invariant
                i <= self.displays@.len(),
                forall|k: int|
                    0 <= k < i ==> !(#[trigger] self.displays@[k]).pixels.covers(
                        x as int,
                        y as int,
                    ),
            decreases self.displays.len() - i,
        {
            if self.displays[i].pixels.contains(x, y) {
                assert(self.displays@[i as int].pixels.covers(x as int, y as int));
                return Some(&self.displays[i]);
            }
            i = i + 1;
        }
        None
    }

    /// Move a coordinate to the nearest point that is actually on a display.
    ///
    /// Clamping to the nearest real pixel is always better than leaving the pointer
    /// somewhere the user cannot see it.
    #[must_use]
    pub fn clamp_onto_a_display(&self, x: i32, y: i32) -> (p: (i32, i32))
        requires
            self.edges_fit(),
        ensures
            (p.0 as int, p.1 as int) == onto_display(self.displays@, x as int, y as int),
    {
        if self.contains(x, y) {
            return (x, y);
        }
        let mut best: Option<((i32, i32), i128)> = None;
        let mut i: usize = 0;
        while i < self.displays.len()
            invariant
                i <= self.displays@.len(),
                self.edges_fit(),
                match nearest(self.displays@.take(i as int), x as int, y as int) {
                    None => best is None,
                    Some(q) => best matches Some((b, d)) && b.0 == q.0 && b.1 == q.1 && d
                        == distance(q, (x as int, y as int)),
                },
            decreases self.displays.len() - i,
        {
            proof {
                assert(self.displays@.take(i + 1).drop_last() =~= self.displays@.take(i as int));
            }
            let r = self.displays[i].pixels;
            if !r.is_empty() {
                assert(self.displays@[i as int].pixels.fits());
                let cx: i32 = clamp(x, r.x, r.right() - 1);
                let cy: i32 = clamp(y, r.y, r.bottom() - 1);
                let dx: i128 = cx as i128 - x as i128;
                let dy: i128 = cy as i128 - y as i128;
                proof {
                    assert(0 <= dx * dx <= 0x1_0000_0000 * 0x1_0000_0000) by (nonlinear_arith)
                        requires
                            -0x1_0000_0000 <= dx <= 0x1_0000_0000,
                    ;
                    assert(0 <= dy * dy <= 0x1_0000_0000 * 0x1_0000_0000) by (nonlinear_arith)
                        requires
                            -0x1_0000_0000 <= dy <= 0x1_0000_0000,
                    ;
                }
                let d: i128 = dx * dx + dy * dy;
                let nearer = match best {
                    None => true,
                    Some((_, b)) => d < b,
                };
                if nearer {
                    best = Some(((cx, cy), d));
                }
            }
            i = i + 1;
        }
        proof {
            assert(self.displays@.take(self.displays@.len() as int) =~= self.displays@);
        }
        match best {
            Some((p, _)) => p,
            None => (x, y),
        }
    }

    /// Convert a pixel coordinate to the scale-independent form used on the wire: a
    /// fraction of the bounding box, so that a receiver with a different resolution lands
    /// in the same relative place.
    #[must_use]
    pub fn to_normalized(&self, x: i32, y: i32) -> (n: (u16, u16))
        requires
            self.wf(),
        ensures
            match hull(self.displays@) {
                None => n == (0u16, 0u16),
                Some(s) => n.0 == fraction(x as int, s.left, s.right - s.left) && n.1 == fraction(
                    y as int,
                    s.top,
                    s.bottom - s.top,
                ),
            },
    {
        let bb = self.bounding_box();
        if bb.is_empty() {
            return (0, 0);
        }
        (fraction_of(x, bb.x, bb.width), fraction_of(y, bb.y, bb.height))
    }

    /// Inverse of [`Desktop::to_normalized`], clamped onto a real display.
    #[must_use]
    pub fn from_normalized(&self, nx: u16, ny: u16) -> (p: (i32, i32))
        requires
            self.wf(),
        ensures
            match hull(self.displays@) {
                None => p == (0i32, 0i32),
                Some(s) => (p.0 as int, p.1 as int) == onto_display(
                    self.displays@,
                    s.left + nx * (s.right - s.left) / 65535,
                    s.top + ny * (s.bottom - s.top) / 65535,
                ),
            },
    {
        let bb = self.bounding_box();
        if bb.is_empty() {
            return (0, 0);
        }
        let x: i32 = along(bb.x, bb.width, nx);
        let y: i32 = along(bb.y, bb.height, ny);
        self.clamp_onto_a_display(x, y)
    }

    /// Where the pointer currently is, as a protocol [`Point`].
    #[must_use]
    pub fn to_point(x: i32, y: i32) -> (p: Point)
        ensures
            p.x == event::wrap32(x * 256),
            p.y == event::wrap32(y * 256),
    {
        Point::from_px(x, y)
    }
}

fn clamp(v: i32, lo: i32, hi: i32) -> (r: i32)
    requires
        lo <= hi,
    ensures
        r == focus::within(v as int, lo as int, hi as int),
{
    if v < lo {
        lo
    } else if v > hi {
        hi
    } else {
        v
    }
}

fn fraction_of(v: i32, start: i32, extent: i32) -> (n: u16)
    requires
        extent > 0,
    ensures
        n == fraction(v as int, start as int, extent as int),
{
    if v <= start {
        return 0;
    }
    let n: i64 = (v as i64 - start as i64) * 65535 / extent as i64;
    proof {
        assert((v - start) * 65535 / extent as int >= 0) by (nonlinear_arith)
            requires
                v > start,
                extent > 0,
        ;
    }
    if n > 65535 {
        65535
    } else {
        n as u16
    }
}

fn along(start: i32, extent: i32, n: u16) -> (v: i32)
    requires
        extent > 0,
        start + extent <= i32::MAX,
    ensures
        v == start + n * extent / 65535,
        start <= v <= start + extent,
{
    proof {
        assert(0 <= n * extent <= 65535 * extent) by (nonlinear_arith)
            requires
                0 <= n <= 65535,
                extent > 0,
        ;
    }
    let step: i64 = n as i64 * extent as i64 / 65535;
    start + step as i32
}

// ---------------------------------------------------------------- laws
/// The bounding box covers every display that has an area, and reaches no further than
/// such a display on each side.
pub proof fn the_bounding_box_is_tight(ds: Seq<Display>, i: int)
    requires
        0 <= i < ds.len(),
        !ds[i].pixels.void(),
    ensures
        hull(ds) matches Some(s) && {
            let r = ds[i].pixels;
            &&& s.left <= r.x && r.x + r.width <= s.right
            &&& s.top <= r.y && r.y + r.height <= s.bottom
            &&& exists|k: int|
                0 <= k < ds.len() && !(#[trigger] ds[k]).pixels.void() && ds[k].pixels.x == s.left
            &&& exists|k: int|
                0 <= k < ds.len() && !(#[trigger] ds[k]).pixels.void() && ds[k].pixels.y == s.top
            &&& exists|k: int|
                0 <= k < ds.len() && !(#[trigger] ds[k]).pixels.void() && ds[k].pixels.x
                    + ds[k].pixels.width == s.right
            &&& exists|k: int|
                0 <= k < ds.len() && !(#[trigger] ds[k]).pixels.void() && ds[k].pixels.y
                    + ds[k].pixels.height == s.bottom
        },
{
    hull_covers(ds, i);
    hull_touches(ds);
}

proof fn hull_covers(ds: Seq<Display>, i: int)
    requires
        0 <= i < ds.len(),
        !ds[i].pixels.void(),
    ensures
        hull(ds) matches Some(s) && s.left <= ds[i].pixels.x && ds[i].pixels.x + ds[i].pixels.width
            <= s.right && s.top <= ds[i].pixels.y && ds[i].pixels.y + ds[i].pixels.height
            <= s.bottom,
    decreases ds.len(),
{
    if i < ds.len() - 1 {
        hull_covers(ds.drop_last(), i);
    }
}

proof fn hull_touches(ds: Seq<Display>)
    ensures
        hull(ds) matches Some(s) ==> {
            &&& exists|k: int|
                0 <= k < ds.len() && !(#[trigger] ds[k]).pixels.void() && ds[k].pixels.x == s.left
            &&& exists|k: int|
                0 <= k < ds.len() && !(#[trigger] ds[k]).pixels.void() && ds[k].pixels.y == s.top
            &&& exists|k: int|
                0 <= k < ds.len() && !(#[trigger] ds[k]).pixels.void() && ds[k].pixels.x
                    + ds[k].pixels.width == s.right
            &&& exists|k: int|
                0 <= k < ds.len() && !(#[trigger] ds[k]).pixels.void() && ds[k].pixels.y
                    + ds[k].pixels.height == s.bottom
        },
    decreases ds.len(),
{
    if ds.len() > 0 {
        let front = ds.drop_last();
        hull_touches(front);
        assert(ds[ds.len() - 1] == ds.last());
        assert forall|k: int| 0 <= k < front.len() implies front[k] == ds[k] by {}
        if let Some(s) = hull(ds) {
            if let Some(b) = hull(front) {
                let k1 = choose|k: int|
                    0 <= k < front.len() && !(#[trigger] front[k]).pixels.void() && front[k].pixels.x
                        == b.left;
                let k2 = choose|k: int|
                    0 <= k < front.len() && !(#[trigger] front[k]).pixels.void() && front[k].pixels.y
                        == b.top;
                let k3 = choose|k: int|
                    0 <= k < front.len() && !(#[trigger] front[k]).pixels.void() && front[k].pixels.x
                        + front[k].pixels.width == b.right;
                let k4 = choose|k: int|
                    0 <= k < front.len() && !(#[trigger] front[k]).pixels.void() && front[k].pixels.y
                        + front[k].pixels.height == b.bottom;
                assert(ds[k1] == front[k1] && ds[k2] == front[k2] && ds[k3] == front[k3] && ds[k4]
                    == front[k4]);
            }
        }
    }
}

/// A desktop with any display never leaves the pointer in a gap: the coordinate a clamp
/// gives is on a display, and one that is on a display already stays.
pub proof fn clamping_lands_on_a_display(ds: Seq<Display>, i: int, x: int, y: int)
    requires
        0 <= i < ds.len(),
        !ds[i].pixels.void(),
    ensures
        on_display(ds, onto_display(ds, x, y).0, onto_display(ds, x, y).1),
        onto_display(ds, onto_display(ds, x, y).0, onto_display(ds, x, y).1) == onto_display(
            ds,
            x,
            y,
        ),
{
    nearest_is_on_a_display(ds, x, y);
    nearest_exists(ds, i, x, y);
}

proof fn nearest_exists(ds: Seq<Display>, i: int, x: int, y: int)
    requires
        0 <= i < ds.len(),
        !ds[i].pixels.void(),
    ensures
        nearest(ds, x, y) is Some,
    decreases ds.len(),
{
    if i < ds.len() - 1 {
        nearest_exists(ds.drop_last(), i, x, y);
    }
}

proof fn nearest_is_on_a_display(ds: Seq<Display>, x: int, y: int)
    ensures
        nearest(ds, x, y) matches Some(p) ==> on_display(ds, p.0, p.1),
    decreases ds.len(),
{
    if ds.len() > 0 {
        let front = ds.drop_last();
        nearest_is_on_a_display(front, x, y);
        if let Some(p) = nearest(ds, x, y) {
            if nearest(front, x, y) == Some(p) {
                let k = choose|k: int| 0 <= k < front.len() && (#[trigger] front[k]).pixels.covers(p.0, p.1);
                assert(ds[k] == front[k]);
            } else {
                assert(ds[ds.len() - 1] == ds.last());
                assert(ds.last().pixels.covers(p.0, p.1));
            }
        }
    }
}

/// No display holds a coordinate nearer than the one a clamp gives.
pub proof fn clamping_moves_no_further_than_needed(
    ds: Seq<Display>,
    x: int,
    y: int,
    i: int,
    q: (int, int),
)
    requires
        0 <= i < ds.len(),
        ds[i].pixels.covers(q.0, q.1),
    ensures
        distance(onto_display(ds, x, y), (x, y)) <= distance(q, (x, y)),
{
    assert(distance((x, y), (x, y)) == 0);
    squares_are_not_negative(q.0 - x, q.1 - y);
    nearest_is_minimal(ds, x, y, i, q);
}

proof fn squares_are_not_negative(a: int, b: int)
    ensures
        a * a + b * b >= 0,
{
    assert(a * a >= 0) by (nonlinear_arith);
    assert(b * b >= 0) by (nonlinear_arith);
}

proof fn nearest_is_minimal(ds: Seq<Display>, x: int, y: int, i: int, q: (int, int))
    requires
        0 <= i < ds.len(),
        ds[i].pixels.covers(q.0, q.1),
    ensures
        nearest(ds, x, y) matches Some(p) && distance(p, (x, y)) <= distance(q, (x, y)),
    decreases ds.len(),
{
    let r = ds.last().pixels;
    if i < ds.len() - 1 {
        nearest_is_minimal(ds.drop_last(), x, y, i, q);
    } else {
        let here = nearest_on(r, x, y);
        axis(x, r.x as int, r.x + r.width - 1, q.0);
        axis(y, r.y as int, r.y + r.height - 1, q.1);
        assert(distance(here, (x, y)) <= distance(q, (x, y)));
    }
}

proof fn axis(v: int, lo: int, hi: int, q: int)
    requires
        lo <= q <= hi,
    ensures
        (focus::within(v, lo, hi) - v) * (focus::within(v, lo, hi) - v) <= (q - v) * (q - v),
{
    let c = focus::within(v, lo, hi) - v;
    let d = q - v;
    assert(0 <= c <= d || d <= c <= 0);
    assert(c * c <= d * d) by (nonlinear_arith)
        requires
            0 <= c <= d || d <= c <= 0,
    ;
}

/// A coordinate survives the trip through fractions to within a pixel, on any extent of up
/// to 65535 pixels.
pub proof fn normalizing_keeps_the_pixel(v: int, start: int, extent: int)
    requires
        start <= v < start + extent,
        extent <= 65535,
    ensures
        v - 1 <= start + fraction(v, start, extent) * extent / 65535 <= v,
        0 <= fraction(v, start, extent) <= 65535,
{
    let d = v - start;
    let n = d * 65535 / extent;
    assert(n * extent <= d * 65535 && d * 65535 < n * extent + extent && 0 <= n) by (nonlinear_arith)
        requires
            n == d * 65535 / extent,
            d >= 0,
            extent > 0,
    ;
    assert(n <= 65535) by (nonlinear_arith)
        requires
            n * extent <= d * 65535,
            d < extent,
            extent > 0,
    ;
    if d == 0 {
        assert(n == 0) by (nonlinear_arith)
            requires
                n * extent <= d * 65535,
                d == 0,
                n >= 0,
                extent > 0,
        ;
    }
    let p = n * extent;
    assert(d - 1 <= p / 65535 <= d);
}

/// The nearest place is nearest as the crow flies: no pixel of any display lies closer, by the
/// sum of the squares of the two distances, and a place that some display has is itself.
pub proof fn clamping_goes_as_the_crow_flies(ds: Seq<Display>, i: int, x: int, y: int, px: int, py: int)
    requires
        0 <= i < ds.len(),
        ds[i].pixels.x <= px < ds[i].pixels.x + ds[i].pixels.width,
        ds[i].pixels.y <= py < ds[i].pixels.y + ds[i].pixels.height,
    ensures
        ({
            let (cx, cy) = onto_display(ds, x, y);
            &&& (cx - x) * (cx - x) + (cy - y) * (cy - y) <= (px - x) * (px - x) + (py - y) * (py - y)
            &&& px == x && py == y ==> cx == x && cy == y
            &&& exists|k: int|
                0 <= k < ds.len() && (#[trigger] ds[k]).pixels.x <= cx < ds[k].pixels.x
                    + ds[k].pixels.width && ds[k].pixels.y <= cy < ds[k].pixels.y
                    + ds[k].pixels.height
        }),
{
    assert(ds[i].pixels.covers(px, py));
    clamping_lands_on_a_display(ds, i, x, y);
    clamping_moves_no_further_than_needed(ds, x, y, i, (px, py));
    if px == x && py == y {
        assert(on_display(ds, x, y));
    }
}

/// A display's density is its own pixels by its own width: the whole number of 1/256 pixels
/// that fit a millimetre.
pub proof fn a_density_is_pixels_by_millimetres(d: Display)
    requires
        d.width_mm > 0,
        d.pixels.width >= 0,
    ensures
        match d.density() {
            Some(n) => n * d.width_mm <= d.pixels.width * 256 * 64 < (n + 1) * d.width_mm,
            None => d.pixels.width * 256 * 64 >= 0x1_0000_0000 * d.width_mm,
        },
{
    let v = d.pixels.width * 256 * 64;
    let w = d.width_mm as int;
    let n = v / w;
    vstd::arithmetic::div_mod::lemma_fundamental_div_mod(v, w);
    assert(w * n == n * w && (n + 1) * w == w * n + w) by (nonlinear_arith);
    if d.density() is None {
        assert(v >= 0x1_0000_0000 * w) by (nonlinear_arith)
            requires
                n * w <= v,
                n >= 0x1_0000_0000,
                w > 0,
        ;
    }
}

/// A display that reports a size keeps it; one that does not gets a nominal one, as wide as
/// its pixels are wide and as high as they are high, and changes in nothing else.
pub proof fn only_an_unknown_size_is_assumed(d: Display)
    ensures
        d.width_mm > 0 && d.height_mm > 0 ==> d.sized() == d,
        d.sized().id == d.id && d.sized().pixels == d.pixels && d.sized().scale == d.scale
            && d.sized().primary == d.primary,
        (d.width_mm <= 0 || d.height_mm <= 0) && 0 <= d.pixels.width < 0x800_0000
            ==> d.sized().width_mm == 16 * d.pixels.width,
        (d.width_mm <= 0 || d.height_mm <= 0) && 0 <= d.pixels.height < 0x800_0000
            ==> d.sized().height_mm == 16 * d.pixels.height,
{
}

/// The main display is the first that says so, and else the first of all.
pub proof fn the_main_display_is_the_first_that_says_so(ds: Seq<Display>, i: int)
    requires
        0 <= i < ds.len(),
        forall|k: int| 0 <= k < i ==> !(#[trigger] ds[k]).primary,
    ensures
        ds[i].primary ==> main_display(ds) == Some(ds[i]),
        i == ds.len() - 1 && !ds[i].primary ==> main_display(ds) == Some(ds[0]),
{
    none_before(ds, i);
    let next = ds.take(i + 1);
    assert(next.drop_last() =~= ds.take(i));
    assert(next.last() == ds[i]);
    if ds[i].primary {
        first_primary_stays(ds, i + 1);
    } else if i == ds.len() - 1 {
        assert(next =~= ds);
    }
}

proof fn none_before(ds: Seq<Display>, n: int)
    requires
        0 <= n <= ds.len(),
        forall|k: int| 0 <= k < n ==> !(#[trigger] ds[k]).primary,
    ensures
        first_primary(ds.take(n)) is None,
    decreases n,
{
    if n > 0 {
        none_before(ds, n - 1);
        assert(ds.take(n).drop_last() =~= ds.take(n - 1));
        assert(ds.take(n).last() == ds[n - 1]);
    }
}

/// A fraction of a length is in proportion: of two places the farther one is at least as far
/// along, and each lies at most a step of the scale from its place.
pub proof fn a_fraction_is_in_proportion(v: int, w: int, start: int, extent: int)
    requires
        extent > 0,
        start <= v <= w <= start + extent,
    ensures
        fraction(v, start, extent) <= fraction(w, start, extent),
        fraction(v, start, extent) * extent <= (v - start) * 65535 < (fraction(v, start, extent) + 1)
            * extent,
{
    let (d, e) = (v - start, w - start);
    fraction_is_a_floor(d, extent);
    fraction_is_a_floor(e, extent);
    vstd::arithmetic::div_mod::lemma_div_is_ordered(d * 65535, e * 65535, extent);
}

proof fn fraction_is_a_floor(d: int, extent: int)
    requires
        extent > 0,
        0 <= d <= extent,
    ensures
        0 <= d * 65535 / extent <= 65535,
        (d * 65535 / extent) * extent <= d * 65535 < (d * 65535 / extent + 1) * extent,
{
    let q = d * 65535 / extent;
    vstd::arithmetic::div_mod::lemma_fundamental_div_mod(d * 65535, extent);
    assert(q * extent == extent * q && (q + 1) * extent == extent * q + extent) by (nonlinear_arith);
    assert(0 <= q <= 65535) by (nonlinear_arith)
        requires
            q * extent <= d * 65535 < (q + 1) * extent,
            0 <= d <= extent,
            extent > 0,
    ;
}

/// A rectangle covers exactly its own pixels: as many columns as it is wide, from its left
/// side on, and as many rows as it is high, from its top on. One without either covers none.
pub proof fn a_rectangle_covers_its_own_pixels(r: PixelRect, column: int, row: int)
    ensures
        r.covers(r.x + column, r.y + row) <==> 0 <= column < r.width && 0 <= row < r.height,
        r.void() <==> r.width <= 0 || r.height <= 0,
        r.void() ==> !r.covers(r.x + column, r.y + row),
{
}

/// The pixel of a rectangle that is nearest to another lies in the same column or row where the
/// rectangle has it, and on the side towards it otherwise.
pub proof fn the_nearest_pixel_keeps_column_and_row(r: PixelRect, x: int, y: int)
    requires
        r.width > 0,
        r.height > 0,
    ensures
        ({
            let (px, py) = nearest_on(r, x, y);
            &&& r.covers(px, py)
            &&& r.x <= x < r.x + r.width ==> px == x
            &&& r.y <= y < r.y + r.height ==> py == y
            &&& x < r.x ==> px == r.x
            &&& y < r.y ==> py == r.y
            &&& x >= r.x + r.width ==> px == r.x + r.width - 1
            &&& y >= r.y + r.height ==> py == r.y + r.height - 1
        }),
{
}

} // verus!
