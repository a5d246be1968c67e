//! What a machine does with the frames a connected peer sends it.
use crate::capture::ObservedModel;
use crate::event::{Motion, Press};
use crate::frame::{Frame, FrameModel, Hello, PeerId};
use crate::keys::{LayoutPolicy, Replay};
use crate::screen::{Desktop, Display};
use crate::{event, forward, keys, screen, text};
use vstd::prelude::*;
use vstd::string::*;

verus! {

/// What to do about a frame.
#[derive(PartialEq, Eq, Debug)]
pub enum Act {
    Nothing,
    /// Press or release a mouse button, by its number.
    Button { button: u8, down: bool },
    Scroll { dx: i32, dy: i32 },
    /// Press or release a key, by its position.
    Key { usage: u16, down: bool },
    /// Type text, whatever key this machine has it on.
    Text { text: String, down: bool },
    /// The pointer is on this machine: put it here.
    Move { x: i32, y: i32 },
    /// The pointer went somewhere else: hide the cursor and let go of every key.
    Conceal,
    /// Let go of every key.
    Release,
    /// The peer said how large its screen is, and perhaps which version it runs.
    Screen { width: i32, height: i32, version: Option<String> },
    /// The peer speaks another protocol: close the link.
    Close,
}

/// What to do about a frame, as a value.
pub enum ActModel {
    Nothing,
    Button { button: u8, down: bool },
    Scroll { dx: i32, dy: i32 },
    Key { usage: u16, down: bool },
    Text { text: Seq<char>, down: bool },
    Move { x: int, y: int },
    Conceal,
    Release,
    Screen { width: i32, height: i32, version: Option<Seq<char>> },
    Close,
}

impl View for Act {
    type V = ActModel;

    open spec fn view(&self) -> ActModel {
        match *self {
            Act::Nothing => ActModel::Nothing,
            Act::Button { button, down } => ActModel::Button { button, down },
            Act::Scroll { dx, dy } => ActModel::Scroll { dx, dy },
            Act::Key { usage, down } => ActModel::Key { usage, down },
            Act::Text { text, down } => ActModel::Text { text: text@, down },
            Act::Move { x, y } => ActModel::Move { x: x as int, y: y as int },
            Act::Conceal => ActModel::Conceal,
            Act::Release => ActModel::Release,
            Act::Screen { width, height, version } => ActModel::Screen {
                width,
                height,
                version: match version {
                    Some(v) => Some(v@),
                    None => None,
                },
            },
            Act::Close => ActModel::Close,
        }
    }
}

/// A reported length, or 0 where it is no coordinate.
pub open spec fn length_of(v: u32) -> i32 {
    if v <= i32::MAX {
        v as i32
    } else {
        0
    }
}

/// What a peer's greeting asks for. Mixed protocols fail here, loudly, and not at the first
/// garbled paste. A screen without a size says nothing. The version stands in the name,
/// behind a tab; a name without one leaves it unknown.
pub open spec fn greeted(version: u16, name: Seq<char>, width: u32, height: u32) -> ActModel {
    if version != crate::PROTOCOL_VERSION {
        ActModel::Close
    } else if length_of(width) > 0 && length_of(height) > 0 {
        ActModel::Screen {
            width: length_of(width),
            height: length_of(height),
            version: match text::cut(name, "\t"@) {
                Some((_, v)) => Some(v),
                None => None,
            },
        }
    } else {
        ActModel::Nothing
    }
}

/// What a frame from a reliable stream asks for.
pub open spec fn reliable_says(m: FrameModel) -> ActModel {
    match m {
        FrameModel::Key(k) => if keys::by_position(
            LayoutPolicy::Auto,
            k.physical,
            k.text,
            k.modifiers,
        ) {
            ActModel::Key { usage: k.physical.0, down: k.press != crate::event::Press::Up }
        } else {
            ActModel::Text { text: k.text, down: k.press != crate::event::Press::Up }
        },
        FrameModel::Button(b) => ActModel::Button {
            button: b.button.code(),
            down: b.press != crate::event::Press::Up,
        },
        FrameModel::Scroll(s) => ActModel::Scroll { dx: s.dx, dy: s.dy },
        FrameModel::Hello { version, name, width, height, .. } => greeted(
            version,
            name,
            width,
            height,
        ),
        FrameModel::Leave { .. } => ActModel::Conceal,
        FrameModel::ReleaseAll { .. } => ActModel::Release,
        _ => ActModel::Nothing,
    }
}

/// What a datagram asks for, on a machine with these displays.
///
/// The sender's coordinates are its own, so the pointer is put onto a real display here: a
/// mismatched resolution can never strand it somewhere invisible. Keys travel reliably, and
/// one that arrives as a datagram is not acted on.
pub open spec fn datagram_says(m: FrameModel, desktop: Desktop) -> ActModel {
    match m {
        FrameModel::Leave { .. } => ActModel::Conceal,
        FrameModel::Motion(motion) => {
            let (x, y) = screen::onto_display(
                desktop.displays@,
                motion.cursor.x as int / 256,
                motion.cursor.y as int / 256,
            );
            ActModel::Move { x, y }
        },
        FrameModel::Button(b) => ActModel::Button {
            button: b.button.code(),
            down: b.press != crate::event::Press::Up,
        },
        FrameModel::Scroll(s) => ActModel::Scroll { dx: s.dx, dy: s.dy },
        _ => ActModel::Nothing,
    }
}

fn length(v: u32) -> (n: i32)
    ensures
        n == length_of(v),
{
    if v <= i32::MAX as u32 {
        v as i32
    } else {
        0
    }
}

/// Whether a peer that greets with this version speaks another protocol.
pub fn hello_speaks_another_protocol(theirs: u16) -> (b: bool)
    ensures
        b == (theirs != crate::PROTOCOL_VERSION),
{
    theirs != crate::PROTOCOL_VERSION
}

fn greet(hello: &Hello) -> (act: Act)
    ensures
        act@ == greeted(hello.version, hello.name@, hello.width, hello.height),
{
    if hello_speaks_another_protocol(hello.version) {
        return Act::Close;
    }
    let width: i32 = length(hello.width);
    let height: i32 = length(hello.height);
    if width > 0 && height > 0 {
        let name = text::chars_of(hello.name.as_str());
        let version = match text::cut_once(name.as_slice(), "\t") {
            Some((_, v)) => Some(text::string_of(v.as_slice())),
            None => None,
        };
        Act::Screen { width, height, version }
    } else {
        Act::Nothing
    }
}

/// Decide what a frame from a reliable stream asks for.
///
/// A command chord replays the key by its position, so that a shortcut stays the same
/// shortcut on any layout; plain text replays the character.
pub fn receive_reliable(frame: &Frame) -> (act: Act)
    ensures
        act@ == reliable_says(frame@),
{
    match frame {
        Frame::Key(k) => {
            let down = k.press.is_down();
            match keys::resolve_replay(LayoutPolicy::Auto, k.physical, k.logical, k.modifiers) {
                Replay::Physical(key) => Act::Key { usage: key.0, down },
                Replay::Text(t) => Act::Text { text: t.as_str().to_owned(), down },
            }
        },
        Frame::Button(b) => Act::Button { button: b.button.to_u8(), down: b.press.is_down() },
        Frame::Scroll(s) => Act::Scroll { dx: s.dx, dy: s.dy },
        Frame::Hello(hello) => greet(hello),
        Frame::Leave { .. } => Act::Conceal,
        Frame::ReleaseAll { .. } => Act::Release,
        _ => Act::Nothing,
    }
}

/// Decide what a datagram asks for.
pub fn receive_datagram(frame: &Frame, desktop: &Desktop) -> (act: Act)
    requires
        desktop.edges_fit(),
    ensures
        act@ == datagram_says(frame@, *desktop),
{
    match frame {
        Frame::Leave { .. } => Act::Conceal,
        Frame::Motion(motion) => {
            let (px, py) = motion.cursor.to_px();
            let (x, y) = desktop.clamp_onto_a_display(px, py);
            Act::Move { x, y }
        },
        Frame::Button(b) => Act::Button { button: b.button.to_u8(), down: b.press.is_down() },
        Frame::Scroll(s) => Act::Scroll { dx: s.dx, dy: s.dy },
        _ => Act::Nothing,
    }
}

/// The pointer is never put where no one can see it: on a machine with a display, wherever
/// the sender says, it lands on a display.
pub proof fn received_motion_lands_on_a_display(motion: Motion, desktop: Desktop, i: int)
    requires
        0 <= i < desktop.displays@.len(),
        !desktop.displays@[i].pixels.void(),
    ensures
        datagram_says(FrameModel::Motion(motion), desktop) matches ActModel::Move { x, y }
            && screen::on_display(desktop.displays@, x, y),
{
    screen::clamping_lands_on_a_display(
        desktop.displays@,
        i,
        motion.cursor.x as int / 256,
        motion.cursor.y as int / 256,
    );
}

/// A machine that loses the pointer lets go of every held key, whichever way it is told, and
/// so does one that is asked to.
pub proof fn leaving_releases_everything(seq: u32, desktop: Desktop)
    ensures
        reliable_says(FrameModel::Leave { seq }) is Conceal,
        datagram_says(FrameModel::Leave { seq }, desktop) is Conceal,
        reliable_says(FrameModel::ReleaseAll { seq }) is Release,
{
}

/// Only a peer of the same protocol gets anywhere: a greeting closes the link just where
/// its version is another.
pub proof fn mixed_protocols_fail_at_the_greeting(
    version: u16,
    name: Seq<char>,
    width: u32,
    height: u32,
)
    ensures
        greeted(version, name, width, height) is Close <==> version != crate::PROTOCOL_VERSION,
{
}

/// What tells a peer how large this machine's screen is.
pub open spec fn announced(displays: Seq<Display>, version: Seq<char>) -> FrameModel {
    let (width, height) = match screen::hull(displays) {
        Some(s) => (s.right - s.left, s.bottom - s.top),
        None => (0, 0),
    };
    FrameModel::Hello {
        version: crate::PROTOCOL_VERSION,
        peer: Seq::new(16, |i: int| 0u8),
        name: "\t"@ + version,
        width: width as u32,
        height: height as u32,
        scale: match screen::main_display(displays) {
            Some(d) => d.scale,
            None => 256,
        },
        policy: LayoutPolicy::Auto,
    }
}

/// The frame that tells a peer how large this machine's screen is. The name is this
/// machine's version behind a tab.
///
/// A boundary in the wrong place cannot be told from a pointer that refuses to leave, so
/// the size is detected and exchanged, never configured.
pub fn announce_geometry(desktop: &Desktop, version: &str) -> (frame: Frame)
    requires
        desktop.wf(),
    ensures
        frame@ == announced(desktop.displays@, version@),
{
    let bb = desktop.bounding_box();
    let scale: u32 = match desktop.primary() {
        Some(d) => d.scale,
        None => 256,
    };
    let width: u32 = if bb.width > 0 {
        bb.width as u32
    } else {
        0
    };
    let height: u32 = if bb.height > 0 {
        bb.height as u32
    } else {
        0
    };
    let peer = PeerId::nil();
    proof {
        assert(peer.0@ =~= Seq::new(16, |i: int| 0u8));
    }
    Frame::Hello(
        Hello {
            version: crate::PROTOCOL_VERSION,
            peer,
            name: text::plus(String::from_str("\t"), version),
            width,
            height,
            scale,
            layout_policy: LayoutPolicy::Auto,
        },
    )
}

// ---------------------------------------------------------------- from one machine to another
/// What was done on one machine is done on the other: a click presses the same button the same
/// way, and scrolling goes the same way in both directions.
pub proof fn input_is_done_as_it_was_captured(e: ObservedModel, seq: u32)
    ensures
        e matches ObservedModel::Button { button, down } ==> (1 <= button <= 255 ==> (
        forward::event_frame(e, seq) matches Some(f) && reliable_says(f) matches ActModel::Button {
            button: b,
            down: d,
        } && b == button && d == down)),
        e matches ObservedModel::Scroll { dx, dy } ==> (i32::MIN <= dx <= i32::MAX && i32::MIN <= dy
            <= i32::MAX ==> (forward::event_frame(e, seq) matches Some(f) && reliable_says(f)
            matches ActModel::Scroll { dx: x, dy: y } && x == dx && y == dy)),
{
    forward::what_was_captured_is_what_is_sent(e, seq);
    if let ObservedModel::Button { button, .. } = e {
        event::inputs_have_their_numbers(button as u8);
    }
}

/// A shortcut is done by the key that was pressed, and typing by the text that it made: under
/// Ctrl, Gui or the left Alt the same key goes the same way, and without them the same text
/// does. A key that makes no text goes as the key, and text from an unknown key as the text.
pub proof fn keys_are_done_as_they_were_captured(e: ObservedModel, seq: u32)
    requires
        e is Key,
    ensures
        ({
            let (text, physical, m, down) = (e->text, e->physical, e->modifiers.0, e->Key_down);
            let command = m & 0x01 != 0 || m & 0x10 != 0 || m & 0x08 != 0 || m & 0x80 != 0 || m & 0x04
                != 0;
            forward::event_frame(e, seq) matches Some(f) && {
                &&& text.len() == 0 || (physical.0 != 0 && command) ==> (reliable_says(f)
                    matches ActModel::Key { usage, down: d } && usage == physical.0 && d == down)
                &&& text.len() > 0 && (physical.0 == 0 || !command) ==> (reliable_says(f)
                    matches ActModel::Text { text: t, down: d } && t == text && d == down)
            }
        }),
{
    forward::what_was_captured_is_what_is_sent(e, seq);
    keys::these_modifiers_make_a_chord(e->modifiers);
}

/// The pointer is put where it was sent: on a pixel that some display has, exactly there,
/// sideways by its `x` and downwards by its `y`.
pub proof fn the_pointer_is_put_where_it_was_sent(seq: u32, x: int, y: int, desktop: Desktop)
    requires
        0 <= x < 0x80_0000,
        0 <= y < 0x80_0000,
        screen::on_display(desktop.displays@, x, y),
    ensures
        datagram_says(forward::motion_frame(seq, x, y), desktop) matches ActModel::Move { x: px, y: py }
            && px == x && py == y,
{
    event::subpixels_keep_the_pixel(x);
    event::subpixels_keep_the_pixel(y);
}

/// Any press but a release holds what it presses, a repeat too.
pub proof fn only_a_release_lets_go(b: event::ButtonEvent, k: event::KeyModel)
    ensures
        reliable_says(FrameModel::Button(b)) matches ActModel::Button { down, .. } && down == !(
        b.press is Up),
        reliable_says(FrameModel::Key(k)) matches ActModel::Key { down, .. } ==> down == !(
        k.press is Up),
        reliable_says(FrameModel::Key(k)) matches ActModel::Text { down, .. } ==> down == !(
        k.press is Up),
        reliable_says(FrameModel::Key(k)) is Key || reliable_says(FrameModel::Key(k)) is Text,
{
}

/// Datagrams carry no keys: whatever arrives as one presses none.
pub proof fn no_key_is_pressed_by_a_datagram(m: FrameModel, desktop: Desktop)
    ensures
        !(datagram_says(m, desktop) is Key),
        !(datagram_says(m, desktop) is Text),
        !(datagram_says(m, desktop) is Close),
{
}

/// What one machine announces, the other understands: the width as the width and the height as
/// the height of all its displays together, and the version it runs.
pub proof fn an_announced_screen_is_understood(displays: Seq<Display>, version: Seq<char>)
    requires
        screen::hull(displays) is Some,
        0 < screen::hull(displays)->0.right - screen::hull(displays)->0.left <= i32::MAX,
        0 < screen::hull(displays)->0.bottom - screen::hull(displays)->0.top <= i32::MAX,
    ensures
        reliable_says(announced(displays, version)) matches ActModel::Screen {
            width,
            height,
            version: v,
        } && {
            &&& width == screen::hull(displays)->0.right - screen::hull(displays)->0.left
            &&& height == screen::hull(displays)->0.bottom - screen::hull(displays)->0.top
            &&& v == Some(version)
        },
{
    reveal_strlit("\t");
    let name = "\t"@ + version;
    assert(text::cut(name, "\t"@) == Some((Seq::<char>::empty(), version))) by {
        assert(text::stands_at(name, "\t"@, 0)) by {
            assert(name.subrange(0, 1) =~= "\t"@);
        }
        assert(text::found(name, "\t"@, 0) == Some(0int));
        assert(name.take(0) =~= Seq::empty());
        assert(name.skip(1) =~= version);
    }
}

/// A greeting of the same protocol tells the sizes it carries, each as itself, and the version
/// behind the tab in its name.
pub proof fn a_greeting_tells_what_it_carries(name: Seq<char>, width: u32, height: u32)
    ensures
        ({
            let act = greeted(crate::PROTOCOL_VERSION, name, width, height);
            &&& 0 < width <= i32::MAX && 0 < height <= i32::MAX ==> (act matches ActModel::Screen {
                width: w,
                height: h,
                version,
            } && w == width && h == height && (version is None <==> text::cut(name, "\t"@) is None))
            &&& !(0 < width <= i32::MAX && 0 < height <= i32::MAX) ==> act is Nothing
        }),
{
}

/// What is to be done is told as it is, part by part.
pub proof fn what_is_to_be_done_is_told_as_it_is(a: Act)
    ensures
        match (a, a@) {
            (Act::Button { button, down }, ActModel::Button { button: b, down: d }) => b == button
                && d == down,
            (Act::Scroll { dx, dy }, ActModel::Scroll { dx: x, dy: y }) => x == dx && y == dy,
            (Act::Key { usage, down }, ActModel::Key { usage: u, down: d }) => u == usage && d
                == down,
            (Act::Text { text, down }, ActModel::Text { text: t, down: d }) => t == text@ && d
                == down,
            (Act::Move { x, y }, ActModel::Move { x: mx, y: my }) => mx == x && my == y,
            (
                Act::Screen { width, height, version },
                ActModel::Screen { width: w, height: h, version: v },
            ) => w == width && h == height && (v is None <==> version is None) && (
            version matches Some(s) ==> v == Some(s@)),
            (Act::Nothing, ActModel::Nothing) => true,
            (Act::Conceal, ActModel::Conceal) => true,
            (Act::Release, ActModel::Release) => true,
            (Act::Close, ActModel::Close) => true,
            _ => false,
        },
{
}

/// The frames that ask for nothing here do nothing, and nothing but motion moves the pointer.
pub proof fn other_frames_do_nothing(m: FrameModel, desktop: Desktop)
    ensures
        m is Enter || m is HelloAck || m is KeyStateDigest || m is KeyStateQuery || m is KeyStateFull
            || m is Ping || m is Pong || m is Motion ==> reliable_says(m) is Nothing,
        m is Enter || m is Hello || m is HelloAck || m is Key || m is ReleaseAll
            || m is KeyStateDigest || m is KeyStateQuery || m is KeyStateFull || m is Ping || m is Pong
            ==> datagram_says(m, desktop) is Nothing,
        datagram_says(m, desktop) is Move <==> m is Motion,
        m matches FrameModel::Button(_) ==> datagram_says(m, desktop) == reliable_says(m),
        m matches FrameModel::Scroll(_) ==> datagram_says(m, desktop) == reliable_says(m),
{
}

/// A machine without a display announces no screen, in the protocol that it speaks, and the
/// other takes nothing from it.
pub proof fn a_machine_without_a_display_announces_none(version: Seq<char>)
    ensures
        announced(Seq::empty(), version) matches FrameModel::Hello { version: v, width, height, scale, .. }
            && v == crate::PROTOCOL_VERSION && width == 0 && height == 0 && scale == 256,
        reliable_says(announced(Seq::empty(), version)) is Nothing,
{
}

} // verus!
