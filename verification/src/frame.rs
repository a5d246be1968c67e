//! The frame enum and its codec.
//!
//! Datagrams (unreliable, unordered) carry [`Frame::Motion`] only: motion is
//! self-correcting, so loss costs a skipped sample and nothing else. Reliable streams
//! carry everything else: a lost button-up is a stuck drag, a lost key-up a stuck
//! modifier, and none of these can be resynchronised from a later packet.
//!
//! On a stream, each frame is prefixed with a `u32` big-endian length. Datagrams are
//! already message-framed and carry the frame bare.
use crate::event::{
    Button, ButtonEvent, KeyEvent, KeyModel, Motion, Point, Press, ScrollEvent, ScrollUnit,
};
use crate::keys::{LayoutPolicy, Modifiers};
use crate::state::KeyState;
use crate::wire::{be_u32, Reader, Writer};
use crate::{event, text, wire, Error, PROTOCOL_VERSION};
use vstd::prelude::*;
use vstd::string::*;
use vstd::utf8::*;

verus! {

/// Largest frame accepted from a peer.
///
/// A bound is required before any allocation is sized from peer-supplied data; otherwise
/// a single bad length prefix is a remote out-of-memory.
pub const MAX_FRAME_LEN: usize = 65536;

/// A stable, random identifier for a peer, so a machine keeps its identity across
/// hostname changes and DHCP leases.
#[derive(Clone, Copy, PartialEq, Eq, PartialOrd, Ord, Hash, Debug)]
pub struct PeerId(pub [u8; 16]);

impl PeerId {
    #[must_use]
    pub fn nil() -> (p: PeerId)
        ensures
            forall|i: int| 0 <= i < 16 ==> p.0@[i] == 0,
    {
        PeerId([0; 16])
    }

    #[must_use]
    pub fn is_nil(&self) -> (b: bool)
        ensures
            b == (forall|i: int| 0 <= i < 16 ==> self.0@[i] == 0),
    {
        let mut i: usize = 0;
        while i < 16
            invariant
                i <= 16,
                forall|k: int| 0 <= k < i ==> self.0@[k] == 0,
            decreases 16 - i,
        {
            if self.0[i] != 0 {
                return false;
            }
            i = i + 1;
        }
        true
    }

    /// The first four bytes in hexadecimal: the form shown in logs and pages.
    pub open spec fn short(self) -> Seq<char> {
        text::hex_of(self.0@.take(4))
    }

    /// Short form for logs and pages.
    #[must_use]
    pub fn to_short_string(&self) -> (s: String)
        ensures
            s@ == self.short(),
    {
        let (start, _) = self.0.as_slice().split_at(4);
        proof {
            assert(start@ =~= self.0@.take(4));
        }
        text::hex(start)
    }

    /// The identifier in full, for a log.
    #[must_use]
    pub fn describe(&self) -> (s: String)
        ensures
            s@ == "PeerId("@ + text::hex_of(self.0@) + ")"@,
    {
        let full = text::hex(self.0.as_slice());
        text::plus(text::plus(String::from_str("PeerId("), full.as_str()), ")")
    }

    /// Whether two identifiers are the same.
    #[must_use]
    pub fn same(&self, other: &PeerId) -> (b: bool)
        ensures
            b == (self == other),
    {
        let mut i: usize = 0;
        while i < 16
            invariant
                i <= 16,
                forall|k: int| 0 <= k < i ==> self.0@[k] == other.0@[k],
            decreases 16 - i,
        {
            if self.0[i] != other.0[i] {
                return false;
            }
            i = i + 1;
        }
        proof {
            assert(self.0 =~= other.0);
        }
        true
    }
}

/// Which edge of a screen the pointer crossed.
#[derive(Clone, Copy, PartialEq, Eq, Debug, Structural)]
pub enum Edge {
    Left,
    Right,
    Top,
    Bottom,
}

impl Edge {
    /// The edge's number on the wire.
    pub open spec fn code(self) -> u8 {
        match self {
            Edge::Left => 0,
            Edge::Right => 1,
            Edge::Top => 2,
            Edge::Bottom => 3,
        }
    }

    /// The edge a number stands for, if any.
    pub open spec fn of_code(v: u8) -> Option<Edge> {
        match v {
            0 => Some(Edge::Left),
            1 => Some(Edge::Right),
            2 => Some(Edge::Top),
            3 => Some(Edge::Bottom),
            _ => None,
        }
    }

    /// An edge taken off the front of `s`.
    pub open spec fn get_edge(s: Seq<u8>) -> Result<(Edge, Seq<u8>), Error> {
        match wire::get_uint(s, 1) {
            Err(e) => Err(e),
            Ok((v, s)) => match Edge::of_code(v as u8) {
                Some(it) => Ok((it, s)),
                None => Err(Error::UnknownVariant("Edge")),
            },
        }
    }

    pub(crate) fn decode(r: &mut Reader<'_>) -> (v: Result<Edge, Error>)
        ensures
            match Edge::get_edge(old(r)@) {
                Ok((it, rest)) => v == Ok::<Edge, Error>(it) && final(r)@ == rest,
                Err(e) => v == Err::<Edge, Error>(e),
            },
    {
        let v: u8 = r.u8()?;
        Edge::from_u8(v)
    }

    fn to_u8(self) -> (v: u8)
        ensures
            v == self.code(),
    {
        match self {
            Edge::Left => 0,
            Edge::Right => 1,
            Edge::Top => 2,
            Edge::Bottom => 3,
        }
    }

    fn from_u8(v: u8) -> (e: Result<Edge, Error>)
        ensures
            match Edge::of_code(v) {
                Some(it) => e == Ok::<Edge, Error>(it),
                None => e == Err::<Edge, Error>(Error::UnknownVariant("Edge")),
            },
    {
        match v {
            0 => Ok(Edge::Left),
            1 => Ok(Edge::Right),
            2 => Ok(Edge::Top),
            3 => Ok(Edge::Bottom),
            _ => Err(Error::UnknownVariant("Edge")),
        }
    }

    /// The edge facing this one.
    pub open spec fn facing(self) -> Edge {
        match self {
            Edge::Left => Edge::Right,
            Edge::Right => Edge::Left,
            Edge::Top => Edge::Bottom,
            Edge::Bottom => Edge::Top,
        }
    }

    /// The edge the pointer arrives at, given the edge it departed from.
    #[must_use]
    pub fn opposite(self) -> (e: Edge)
        ensures
            e == self.facing(),
    {
        match self {
            Edge::Left => Edge::Right,
            Edge::Right => Edge::Left,
            Edge::Top => Edge::Bottom,
            Edge::Bottom => Edge::Top,
        }
    }
}

/// Edges face each other in pairs.
pub proof fn edges_face_each_other(e: Edge)
    ensures
        e.facing().facing() == e,
        e.facing() != e,
{
}

/// Opening frame, sent by both sides.
#[derive(Clone, PartialEq, Eq, Debug)]
pub struct Hello {
    pub version: u16,
    pub peer: PeerId,
    /// Human-readable screen name, as shown in the layout.
    pub name: String,
    /// Screen size in physical pixels.
    pub width: u32,
    pub height: u32,
    /// Backing scale in 1/256 units (256 = 1.0x, 512 = 2.0x Retina).
    pub scale: u32,
    /// How this peer wants key events reproduced to it. The receiver's preference wins,
    /// because it is the machine whose layout is in question.
    pub layout_policy: LayoutPolicy,
}

impl Hello {
    /// Reject a peer speaking a different protocol version.
    pub fn check_version(&self) -> (r: Result<(), Error>)
        ensures
            r == (if self.version == PROTOCOL_VERSION {
                Ok::<(), Error>(())
            } else {
                Err::<(), Error>(
                    Error::VersionMismatch { ours: PROTOCOL_VERSION, theirs: self.version },
                )
            }),
    {
        if self.version == PROTOCOL_VERSION {
            Ok(())
        } else {
            Err(Error::VersionMismatch { ours: PROTOCOL_VERSION, theirs: self.version })
        }
    }
}

/// Response to [`Hello`].
#[derive(Clone, PartialEq, Eq, Debug)]
pub struct HelloAck {
    pub version: u16,
    pub peer: PeerId,
    pub name: String,
    /// `false` when the peer is known but not paired; the reason is in `message`.
    pub accepted: bool,
    pub message: String,
}

/// Focus entering this screen.
#[derive(Clone, Copy, PartialEq, Eq, Debug)]
pub struct Enter {
    pub seq: u32,
    /// Where to place the pointer on arrival.
    pub cursor: Point,
    /// The edge it arrives at.
    pub edge: Edge,
    /// The sender's authoritative key state at the moment of handover, so the receiver
    /// starts from a known state. Crossing an edge mid-chord is the single most common
    /// way modifiers get stuck.
    pub keys: KeyState,
}

/// A protocol message.
#[derive(Clone, PartialEq, Eq, Debug)]
pub enum Frame {
    Hello(Hello),
    HelloAck(HelloAck),
    /// Pointer motion. Datagram carrier.
    Motion(Motion),
    Button(ButtonEvent),
    Scroll(ScrollEvent),
    Key(KeyEvent),
    /// Focus enters the receiving screen.
    Enter(Enter),
    /// Focus leaves the receiving screen. The receiver releases every held key.
    Leave { seq: u32 },
    /// Unconditional "release everything". Idempotent, so it is safe to send liberally.
    ReleaseAll { seq: u32 },
    /// Heartbeat carrying a fingerprint of the sender's held keys.
    KeyStateDigest { seq: u32, digest: u64, count: u16 },
    /// Receiver asks for the full state after a digest mismatch.
    KeyStateQuery { seq: u32 },
    /// Authoritative full key state, used to reconcile.
    KeyStateFull { seq: u32, state: KeyState },
    /// Liveness probe. `t_send_us` is the sender's clock in microseconds.
    Ping { nonce: u64, t_send_us: u64 },
    /// Probe reply, with both timestamps, so the initiator can derive round-trip time and
    /// clock offset from a single exchange.
    Pong { nonce: u64, t_send_us: u64, t_echo_us: u64 },
}

// ---------------------------------------------------------------- the model of a frame
/// What a frame says, with text as characters and identifiers as bytes.
pub enum FrameModel {
    Hello {
        version: u16,
        peer: Seq<u8>,
        name: Seq<char>,
        width: u32,
        height: u32,
        scale: u32,
        policy: LayoutPolicy,
    },
    HelloAck {
        version: u16,
        peer: Seq<u8>,
        name: Seq<char>,
        accepted: bool,
        message: Seq<char>,
    },
    Motion(Motion),
    Button(ButtonEvent),
    Scroll(ScrollEvent),
    Key(KeyModel),
    Enter { seq: u32, cursor: Point, edge: Edge, words: Seq<u64>, mask: u16 },
    Leave { seq: u32 },
    ReleaseAll { seq: u32 },
    KeyStateDigest { seq: u32, digest: u64, count: u16 },
    KeyStateQuery { seq: u32 },
    KeyStateFull { seq: u32, words: Seq<u64>, mask: u16 },
    Ping { nonce: u64, t_send_us: u64 },
    Pong { nonce: u64, t_send_us: u64, t_echo_us: u64 },
}

impl View for Frame {
    type V = FrameModel;

    open spec fn view(&self) -> FrameModel {
        match *self {
            Frame::Hello(h) => FrameModel::Hello {
                version: h.version,
                peer: h.peer.0@,
                name: h.name@,
                width: h.width,
                height: h.height,
                scale: h.scale,
                policy: h.layout_policy,
            },
            Frame::HelloAck(h) => FrameModel::HelloAck {
                version: h.version,
                peer: h.peer.0@,
                name: h.name@,
                accepted: h.accepted,
                message: h.message@,
            },
            Frame::Motion(m) => FrameModel::Motion(m),
            Frame::Button(b) => FrameModel::Button(b),
            Frame::Scroll(s) => FrameModel::Scroll(s),
            Frame::Key(k) => FrameModel::Key(k@),
            Frame::Enter(e) => FrameModel::Enter {
                seq: e.seq,
                cursor: e.cursor,
                edge: e.edge,
                words: e.keys.key_words(),
                mask: e.keys.mask().0,
            },
            Frame::Leave { seq } => FrameModel::Leave { seq },
            Frame::ReleaseAll { seq } => FrameModel::ReleaseAll { seq },
            Frame::KeyStateDigest { seq, digest, count } => FrameModel::KeyStateDigest {
                seq,
                digest,
                count,
            },
            Frame::KeyStateQuery { seq } => FrameModel::KeyStateQuery { seq },
            Frame::KeyStateFull { seq, state } => FrameModel::KeyStateFull {
                seq,
                words: state.key_words(),
                mask: state.mask().0,
            },
            Frame::Ping { nonce, t_send_us } => FrameModel::Ping { nonce, t_send_us },
            Frame::Pong { nonce, t_send_us, t_echo_us } => FrameModel::Pong {
                nonce,
                t_send_us,
                t_echo_us,
            },
        }
    }
}

/// `n` bytes of a number.
pub open spec fn uint(v: int, n: nat) -> Seq<u8> {
    wire::be_bytes(v as nat, n)
}

/// Four words of held keys and a modifier mask.
pub open spec fn state_bytes(words: Seq<u64>, mask: u16) -> Seq<u8> {
    uint(words[0] as int, 8) + (uint(words[1] as int, 8) + (uint(words[2] as int, 8) + (uint(
        words[3] as int,
        8,
    ) + uint(mask as int, 2))))
}

/// A flag on the wire.
pub open spec fn flag(b: bool) -> int {
    if b {
        1
    } else {
        0
    }
}

impl FrameModel {
    /// The kind byte that opens each frame.
    pub open spec fn kind(self) -> int {
        match self {
            FrameModel::Hello { .. } => 0x01,
            FrameModel::HelloAck { .. } => 0x02,
            FrameModel::Motion(_) => 0x10,
            FrameModel::Button(_) => 0x11,
            FrameModel::Scroll(_) => 0x12,
            FrameModel::Key(_) => 0x13,
            FrameModel::Enter { .. } => 0x20,
            FrameModel::Leave { .. } => 0x21,
            FrameModel::ReleaseAll { .. } => 0x22,
            FrameModel::KeyStateDigest { .. } => 0x30,
            FrameModel::KeyStateQuery { .. } => 0x31,
            FrameModel::KeyStateFull { .. } => 0x32,
            FrameModel::Ping { .. } => 0x40,
            FrameModel::Pong { .. } => 0x41,
        }
    }

    /// The fields that follow the kind byte.
    pub open spec fn fields(self) -> Seq<u8> {
        match self {
            FrameModel::Hello { version, peer, name, width, height, scale, policy } => uint(
                version as int,
                2,
            ) + (peer + (wire::string_bytes(name) + (uint(width as int, 4) + (uint(height as int, 4)
                + (uint(scale as int, 4) + uint(policy.code() as int, 1)))))),
            FrameModel::HelloAck { version, peer, name, accepted, message } => uint(
                version as int,
                2,
            ) + (peer + (wire::string_bytes(name) + (uint(flag(accepted), 1) + wire::string_bytes(
                message,
            )))),
            FrameModel::Motion(m) => uint(m.seq as int, 4) + (m.cursor.point_bytes() + (uint(
                wire::bits32(m.travel_x) as int,
                4,
            ) + uint(wire::bits32(m.travel_y) as int, 4))),
            FrameModel::Button(b) => uint(b.seq as int, 4) + (uint(b.button.code() as int, 1) + (
            uint(b.press.code() as int, 1) + uint(b.modifiers.0 as int, 2))),
            FrameModel::Scroll(s) => uint(s.seq as int, 4) + (uint(wire::bits32(s.dx) as int, 4) + (
            uint(wire::bits32(s.dy) as int, 4) + (uint(s.unit.code() as int, 1) + uint(
                flag(s.end_of_gesture),
                1,
            )))),
            FrameModel::Key(k) => k.key_bytes(),
            FrameModel::Enter { seq, cursor, edge, words, mask } => uint(seq as int, 4) + (
            cursor.point_bytes() + (uint(edge.code() as int, 1) + state_bytes(words, mask))),
            FrameModel::Leave { seq } => uint(seq as int, 4),
            FrameModel::ReleaseAll { seq } => uint(seq as int, 4),
            FrameModel::KeyStateDigest { seq, digest, count } => uint(seq as int, 4) + (uint(
                digest as int,
                8,
            ) + uint(count as int, 2)),
            FrameModel::KeyStateQuery { seq } => uint(seq as int, 4),
            FrameModel::KeyStateFull { seq, words, mask } => uint(seq as int, 4) + state_bytes(
                words,
                mask,
            ),
            FrameModel::Ping { nonce, t_send_us } => uint(nonce as int, 8) + uint(
                t_send_us as int,
                8,
            ),
            FrameModel::Pong { nonce, t_send_us, t_echo_us } => uint(nonce as int, 8) + (uint(
                t_send_us as int,
                8,
            ) + uint(t_echo_us as int, 8)),
        }
    }

    /// The frame on the wire: its kind byte and its fields.
    pub open spec fn frame_bytes(self) -> Seq<u8> {
        uint(self.kind(), 1) + self.fields()
    }

    /// Whether every string of the frame fits its length prefix.
    pub open spec fn encodable(self) -> bool {
        match self {
            FrameModel::Hello { name, .. } => encode_utf8(name).len() < 0x1_0000,
            FrameModel::HelloAck { name, message, .. } => encode_utf8(name).len() < 0x1_0000
                && encode_utf8(message).len() < 0x1_0000,
            _ => true,
        }
    }

    /// What is written of a frame that is not [`Self::encodable`]: everything before the
    /// first string that does not fit.
    pub open spec fn partial_bytes(self) -> Seq<u8> {
        match self {
            FrameModel::Hello { version, peer, .. } => uint(0x01, 1) + (uint(version as int, 2)
                + peer),
            FrameModel::HelloAck { version, peer, name, accepted, .. } => uint(0x02, 1) + (uint(
                version as int,
                2,
            ) + (peer + (if encode_utf8(name).len() < 0x1_0000 {
                wire::string_bytes(name) + uint(flag(accepted), 1)
            } else {
                Seq::empty()
            }))),
            _ => Seq::empty(),
        }
    }
}

impl Frame {
    /// Whether this frame may travel on an unreliable datagram.
    ///
    /// Only motion qualifies, because only motion can reconstruct itself from the next
    /// packet. Everything else would be silently lost.
    #[must_use]
    pub fn is_datagram_safe(&self) -> (b: bool)
        ensures
            b == (self is Motion),
    {
        match self {
            Frame::Motion(_) => true,
            _ => false,
        }
    }

    /// Encode into `buf`, appending. Reuse one `Vec` to keep the hot path allocation-free.
    ///
    /// A frame with a string too long for its prefix is refused; what was written before
    /// that string stays in `buf`.
    pub fn encode(&self, buf: &mut Vec<u8>) -> (r: Result<(), Error>)
        ensures
            r == (if self@.encodable() {
                Ok::<(), Error>(())
            } else {
                Err::<(), Error>(Error::TooLong)
            }),
            final(buf)@ == old(buf)@ + (if self@.encodable() {
                self@.frame_bytes()
            } else {
                self@.partial_bytes()
            }),
    {
        let ghost before = buf@;
        let ghost model = self@;
        let mut w = Writer::new(buf);
        match self {
            Frame::Hello(h) => {
                w.u8(0x01);
                w.u16(h.version);
                w.bytes(&h.peer.0);
                proof {
                    assert(w.buf@ =~= before + (uint(0x01, 1) + (uint(h.version as int, 2)
                        + h.peer.0@)));
                }
                if let Err(e) = w.string(h.name.as_str()) {
                    return Err(e);
                }
                w.u32(h.width);
                w.u32(h.height);
                w.u32(h.scale);
                w.u8(h.layout_policy.to_u8());
            },
            Frame::HelloAck(h) => {
                w.u8(0x02);
                w.u16(h.version);
                w.bytes(&h.peer.0);
                proof {
                    assert(w.buf@ =~= before + (uint(0x02, 1) + (uint(h.version as int, 2) + (
                    h.peer.0@ + Seq::empty()))));
                }
                if let Err(e) = w.string(h.name.as_str()) {
                    return Err(e);
                }
                w.u8(if h.accepted {
                    1
                } else {
                    0
                });
                proof {
                    assert(w.buf@ =~= before + (uint(0x02, 1) + (uint(h.version as int, 2) + (
                    h.peer.0@ + (wire::string_bytes(h.name@) + uint(flag(h.accepted), 1))))));
                }
                if let Err(e) = w.string(h.message.as_str()) {
                    return Err(e);
                }
            },
            Frame::Motion(m) => {
                w.u8(0x10);
                w.u32(m.seq);
                m.cursor.encode(&mut w);
                w.i32(m.travel_x);
                w.i32(m.travel_y);
            },
            Frame::Button(b) => {
                w.u8(0x11);
                w.u32(b.seq);
                w.u8(b.button.to_u8());
                w.u8(b.press.to_u8());
                w.u16(b.modifiers.0);
            },
            Frame::Scroll(s) => {
                w.u8(0x12);
                w.u32(s.seq);
                w.i32(s.dx);
                w.i32(s.dy);
                w.u8(s.unit.to_u8());
                w.u8(if s.end_of_gesture {
                    1
                } else {
                    0
                });
            },
            Frame::Key(k) => {
                w.u8(0x13);
                k.encode(&mut w);
            },
            Frame::Enter(e) => {
                w.u8(0x20);
                w.u32(e.seq);
                e.cursor.encode(&mut w);
                w.u8(e.edge.to_u8());
                encode_key_state(&mut w, &e.keys);
            },
            Frame::Leave { seq } => {
                w.u8(0x21);
                w.u32(*seq);
            },
            Frame::ReleaseAll { seq } => {
                w.u8(0x22);
                w.u32(*seq);
            },
            Frame::KeyStateDigest { seq, digest, count } => {
                w.u8(0x30);
                w.u32(*seq);
                w.u64(*digest);
                w.u16(*count);
            },
            Frame::KeyStateQuery { seq } => {
                w.u8(0x31);
                w.u32(*seq);
            },
            Frame::KeyStateFull { seq, state } => {
                w.u8(0x32);
                w.u32(*seq);
                encode_key_state(&mut w, state);
            },
            Frame::Ping { nonce, t_send_us } => {
                w.u8(0x40);
                w.u64(*nonce);
                w.u64(*t_send_us);
            },
            Frame::Pong { nonce, t_send_us, t_echo_us } => {
                w.u8(0x41);
                w.u64(*nonce);
                w.u64(*t_send_us);
                w.u64(*t_echo_us);
            },
        }
        proof {
            broadcast use wire::concat_assoc;

            assert(w.buf@ == before + model.frame_bytes());
        }
        Ok(())
    }
}

fn encode_key_state(w: &mut Writer<'_>, s: &KeyState)
    ensures
        final(w).buf@ == old(w).buf@ + state_bytes(s.key_words(), s.mask().0),
        final(final(w).buf)@ == final(old(w).buf)@,
{
    let ghost before = w.buf@;
    let words = s.words();
    w.u64(words[0]);
    w.u64(words[1]);
    w.u64(words[2]);
    w.u64(words[3]);
    w.u16(s.modifiers().0);
    proof {
        assert(w.buf@ =~= before + state_bytes(s.key_words(), s.mask().0));
    }
}

// ---------------------------------------------------------------- the model of decoding
/// Four words of held keys and a modifier mask taken off the front of `s`.
pub open spec fn get_state(s: Seq<u8>) -> Result<((Seq<u64>, u16), Seq<u8>), Error> {
    match wire::get_uint(s, 8) {
            Err(e) => Err(e),
            Ok((a, s)) =>
                match wire::get_uint(s, 8) {
                    Err(e) => Err(e),
                    Ok((b, s)) =>
                        match wire::get_uint(s, 8) {
                            Err(e) => Err(e),
                            Ok((c, s)) =>
                                match wire::get_uint(s, 8) {
                                    Err(e) => Err(e),
                                    Ok((d, s)) =>
                                        match wire::get_uint(s, 2) {
                                            Err(e) => Err(e),
                                            Ok((mask, s)) =>
                                                Ok(((seq![a as u64, b as u64, c as u64, d as u64], mask as u16), s)),
                                        },
                                },
                        },
                },
        }
}

/// The fields of a hello, taken off the front of `s`.
pub open spec fn get_hello(s: Seq<u8>) -> Result<(FrameModel, Seq<u8>), Error> {
        match wire::get_uint(s, 2) {
            Err(e) => Err(e),
            Ok((version, s)) =>
                match wire::get_bytes(s, 16) {
                    Err(e) => Err(e),
                    Ok((peer, s)) =>
                        match wire::get_string(s) {
                            Err(e) => Err(e),
                            Ok((name, s)) =>
                                match wire::get_uint(s, 4) {
                                    Err(e) => Err(e),
                                    Ok((width, s)) =>
                                        match wire::get_uint(s, 4) {
                                            Err(e) => Err(e),
                                            Ok((height, s)) =>
                                                match wire::get_uint(s, 4) {
                                                    Err(e) => Err(e),
                                                    Ok((scale, s)) =>
                                                        match LayoutPolicy::get_policy(s) {
                                                            Err(e) => Err(e),
                                                            Ok((policy, s)) =>
                                                                Ok((FrameModel::Hello { version: version as u16, peer, name, width: width as u32, height: height as u32, scale: scale as u32, policy }, s)),
                                                        },
                                                },
                                        },
                                },
                        },
                },
        }
}

/// The fields of a hello reply, taken off the front of `s`.
pub open spec fn get_hello_ack(s: Seq<u8>) -> Result<(FrameModel, Seq<u8>), Error> {
        match wire::get_uint(s, 2) {
            Err(e) => Err(e),
            Ok((version, s)) =>
                match wire::get_bytes(s, 16) {
                    Err(e) => Err(e),
                    Ok((peer, s)) =>
                        match wire::get_string(s) {
                            Err(e) => Err(e),
                            Ok((name, s)) =>
                                match wire::get_uint(s, 1) {
                                    Err(e) => Err(e),
                                    Ok((accepted, s)) =>
                                        match wire::get_string(s) {
                                            Err(e) => Err(e),
                                            Ok((message, s)) =>
                                                Ok((FrameModel::HelloAck { version: version as u16, peer, name, accepted: accepted != 0, message }, s)),
                                        },
                                },
                        },
                },
        }
}

/// The fields of a motion, taken off the front of `s`.
pub open spec fn get_motion(s: Seq<u8>) -> Result<(FrameModel, Seq<u8>), Error> {
        match wire::get_uint(s, 4) {
            Err(e) => Err(e),
            Ok((seq, s)) =>
                match Point::get_point(s) {
                    Err(e) => Err(e),
                    Ok((cursor, s)) =>
                        match wire::get_uint(s, 4) {
                            Err(e) => Err(e),
                            Ok((x, s)) =>
                                match wire::get_uint(s, 4) {
                                    Err(e) => Err(e),
                                    Ok((y, s)) =>
                                        Ok((FrameModel::Motion(Motion { seq: seq as u32, cursor, travel_x: wire::signed32(x) as i32, travel_y: wire::signed32(y) as i32 }), s)),
                                },
                        },
                },
        }
}

/// The fields of a button event, taken off the front of `s`.
pub open spec fn get_button(s: Seq<u8>) -> Result<(FrameModel, Seq<u8>), Error> {
        match wire::get_uint(s, 4) {
            Err(e) => Err(e),
            Ok((seq, s)) =>
                match Button::get_button(s) {
                    Err(e) => Err(e),
                    Ok((button, s)) =>
                        match Press::get_press(s) {
                            Err(e) => Err(e),
                            Ok((press, s)) =>
                                match wire::get_uint(s, 2) {
                                    Err(e) => Err(e),
                                    Ok((mask, s)) =>
                                        Ok((FrameModel::Button(ButtonEvent { seq: seq as u32, button, press, modifiers: Modifiers(mask as u16) }), s)),
                                },
                        },
                },
        }
}

/// The fields of a scroll event, taken off the front of `s`.
pub open spec fn get_scroll(s: Seq<u8>) -> Result<(FrameModel, Seq<u8>), Error> {
        match wire::get_uint(s, 4) {
            Err(e) => Err(e),
            Ok((seq, s)) =>
                match wire::get_uint(s, 4) {
                    Err(e) => Err(e),
                    Ok((dx, s)) =>
                        match wire::get_uint(s, 4) {
                            Err(e) => Err(e),
                            Ok((dy, s)) =>
                                match ScrollUnit::get_unit(s) {
                                    Err(e) => Err(e),
                                    Ok((unit, s)) =>
                                        match wire::get_uint(s, 1) {
                                            Err(e) => Err(e),
                                            Ok((end, s)) =>
                                                Ok((FrameModel::Scroll(ScrollEvent { seq: seq as u32, dx: wire::signed32(dx) as i32, dy: wire::signed32(dy) as i32, unit, end_of_gesture: end != 0 }), s)),
                                        },
                                },
                        },
                },
        }
}

/// The fields of an entry, taken off the front of `s`.
pub open spec fn get_enter(s: Seq<u8>) -> Result<(FrameModel, Seq<u8>), Error> {
        match wire::get_uint(s, 4) {
            Err(e) => Err(e),
            Ok((seq, s)) =>
                match Point::get_point(s) {
                    Err(e) => Err(e),
                    Ok((cursor, s)) =>
                        match Edge::get_edge(s) {
                            Err(e) => Err(e),
                            Ok((edge, s)) =>
                                match get_state(s) {
                                    Err(e) => Err(e),
                                    Ok((keys, s)) =>
                                        Ok((FrameModel::Enter { seq: seq as u32, cursor, edge, words: keys.0, mask: keys.1 }, s)),
                                },
                        },
                },
        }
}

/// The fields of a key-state digest, taken off the front of `s`.
pub open spec fn get_digest(s: Seq<u8>) -> Result<(FrameModel, Seq<u8>), Error> {
        match wire::get_uint(s, 4) {
            Err(e) => Err(e),
            Ok((seq, s)) =>
                match wire::get_uint(s, 8) {
                    Err(e) => Err(e),
                    Ok((digest, s)) =>
                        match wire::get_uint(s, 2) {
                            Err(e) => Err(e),
                            Ok((count, s)) =>
                                Ok((FrameModel::KeyStateDigest { seq: seq as u32, digest: digest as u64, count: count as u16 }, s)),
                        },
                },
        }
}

/// The fields of a full key state, taken off the front of `s`.
pub open spec fn get_full(s: Seq<u8>) -> Result<(FrameModel, Seq<u8>), Error> {
        match wire::get_uint(s, 4) {
            Err(e) => Err(e),
            Ok((seq, s)) =>
                match get_state(s) {
                    Err(e) => Err(e),
                    Ok((keys, s)) =>
                        Ok((FrameModel::KeyStateFull { seq: seq as u32, words: keys.0, mask: keys.1 }, s)),
                },
        }
}

/// The fields of a probe, taken off the front of `s`.
pub open spec fn get_ping(s: Seq<u8>) -> Result<(FrameModel, Seq<u8>), Error> {
        match wire::get_uint(s, 8) {
            Err(e) => Err(e),
            Ok((nonce, s)) =>
                match wire::get_uint(s, 8) {
                    Err(e) => Err(e),
                    Ok((sent, s)) =>
                        Ok((FrameModel::Ping { nonce: nonce as u64, t_send_us: sent as u64 }, s)),
                },
        }
}

/// The fields of a probe reply, taken off the front of `s`.
pub open spec fn get_pong(s: Seq<u8>) -> Result<(FrameModel, Seq<u8>), Error> {
        match wire::get_uint(s, 8) {
            Err(e) => Err(e),
            Ok((nonce, s)) =>
                match wire::get_uint(s, 8) {
                    Err(e) => Err(e),
                    Ok((sent, s)) =>
                        match wire::get_uint(s, 8) {
                            Err(e) => Err(e),
                            Ok((echoed, s)) =>
                                Ok((FrameModel::Pong { nonce: nonce as u64, t_send_us: sent as u64, t_echo_us: echoed as u64 }, s)),
                        },
                },
        }
}

/// A frame that holds a sequence number alone.
pub open spec fn get_seq(s: Seq<u8>) -> Result<(u32, Seq<u8>), Error> {
    match wire::get_uint(s, 4) {
        Err(e) => Err(e),
        Ok((seq, s)) => Ok((seq as u32, s)),
    }
}

/// A frame taken off the front of `s`: the kind byte says which fields follow.
pub open spec fn get_frame(s: Seq<u8>) -> Result<(FrameModel, Seq<u8>), Error> {
    match wire::get_uint(s, 1) {
        Err(e) => Err(e),
        Ok((k, s)) => if k == 0x01 {
            get_hello(s)
        } else if k == 0x02 {
            get_hello_ack(s)
        } else if k == 0x10 {
            get_motion(s)
        } else if k == 0x11 {
            get_button(s)
        } else if k == 0x12 {
            get_scroll(s)
        } else if k == 0x13 {
            match KeyModel::get_key(s) {
                Err(e) => Err(e),
                Ok((key, s)) => Ok((FrameModel::Key(key), s)),
            }
        } else if k == 0x20 {
            get_enter(s)
        } else if k == 0x21 {
            match get_seq(s) {
                Err(e) => Err(e),
                Ok((seq, s)) => Ok((FrameModel::Leave { seq }, s)),
            }
        } else if k == 0x22 {
            match get_seq(s) {
                Err(e) => Err(e),
                Ok((seq, s)) => Ok((FrameModel::ReleaseAll { seq }, s)),
            }
        } else if k == 0x30 {
            get_digest(s)
        } else if k == 0x31 {
            match get_seq(s) {
                Err(e) => Err(e),
                Ok((seq, s)) => Ok((FrameModel::KeyStateQuery { seq }, s)),
            }
        } else if k == 0x32 {
            get_full(s)
        } else if k == 0x40 {
            get_ping(s)
        } else if k == 0x41 {
            get_pong(s)
        } else {
            Err(Error::UnknownFrameKind(k as u8))
        },
    }
}

/// What `bytes` says when it holds one frame and nothing else.
pub open spec fn decoded(bytes: Seq<u8>) -> Result<FrameModel, Error> {
    match get_frame(bytes) {
        Err(e) => Err(e),
        Ok((f, rest)) => if rest.len() == 0 {
            Ok(f)
        } else {
            Err(Error::TrailingBytes(rest.len() as usize))
        },
    }
}

// ---------------------------------------------------------------- decoding
fn read_peer_id(r: &mut Reader<'_>) -> (p: Result<[u8; 16], Error>)
    ensures
        match wire::get_bytes(old(r)@, 16) {
            Ok((raw, rest)) => p is Ok && p->Ok_0@ == raw && final(r)@ == rest,
            Err(e) => p == Err::<[u8; 16], Error>(e),
        },
{
    let b = r.bytes(16)?;
    let mut out: [u8; 16] = [0u8; 16];
    let mut i: usize = 0;
    while i < 16
        invariant
            i <= 16,
            b@.len() == 16,
            forall|k: int| 0 <= k < i ==> out@[k] == b@[k],
        decreases 16 - i,
    {
        out[i] = b[i];
        i = i + 1;
    }
    proof {
        assert(out@ =~= b@);
    }
    Ok(out)
}

fn decode_key_state(r: &mut Reader<'_>) -> (s: Result<KeyState, Error>)
    ensures
        match get_state(old(r)@) {
            Ok((keys, rest)) => s is Ok && s->Ok_0.key_words() == keys.0 && s->Ok_0.mask().0
                == keys.1 && final(r)@ == rest,
            Err(e) => s == Err::<KeyState, Error>(e),
        },
{
    let a: u64 = r.u64()?;
    let b: u64 = r.u64()?;
    let c: u64 = r.u64()?;
    let d: u64 = r.u64()?;
    let mask: u16 = r.u16()?;
    let words: [u64; 4] = [a, b, c, d];
    proof {
        assert(words@ =~= seq![a, b, c, d]);
    }
    Ok(KeyState::from_parts(words, Modifiers(mask)))
}

fn decode_hello(r: &mut Reader<'_>) -> (f: Result<Frame, Error>)
    ensures
        match get_hello(old(r)@) {
            Ok((model, rest)) => f is Ok && f->Ok_0@ == model && final(r)@ == rest,
            Err(e) => f == Err::<Frame, Error>(e),
        },
{
    let version: u16 = r.u16()?;
    let peer = PeerId(read_peer_id(r)?);
    let name = r.string()?.to_owned();
    let width: u32 = r.u32()?;
    let height: u32 = r.u32()?;
    let scale: u32 = r.u32()?;
    let layout_policy = LayoutPolicy::decode(r)?;
    Ok(Frame::Hello(Hello { version, peer, name, width, height, scale, layout_policy }))
}

fn decode_hello_ack(r: &mut Reader<'_>) -> (f: Result<Frame, Error>)
    ensures
        match get_hello_ack(old(r)@) {
            Ok((model, rest)) => f is Ok && f->Ok_0@ == model && final(r)@ == rest,
            Err(e) => f == Err::<Frame, Error>(e),
        },
{
    let version: u16 = r.u16()?;
    let peer = PeerId(read_peer_id(r)?);
    let name = r.string()?.to_owned();
    let accepted = r.u8()? != 0;
    let message = r.string()?.to_owned();
    Ok(Frame::HelloAck(HelloAck { version, peer, name, accepted, message }))
}

fn decode_motion(r: &mut Reader<'_>) -> (f: Result<Frame, Error>)
    ensures
        match get_motion(old(r)@) {
            Ok((model, rest)) => f is Ok && f->Ok_0@ == model && final(r)@ == rest,
            Err(e) => f == Err::<Frame, Error>(e),
        },
{
    let seq: u32 = r.u32()?;
    let cursor = Point::decode(r)?;
    let travel_x: i32 = r.i32()?;
    let travel_y: i32 = r.i32()?;
    Ok(Frame::Motion(Motion { seq, cursor, travel_x, travel_y }))
}

fn decode_button(r: &mut Reader<'_>) -> (f: Result<Frame, Error>)
    ensures
        match get_button(old(r)@) {
            Ok((model, rest)) => f is Ok && f->Ok_0@ == model && final(r)@ == rest,
            Err(e) => f == Err::<Frame, Error>(e),
        },
{
    let seq: u32 = r.u32()?;
    let button = Button::decode(r)?;
    let press = Press::decode(r)?;
    let mask: u16 = r.u16()?;
    Ok(Frame::Button(ButtonEvent { seq, button, press, modifiers: Modifiers(mask) }))
}

fn decode_scroll(r: &mut Reader<'_>) -> (f: Result<Frame, Error>)
    ensures
        match get_scroll(old(r)@) {
            Ok((model, rest)) => f is Ok && f->Ok_0@ == model && final(r)@ == rest,
            Err(e) => f == Err::<Frame, Error>(e),
        },
{
    let seq: u32 = r.u32()?;
    let dx: i32 = r.i32()?;
    let dy: i32 = r.i32()?;
    let unit = ScrollUnit::decode(r)?;
    let end_of_gesture = r.u8()? != 0;
    Ok(Frame::Scroll(ScrollEvent { seq, dx, dy, unit, end_of_gesture }))
}

fn decode_enter(r: &mut Reader<'_>) -> (f: Result<Frame, Error>)
    ensures
        match get_enter(old(r)@) {
            Ok((model, rest)) => f is Ok && f->Ok_0@ == model && final(r)@ == rest,
            Err(e) => f == Err::<Frame, Error>(e),
        },
{
    let seq: u32 = r.u32()?;
    let cursor = Point::decode(r)?;
    let edge = Edge::decode(r)?;
    let keys = decode_key_state(r)?;
    Ok(Frame::Enter(Enter { seq, cursor, edge, keys }))
}

fn decode_digest(r: &mut Reader<'_>) -> (f: Result<Frame, Error>)
    ensures
        match get_digest(old(r)@) {
            Ok((model, rest)) => f is Ok && f->Ok_0@ == model && final(r)@ == rest,
            Err(e) => f == Err::<Frame, Error>(e),
        },
{
    let seq: u32 = r.u32()?;
    let digest: u64 = r.u64()?;
    let count: u16 = r.u16()?;
    Ok(Frame::KeyStateDigest { seq, digest, count })
}

fn decode_full(r: &mut Reader<'_>) -> (f: Result<Frame, Error>)
    ensures
        match get_full(old(r)@) {
            Ok((model, rest)) => f is Ok && f->Ok_0@ == model && final(r)@ == rest,
            Err(e) => f == Err::<Frame, Error>(e),
        },
{
    let seq: u32 = r.u32()?;
    let state = decode_key_state(r)?;
    Ok(Frame::KeyStateFull { seq, state })
}

fn decode_ping(r: &mut Reader<'_>) -> (f: Result<Frame, Error>)
    ensures
        match get_ping(old(r)@) {
            Ok((model, rest)) => f is Ok && f->Ok_0@ == model && final(r)@ == rest,
            Err(e) => f == Err::<Frame, Error>(e),
        },
{
    let nonce: u64 = r.u64()?;
    let t_send_us: u64 = r.u64()?;
    Ok(Frame::Ping { nonce, t_send_us })
}

fn decode_pong(r: &mut Reader<'_>) -> (f: Result<Frame, Error>)
    ensures
        match get_pong(old(r)@) {
            Ok((model, rest)) => f is Ok && f->Ok_0@ == model && final(r)@ == rest,
            Err(e) => f == Err::<Frame, Error>(e),
        },
{
    let nonce: u64 = r.u64()?;
    let t_send_us: u64 = r.u64()?;
    let t_echo_us: u64 = r.u64()?;
    Ok(Frame::Pong { nonce, t_send_us, t_echo_us })
}

impl Frame {
    /// Decode exactly one frame from `buf`, rejecting trailing bytes.
    pub fn decode(buf: &[u8]) -> (f: Result<Frame, Error>)
        ensures
            match decoded(buf@) {
                Ok(model) => f is Ok && f->Ok_0@ == model,
                Err(e) => f == Err::<Frame, Error>(e),
            },
    {
        let mut r = Reader::new(buf);
        let frame = Frame::decode_body(&mut r)?;
        r.finish()?;
        Ok(frame)
    }

    fn decode_body(r: &mut Reader<'_>) -> (f: Result<Frame, Error>)
        ensures
            match get_frame(old(r)@) {
                Ok((model, rest)) => f is Ok && f->Ok_0@ == model && final(r)@ == rest,
                Err(e) => f == Err::<Frame, Error>(e),
            },
    {
        let k: u8 = r.u8()?;
        match k {
            0x01 => decode_hello(r),
            0x02 => decode_hello_ack(r),
            0x10 => decode_motion(r),
            0x11 => decode_button(r),
            0x12 => decode_scroll(r),
            0x13 => {
                let key = KeyEvent::decode(r)?;
                Ok(Frame::Key(key))
            },
            0x20 => decode_enter(r),
            0x21 => {
                let seq: u32 = r.u32()?;
                Ok(Frame::Leave { seq })
            },
            0x22 => {
                let seq: u32 = r.u32()?;
                Ok(Frame::ReleaseAll { seq })
            },
            0x30 => decode_digest(r),
            0x31 => {
                let seq: u32 = r.u32()?;
                Ok(Frame::KeyStateQuery { seq })
            },
            0x32 => decode_full(r),
            0x40 => decode_ping(r),
            0x41 => decode_pong(r),
            other => Err(Error::UnknownFrameKind(other)),
        }
    }

    /// Encode with a `u32` big-endian length prefix, for a reliable stream.
    ///
    /// A frame longer than [`MAX_FRAME_LEN`] is refused and leaves `buf` as it was. One
    /// whose string does not fit its own prefix is refused too, but leaves the empty
    /// length prefix and what was written before that string.
    pub fn encode_framed(&self, buf: &mut Vec<u8>) -> (r: Result<(), Error>)
        ensures
            r == (if self@.encodable() && self@.frame_bytes().len() <= MAX_FRAME_LEN {
                Ok::<(), Error>(())
            } else {
                Err::<(), Error>(Error::TooLong)
            }),
            final(buf)@ == (if !self@.encodable() {
                old(buf)@ + uint(0, 4) + self@.partial_bytes()
            } else if self@.frame_bytes().len() <= MAX_FRAME_LEN {
                old(buf)@ + framed(self@.frame_bytes())
            } else {
                old(buf)@
            }),
    {
        let start: usize = buf.len();
        let ghost before = buf@;
        let mut w = Writer::new(buf);
        w.u32(0);
        proof {
            wire::be_bytes_len(0, 4);
        }
        if let Err(e) = self.encode(buf) {
            return Err(e);
        }
        let len: usize = buf.len() - start - 4;
        if len > MAX_FRAME_LEN {
            buf.truncate(start);
            proof {
                assert(buf@ =~= before);
            }
            return Err(Error::TooLong);
        }
        let ghost body = self@.frame_bytes();
        assert(buf@ =~= before + uint(0, 4) + body);
        let mut prefix: Vec<u8> = Vec::new();
        let mut w = Writer::new(&mut prefix);
        w.u32(len as u32);
        proof {
            wire::be_bytes_len(len as nat, 4);
            assert(prefix@ =~= uint(len as int, 4));
        }
        let total: usize = buf.len();
        let mut i: usize = 0;
        while i < 4
            invariant
                i <= 4,
                start + 4 <= total,
                total == buf@.len(),
                prefix@ == uint(len as int, 4),
                prefix@.len() == 4,
                uint(0, 4).len() == 4,
                start == before.len(),
                buf@.len() == before.len() + 4 + body.len(),
                forall|k: int| 0 <= k < before.len() ==> buf@[k] == before[k],
                forall|k: int| 0 <= k < i ==> buf@[start + k] == prefix@[k],
                forall|k: int| 0 <= k < body.len() ==> #[trigger] buf@[start + 4 + k] == body[k],
            decreases 4 - i,
        {
            let ghost prior = buf@;
            buf.set(start + i, prefix[i]);
            assert(forall|k: int|
                0 <= k < body.len() ==> #[trigger] buf@[start + 4 + k] == prior[start + 4 + k]);
            i = i + 1;
        }
        proof {
            let want = before + framed(body);
            assert(buf@.len() == want.len());
            assert forall|k: int| 0 <= k < want.len() implies buf@[k] == want[k] by {
                if k >= before.len() + 4 {
                    assert(buf@[start + 4 + (k - start - 4)] == body[k - start - 4]);
                } else if k >= before.len() {
                    assert(buf@[start + (k - start)] == prefix@[k - start]);
                }
            }
            assert(buf@ =~= want);
        }
        Ok(())
    }

    /// Decode one length-prefixed frame, returning it and the bytes consumed.
    ///
    /// Returns `Ok(None)` when `buf` does not yet hold a complete frame, so a stream reader
    /// can simply wait for more bytes.
    pub fn decode_framed(buf: &[u8]) -> (r: Result<Option<(Frame, usize)>, Error>)
        ensures
            match decoded_framed(buf@) {
                Ok(Some((model, used))) => r matches Ok(Some((frame, n))) && frame@ == model && n
                    == used,
                Ok(None) => r matches Ok(None),
                Err(e) => r == Err::<Option<(Frame, usize)>, Error>(e),
            },
    {
        if buf.len() < 4 {
            return Ok(None);
        }
        let len: usize = be_u32(buf) as usize;
        // Checked before any allocation is sized from it.
        if len > MAX_FRAME_LEN {
            return Err(Error::TooLong);
        }
        if buf.len() - 4 < len {
            return Ok(None);
        }
        let (_, rest) = buf.split_at(4);
        let (body, _) = rest.split_at(len);
        proof {
            assert(body@ =~= buf@.subrange(4, 4 + len));
        }
        let frame = Frame::decode(body)?;
        Ok(Some((frame, 4 + len)))
    }
}

/// A frame's bytes behind their length.
pub open spec fn framed(body: Seq<u8>) -> Seq<u8> {
    uint(body.len() as int, 4) + body
}

/// What the front of a stream says: a frame and the bytes it took, nothing yet, or a
/// rejection.
pub open spec fn decoded_framed(s: Seq<u8>) -> Result<Option<(FrameModel, nat)>, Error> {
    if s.len() < 4 {
        Ok(None)
    } else {
        let len = wire::be_value(s.take(4));
        if len > MAX_FRAME_LEN {
            Err(Error::TooLong)
        } else if s.len() < 4 + len {
            Ok(None)
        } else {
            match decoded(s.subrange(4, 4 + len as int)) {
                Ok(f) => Ok(Some((f, 4 + len))),
                Err(e) => Err(e),
            }
        }
    }
}

// ---------------------------------------------------------------- laws
impl FrameModel {
    /// A frame that the wire can carry unchanged: strings fit their prefixes, fixed-size
    /// fields have their size, and a numbered button is not one that has a name.
    pub open spec fn carriable(self) -> bool {
        &&& self.encodable()
        &&& match self {
            FrameModel::Hello { peer, .. } => peer.len() == 16,
            FrameModel::HelloAck { peer, .. } => peer.len() == 16,
            FrameModel::Button(b) => b.button.canonical(),
            FrameModel::Key(k) => encode_utf8(k.text).len() <= 15,
            FrameModel::Enter { words, .. } => words.len() == 4,
            FrameModel::KeyStateFull { words, .. } => words.len() == 4,
            _ => true,
        }
    }
}

/// Every frame a program holds can be carried, except one with a string of 65536 bytes or
/// more or with an extra button numbered 0 to 5.
pub proof fn frames_are_carriable(f: Frame)
    requires
        f@.encodable(),
        f matches Frame::Button(b) ==> b.button.canonical(),
        f matches Frame::Key(k) ==> k.logical.wf(),
    ensures
        f@.carriable(),
{
    if let Frame::Key(k) = f {
        crate::keys::text_fits(k.logical);
    }
    if let Frame::Enter(e) = f {
        crate::state::four_words(e.keys);
    }
    if let Frame::KeyStateFull { state, .. } = f {
        crate::state::four_words(state);
    }
}

proof fn state_round_trips(words: Seq<u64>, mask: u16, rest: Seq<u8>)
    requires
        words.len() == 4,
    ensures
        get_state(state_bytes(words, mask) + rest) == Ok::<((Seq<u64>, u16), Seq<u8>), Error>(
            ((words, mask), rest),
        ),
{
    wire::be_limits();
    let r4 = uint(mask as int, 2) + rest;
    let r3 = uint(words[3] as int, 8) + r4;
    let r2 = uint(words[2] as int, 8) + r3;
    let r1 = uint(words[1] as int, 8) + r2;
    assert(state_bytes(words, mask) + rest == uint(words[0] as int, 8) + r1) by {
        broadcast use wire::concat_assoc;

    }
    wire::get_uint_of_be_bytes(words[0] as nat, 8, r1);
    wire::get_uint_of_be_bytes(words[1] as nat, 8, r2);
    wire::get_uint_of_be_bytes(words[2] as nat, 8, r3);
    wire::get_uint_of_be_bytes(words[3] as nat, 8, r4);
    wire::get_uint_of_be_bytes(mask as nat, 2, rest);
    assert(seq![words[0], words[1], words[2], words[3]] =~= words);
}

proof fn peer_round_trips(peer: Seq<u8>, rest: Seq<u8>)
    requires
        peer.len() == 16,
    ensures
        wire::get_bytes(peer + rest, 16) == Ok::<(Seq<u8>, Seq<u8>), Error>((peer, rest)),
{
    assert((peer + rest).take(16) =~= peer);
    assert((peer + rest).skip(16) =~= rest);
}

proof fn hello_round_trips(m: FrameModel, rest: Seq<u8>)
    requires
        m is Hello,
        m.carriable(),
    ensures
        get_hello(m.fields() + rest) == Ok::<(FrameModel, Seq<u8>), Error>((m, rest)),
{
    wire::be_limits();
    if let FrameModel::Hello { version, peer, name, width, height, scale, policy } = m {
        let r6 = uint(policy.code() as int, 1) + rest;
        let r5 = uint(scale as int, 4) + r6;
        let r4 = uint(height as int, 4) + r5;
        let r3 = uint(width as int, 4) + r4;
        let r2 = wire::string_bytes(name) + r3;
        let r1 = peer + r2;
        assert(m.fields() + rest == uint(version as int, 2) + r1) by {
            broadcast use wire::concat_assoc;

        }
        wire::get_uint_of_be_bytes(version as nat, 2, r1);
        peer_round_trips(peer, r2);
        wire::get_string_of_string_bytes(name, r3);
        wire::get_uint_of_be_bytes(width as nat, 4, r4);
        wire::get_uint_of_be_bytes(height as nat, 4, r5);
        wire::get_uint_of_be_bytes(scale as nat, 4, r6);
        wire::get_uint_of_be_bytes(policy.code() as nat, 1, rest);
    }
}

proof fn hello_ack_round_trips(m: FrameModel, rest: Seq<u8>)
    requires
        m is HelloAck,
        m.carriable(),
    ensures
        get_hello_ack(m.fields() + rest) == Ok::<(FrameModel, Seq<u8>), Error>((m, rest)),
{
    wire::be_limits();
    if let FrameModel::HelloAck { version, peer, name, accepted, message } = m {
        let r4 = wire::string_bytes(message) + rest;
        let r3 = uint(flag(accepted), 1) + r4;
        let r2 = wire::string_bytes(name) + r3;
        let r1 = peer + r2;
        assert(m.fields() + rest == uint(version as int, 2) + r1) by {
            broadcast use wire::concat_assoc;

        }
        wire::get_uint_of_be_bytes(version as nat, 2, r1);
        peer_round_trips(peer, r2);
        wire::get_string_of_string_bytes(name, r3);
        wire::get_uint_of_be_bytes(flag(accepted) as nat, 1, r4);
        wire::get_string_of_string_bytes(message, rest);
    }
}

proof fn pointer_frames_round_trip(m: FrameModel, rest: Seq<u8>)
    requires
        m.carriable(),
    ensures
        m is Motion ==> get_motion(m.fields() + rest) == Ok::<(FrameModel, Seq<u8>), Error>(
            (m, rest),
        ),
        m is Button ==> get_button(m.fields() + rest) == Ok::<(FrameModel, Seq<u8>), Error>(
            (m, rest),
        ),
        m is Scroll ==> get_scroll(m.fields() + rest) == Ok::<(FrameModel, Seq<u8>), Error>(
            (m, rest),
        ),
{
    wire::be_limits();
    match m {
        FrameModel::Motion(v) => {
            let (x, y) = (wire::bits32(v.travel_x), wire::bits32(v.travel_y));
            let r3 = uint(y as int, 4) + rest;
            let r2 = uint(x as int, 4) + r3;
            let r1 = v.cursor.point_bytes() + r2;
            assert(m.fields() + rest == uint(v.seq as int, 4) + r1) by {
                broadcast use wire::concat_assoc;

            }
            wire::get_uint_of_be_bytes(v.seq as nat, 4, r1);
            event::get_point_of_point_bytes(v.cursor, r2);
            wire::get_uint_of_be_bytes(x, 4, r3);
            wire::get_uint_of_be_bytes(y, 4, rest);
        },
        FrameModel::Button(b) => {
            let r3 = uint(b.modifiers.0 as int, 2) + rest;
            let r2 = uint(b.press.code() as int, 1) + r3;
            let r1 = uint(b.button.code() as int, 1) + r2;
            assert(m.fields() + rest == uint(b.seq as int, 4) + r1) by {
                broadcast use wire::concat_assoc;

            }
            wire::get_uint_of_be_bytes(b.seq as nat, 4, r1);
            wire::get_uint_of_be_bytes(b.button.code() as nat, 1, r2);
            wire::get_uint_of_be_bytes(b.press.code() as nat, 1, r3);
            wire::get_uint_of_be_bytes(b.modifiers.0 as nat, 2, rest);
        },
        FrameModel::Scroll(s) => {
            let (dx, dy) = (wire::bits32(s.dx), wire::bits32(s.dy));
            let r4 = uint(flag(s.end_of_gesture), 1) + rest;
            let r3 = uint(s.unit.code() as int, 1) + r4;
            let r2 = uint(dy as int, 4) + r3;
            let r1 = uint(dx as int, 4) + r2;
            assert(m.fields() + rest == uint(s.seq as int, 4) + r1) by {
                broadcast use wire::concat_assoc;

            }
            wire::get_uint_of_be_bytes(s.seq as nat, 4, r1);
            wire::get_uint_of_be_bytes(dx, 4, r2);
            wire::get_uint_of_be_bytes(dy, 4, r3);
            wire::get_uint_of_be_bytes(s.unit.code() as nat, 1, r4);
            wire::get_uint_of_be_bytes(flag(s.end_of_gesture) as nat, 1, rest);
        },
        _ => {},
    }
}

proof fn state_frames_round_trip(m: FrameModel, rest: Seq<u8>)
    requires
        m.carriable(),
    ensures
        m is Enter ==> get_enter(m.fields() + rest) == Ok::<(FrameModel, Seq<u8>), Error>((m, rest)),
        m is KeyStateDigest ==> get_digest(m.fields() + rest) == Ok::<(FrameModel, Seq<u8>), Error>(
            (m, rest),
        ),
        m is KeyStateFull ==> get_full(m.fields() + rest) == Ok::<(FrameModel, Seq<u8>), Error>(
            (m, rest),
        ),
        m is Ping ==> get_ping(m.fields() + rest) == Ok::<(FrameModel, Seq<u8>), Error>((m, rest)),
        m is Pong ==> get_pong(m.fields() + rest) == Ok::<(FrameModel, Seq<u8>), Error>((m, rest)),
{
    wire::be_limits();
    match m {
        FrameModel::Enter { seq, cursor, edge, words, mask } => {
            let r3 = state_bytes(words, mask) + rest;
            let r2 = uint(edge.code() as int, 1) + r3;
            let r1 = cursor.point_bytes() + r2;
            assert(m.fields() + rest == uint(seq as int, 4) + r1) by {
                broadcast use wire::concat_assoc;

            }
            wire::get_uint_of_be_bytes(seq as nat, 4, r1);
            event::get_point_of_point_bytes(cursor, r2);
            wire::get_uint_of_be_bytes(edge.code() as nat, 1, r3);
            state_round_trips(words, mask, rest);
        },
        FrameModel::KeyStateDigest { seq, digest, count } => {
            let r2 = uint(count as int, 2) + rest;
            let r1 = uint(digest as int, 8) + r2;
            assert(m.fields() + rest == uint(seq as int, 4) + r1) by {
                broadcast use wire::concat_assoc;

            }
            wire::get_uint_of_be_bytes(seq as nat, 4, r1);
            wire::get_uint_of_be_bytes(digest as nat, 8, r2);
            wire::get_uint_of_be_bytes(count as nat, 2, rest);
        },
        FrameModel::KeyStateFull { seq, words, mask } => {
            let r1 = state_bytes(words, mask) + rest;
            assert(m.fields() + rest == uint(seq as int, 4) + r1) by {
                broadcast use wire::concat_assoc;

            }
            wire::get_uint_of_be_bytes(seq as nat, 4, r1);
            state_round_trips(words, mask, rest);
        },
        FrameModel::Ping { nonce, t_send_us } => {
            let r1 = uint(t_send_us as int, 8) + rest;
            assert(m.fields() + rest == uint(nonce as int, 8) + r1) by {
                broadcast use wire::concat_assoc;

            }
            wire::get_uint_of_be_bytes(nonce as nat, 8, r1);
            wire::get_uint_of_be_bytes(t_send_us as nat, 8, rest);
        },
        FrameModel::Pong { nonce, t_send_us, t_echo_us } => {
            let r2 = uint(t_echo_us as int, 8) + rest;
            let r1 = uint(t_send_us as int, 8) + r2;
            assert(m.fields() + rest == uint(nonce as int, 8) + r1) by {
                broadcast use wire::concat_assoc;

            }
            wire::get_uint_of_be_bytes(nonce as nat, 8, r1);
            wire::get_uint_of_be_bytes(t_send_us as nat, 8, r2);
            wire::get_uint_of_be_bytes(t_echo_us as nat, 8, rest);
        },
        _ => {},
    }
}

/// A frame written at the front of a stream is the frame read from it, and the rest of
/// the stream follows.
pub proof fn get_frame_of_frame_bytes(m: FrameModel, rest: Seq<u8>)
    requires
        m.carriable(),
    ensures
        get_frame(m.frame_bytes() + rest) == Ok::<(FrameModel, Seq<u8>), Error>((m, rest)),
{
    wire::be_limits();
    wire::concat_assoc(uint(m.kind(), 1), m.fields(), rest);
    wire::get_uint_of_be_bytes(m.kind() as nat, 1, m.fields() + rest);
    match m {
        FrameModel::Hello { .. } => hello_round_trips(m, rest),
        FrameModel::HelloAck { .. } => hello_ack_round_trips(m, rest),
        FrameModel::Key(k) => event::get_key_of_key_bytes(k, rest),
        FrameModel::Leave { seq } => wire::get_uint_of_be_bytes(seq as nat, 4, rest),
        FrameModel::ReleaseAll { seq } => wire::get_uint_of_be_bytes(seq as nat, 4, rest),
        FrameModel::KeyStateQuery { seq } => wire::get_uint_of_be_bytes(seq as nat, 4, rest),
        _ => {
            pointer_frames_round_trip(m, rest);
            state_frames_round_trip(m, rest);
        },
    }
}

/// Every frame kind round-trips: decoding an encoded frame gives the frame.
pub proof fn every_frame_round_trips(m: FrameModel)
    requires
        m.carriable(),
    ensures
        decoded(m.frame_bytes()) == Ok::<FrameModel, Error>(m),
{
    get_frame_of_frame_bytes(m, Seq::empty());
    assert(m.frame_bytes() + Seq::empty() =~= m.frame_bytes());
}

// A stream that was cut short within the fields of a kind is refused by its getter.
proof fn hello_cut_short(s: Seq<u8>, n: int)
    requires
        get_hello(s) matches Ok((_, rest)) && 0 <= n < s.len() - rest.len(),
    ensures
        get_hello(s.take(n)) matches Err(e) && e == Error::Truncated,
{
    broadcast use {wire::get_bytes_of_a_start, wire::get_uint_of_a_start};

}

proof fn hello_ack_cut_short(s: Seq<u8>, n: int)
    requires
        get_hello_ack(s) matches Ok((_, rest)) && 0 <= n < s.len() - rest.len(),
    ensures
        get_hello_ack(s.take(n)) matches Err(e) && e == Error::Truncated,
{
    broadcast use {wire::get_bytes_of_a_start, wire::get_uint_of_a_start};

}

proof fn motion_cut_short(s: Seq<u8>, n: int)
    requires
        get_motion(s) matches Ok((_, rest)) && 0 <= n < s.len() - rest.len(),
    ensures
        get_motion(s.take(n)) matches Err(e) && e == Error::Truncated,
{
    broadcast use {wire::get_bytes_of_a_start, wire::get_uint_of_a_start};

}

proof fn button_cut_short(s: Seq<u8>, n: int)
    requires
        get_button(s) matches Ok((_, rest)) && 0 <= n < s.len() - rest.len(),
    ensures
        get_button(s.take(n)) matches Err(e) && e == Error::Truncated,
{
    broadcast use {wire::get_bytes_of_a_start, wire::get_uint_of_a_start};

}

proof fn scroll_cut_short(s: Seq<u8>, n: int)
    requires
        get_scroll(s) matches Ok((_, rest)) && 0 <= n < s.len() - rest.len(),
    ensures
        get_scroll(s.take(n)) matches Err(e) && e == Error::Truncated,
{
    broadcast use {wire::get_bytes_of_a_start, wire::get_uint_of_a_start};

}

proof fn enter_cut_short(s: Seq<u8>, n: int)
    requires
        get_enter(s) matches Ok((_, rest)) && 0 <= n < s.len() - rest.len(),
    ensures
        get_enter(s.take(n)) matches Err(e) && e == Error::Truncated,
{
    broadcast use {wire::get_bytes_of_a_start, wire::get_uint_of_a_start};

}

proof fn digest_cut_short(s: Seq<u8>, n: int)
    requires
        get_digest(s) matches Ok((_, rest)) && 0 <= n < s.len() - rest.len(),
    ensures
        get_digest(s.take(n)) matches Err(e) && e == Error::Truncated,
{
    broadcast use {wire::get_bytes_of_a_start, wire::get_uint_of_a_start};

}

proof fn full_cut_short(s: Seq<u8>, n: int)
    requires
        get_full(s) matches Ok((_, rest)) && 0 <= n < s.len() - rest.len(),
    ensures
        get_full(s.take(n)) matches Err(e) && e == Error::Truncated,
{
    broadcast use {wire::get_bytes_of_a_start, wire::get_uint_of_a_start};

}

proof fn ping_cut_short(s: Seq<u8>, n: int)
    requires
        get_ping(s) matches Ok((_, rest)) && 0 <= n < s.len() - rest.len(),
    ensures
        get_ping(s.take(n)) matches Err(e) && e == Error::Truncated,
{
    broadcast use {wire::get_bytes_of_a_start, wire::get_uint_of_a_start};

}

proof fn pong_cut_short(s: Seq<u8>, n: int)
    requires
        get_pong(s) matches Ok((_, rest)) && 0 <= n < s.len() - rest.len(),
    ensures
        get_pong(s.take(n)) matches Err(e) && e == Error::Truncated,
{
    broadcast use {wire::get_bytes_of_a_start, wire::get_uint_of_a_start};

}

proof fn key_cut_short(s: Seq<u8>, n: int)
    requires
        KeyModel::get_key(s) matches Ok((_, rest)) && 0 <= n < s.len() - rest.len(),
    ensures
        KeyModel::get_key(s.take(n)) matches Err(e) && e == Error::Truncated,
{
    broadcast use {wire::get_bytes_of_a_start, wire::get_uint_of_a_start};

}

proof fn seq_cut_short(s: Seq<u8>, n: int)
    requires
        get_seq(s) matches Ok((_, rest)) && 0 <= n < s.len() - rest.len(),
    ensures
        get_seq(s.take(n)) matches Err(e) && e == Error::Truncated,
{
    broadcast use {wire::get_bytes_of_a_start, wire::get_uint_of_a_start};

}

proof fn frame_cut_short(s: Seq<u8>, n: int)
    requires
        get_frame(s) matches Ok((_, rest)) && 0 <= n < s.len() - rest.len(),
    ensures
        get_frame(s.take(n)) matches Err(e) && e == Error::Truncated,
{
    wire::get_uint_of_a_start(s, n, 1);
    if n >= 1 {
        let body = s.skip(1);
        let k = wire::be_value(s.take(1));
        let cut = n - 1;
        if k == 0x01 {
            hello_cut_short(body, cut);
        } else if k == 0x02 {
            hello_ack_cut_short(body, cut);
        } else if k == 0x10 {
            motion_cut_short(body, cut);
        } else if k == 0x11 {
            button_cut_short(body, cut);
        } else if k == 0x12 {
            scroll_cut_short(body, cut);
        } else if k == 0x13 {
            key_cut_short(body, cut);
        } else if k == 0x20 {
            enter_cut_short(body, cut);
        } else if k == 0x21 || k == 0x22 || k == 0x31 {
            seq_cut_short(body, cut);
        } else if k == 0x30 {
            digest_cut_short(body, cut);
        } else if k == 0x32 {
            full_cut_short(body, cut);
        } else if k == 0x40 {
            ping_cut_short(body, cut);
        } else {
            pong_cut_short(body, cut);
        }
    }
}

/// A frame cut short is never taken for a frame: every strict prefix of an encoded frame is
/// refused as truncated.
pub proof fn a_truncated_frame_is_refused(m: FrameModel, n: int)
    requires
        m.carriable(),
        0 <= n < m.frame_bytes().len(),
    ensures
        decoded(m.frame_bytes().take(n)) == Err::<FrameModel, Error>(Error::Truncated),
{
    let s = m.frame_bytes();
    get_frame_of_frame_bytes(m, Seq::empty());
    assert(s + Seq::empty() =~= s);
    frame_cut_short(s, n);
}

/// Whether a byte opens a frame of some kind.
pub open spec fn is_kind(k: int) -> bool {
    ||| k == 0x01 || k == 0x02
    ||| 0x10 <= k <= 0x13
    ||| 0x20 <= k <= 0x22
    ||| 0x30 <= k <= 0x32
    ||| k == 0x40 || k == 0x41
}

/// A kind byte that no frame has is refused, and named in the rejection; every frame has a
/// kind that is read.
pub proof fn an_unknown_kind_is_refused(s: Seq<u8>, m: FrameModel)
    requires
        s.len() > 0,
    ensures
        !is_kind(s[0] as int) ==> decoded(s) == Err::<FrameModel, Error>(
            Error::UnknownFrameKind(s[0]),
        ),
        is_kind(m.kind()),
{
    assert(wire::be_value(s.take(1)) == s[0]) by {
        reveal_with_fuel(wire::be_value, 2);
        assert(s.take(1).drop_last() =~= Seq::empty());
    }
}

/// Bytes after a frame are never ignored: they are the rejection.
pub proof fn trailing_bytes_are_refused(m: FrameModel, extra: Seq<u8>)
    requires
        m.carriable(),
        0 < extra.len(),
    ensures
        decoded(m.frame_bytes() + extra) == Err::<FrameModel, Error>(
            Error::TrailingBytes(extra.len() as usize),
        ),
{
    get_frame_of_frame_bytes(m, extra);
}

/// A stream of length-prefixed frames.
pub open spec fn stream(frames: Seq<FrameModel>) -> Seq<u8>
    decreases frames.len(),
{
    if frames.len() == 0 {
        Seq::empty()
    } else {
        framed(frames[0].frame_bytes()) + stream(frames.drop_first())
    }
}

/// A stream gives its frames back one by one: the first read yields the first frame, and
/// what remains is the stream of the others.
pub proof fn a_stream_yields_its_frames_in_order(frames: Seq<FrameModel>)
    requires
        frames.len() > 0,
        frames[0].carriable(),
        frames[0].frame_bytes().len() <= MAX_FRAME_LEN,
    ensures
        decoded_framed(stream(frames)) == Ok::<Option<(FrameModel, nat)>, Error>(
            Some((frames[0], 4 + frames[0].frame_bytes().len())),
        ),
        stream(frames).skip(4 + frames[0].frame_bytes().len() as int) == stream(
            frames.drop_first(),
        ),
{
    let m = frames[0];
    let body = m.frame_bytes();
    let rest = stream(frames.drop_first());
    let s = stream(frames);
    framing_is_read_back(body, rest);
    every_frame_round_trips(m);
    assert(s.skip(4 + body.len() as int) =~= rest);
}

proof fn framing_is_read_back(body: Seq<u8>, rest: Seq<u8>)
    requires
        body.len() < 0x1_0000_0000,
    ensures
        (framed(body) + rest).len() == 4 + body.len() + rest.len(),
        wire::be_value((framed(body) + rest).take(4)) == body.len(),
        (framed(body) + rest).subrange(4, 4 + body.len() as int) == body,
{
    let s = framed(body) + rest;
    wire::be_limits();
    wire::be_bytes_len(body.len(), 4);
    wire::be_value_of_be_bytes(body.len(), 4);
    assert(s.take(4) =~= uint(body.len() as int, 4));
    assert(s.subrange(4, 4 + body.len() as int) =~= body);
}

/// A partial read is incomplete, never an error: every strict prefix of a framed message
/// asks for more bytes.
pub proof fn a_partial_frame_asks_for_more(body: Seq<u8>, n: nat)
    requires
        body.len() <= MAX_FRAME_LEN,
        n < framed(body).len(),
    ensures
        decoded_framed(framed(body).take(n as int)) == Ok::<Option<(FrameModel, nat)>, Error>(None),
{
    let s = framed(body);
    framing_is_read_back(body, Seq::empty());
    assert(s + Seq::empty() =~= s);
    if n >= 4 {
        assert(s.take(n as int).take(4) =~= s.take(4));
    }
}

// ---------------------------------------------------------------- the frame, byte by byte
/// Every frame opens with the byte of its own kind.
pub proof fn frames_open_with_their_kind(m: FrameModel)
    ensures
        m.frame_bytes().len() >= 1,
        m.frame_bytes()[0] == match m {
            FrameModel::Hello { .. } => 0x01u8,
            FrameModel::HelloAck { .. } => 0x02u8,
            FrameModel::Motion(_) => 0x10u8,
            FrameModel::Button(_) => 0x11u8,
            FrameModel::Scroll(_) => 0x12u8,
            FrameModel::Key(_) => 0x13u8,
            FrameModel::Enter { .. } => 0x20u8,
            FrameModel::Leave { .. } => 0x21u8,
            FrameModel::ReleaseAll { .. } => 0x22u8,
            FrameModel::KeyStateDigest { .. } => 0x30u8,
            FrameModel::KeyStateQuery { .. } => 0x31u8,
            FrameModel::KeyStateFull { .. } => 0x32u8,
            FrameModel::Ping { .. } => 0x40u8,
            FrameModel::Pong { .. } => 0x41u8,
        },
{
    wire::the_first_byte_counts_most(m.kind() as nat);
}

/// The sides of a screen are numbered left, right, top, bottom.
pub proof fn edges_have_their_numbers(v: u8)
    ensures
        Edge::Left.code() == 0,
        Edge::Right.code() == 1,
        Edge::Top.code() == 2,
        Edge::Bottom.code() == 3,
        match Edge::of_code(v) {
            Some(e) => v < 4 && e.code() == v,
            None => v >= 4,
        },
        Edge::Left.facing() == Edge::Right,
        Edge::Top.facing() == Edge::Bottom,
{
}

/// Whether the four bytes at `i` spell a signed number.
pub open spec fn signed_at(s: Seq<u8>, i: int, v: i32) -> bool {
    (wire::four_at(s, i) - v) % 0x1_0000_0000 == 0
}

/// A pointer frame says, in this order: its number, where the pointer is (across, then down)
/// and how far it has come (across, then down); a button frame its number, which button, how
/// it was pressed and what was held; a scroll frame its number, how far (across, then down),
/// in which unit, and whether the gesture is over.
pub proof fn pointer_frames_are_laid_out_so(m: Motion, b: ButtonEvent, c: ScrollEvent)
    ensures
        ({
            let s = FrameModel::Motion(m).frame_bytes();
            &&& s.len() == 21
            &&& wire::four_at(s, 1) == m.seq
            &&& signed_at(s, 5, m.cursor.x)
            &&& signed_at(s, 9, m.cursor.y)
            &&& signed_at(s, 13, m.travel_x)
            &&& signed_at(s, 17, m.travel_y)
        }),
        ({
            let s = FrameModel::Button(b).frame_bytes();
            &&& s.len() == 9
            &&& wire::four_at(s, 1) == b.seq
            &&& s[5] == b.button.code()
            &&& s[6] == b.press.code()
            &&& wire::two_at(s, 7) == b.modifiers.0
        }),
        ({
            let s = FrameModel::Scroll(c).frame_bytes();
            &&& s.len() == 15
            &&& wire::four_at(s, 1) == c.seq
            &&& signed_at(s, 5, c.dx)
            &&& signed_at(s, 9, c.dy)
            &&& s[13] == c.unit.code()
            &&& s[14] == (if c.end_of_gesture {
                1u8
            } else {
                0u8
            })
        }),
{
    wire::the_first_byte_counts_most(0x10);
    wire::the_first_byte_counts_most(0x11);
    wire::the_first_byte_counts_most(0x12);
    wire::the_first_byte_counts_most(m.seq as nat);
    wire::the_first_byte_counts_most(wire::bits32(m.cursor.x));
    wire::the_first_byte_counts_most(wire::bits32(m.cursor.y));
    wire::the_first_byte_counts_most(wire::bits32(m.travel_x));
    wire::the_first_byte_counts_most(wire::bits32(m.travel_y));
    wire::the_first_byte_counts_most(b.seq as nat);
    wire::the_first_byte_counts_most(b.button.code() as nat);
    wire::the_first_byte_counts_most(b.press.code() as nat);
    wire::the_first_byte_counts_most(b.modifiers.0 as nat);
    wire::the_first_byte_counts_most(c.seq as nat);
    wire::the_first_byte_counts_most(wire::bits32(c.dx));
    wire::the_first_byte_counts_most(wire::bits32(c.dy));
    wire::the_first_byte_counts_most(c.unit.code() as nat);
    wire::the_first_byte_counts_most(flag(c.end_of_gesture) as nat);
}

/// A handover says, in this order: its number, where the pointer arrives (across, then down),
/// at which side, the four words of held keys and what is held of the modifiers.
pub proof fn a_handover_is_laid_out_so(
    seq: u32,
    cursor: Point,
    edge: Edge,
    words: Seq<u64>,
    mask: u16,
)
    ensures
        ({
            let s = (FrameModel::Enter { seq, cursor, edge, words, mask }).frame_bytes();
            &&& s.len() == 48
            &&& wire::four_at(s, 1) == seq
            &&& signed_at(s, 5, cursor.x)
            &&& signed_at(s, 9, cursor.y)
            &&& s[13] == edge.code()
            &&& wire::eight_at(s, 14) == words[0]
            &&& wire::eight_at(s, 22) == words[1]
            &&& wire::eight_at(s, 30) == words[2]
            &&& wire::eight_at(s, 38) == words[3]
            &&& wire::two_at(s, 46) == mask
        }),
{
    wire::the_first_byte_counts_most(0x20);
    wire::the_first_byte_counts_most(seq as nat);
    wire::the_first_byte_counts_most(wire::bits32(cursor.x));
    wire::the_first_byte_counts_most(wire::bits32(cursor.y));
    wire::the_first_byte_counts_most(edge.code() as nat);
    wire::the_first_byte_counts_most(words[0] as nat);
    wire::the_first_byte_counts_most(words[1] as nat);
    wire::the_first_byte_counts_most(words[2] as nat);
    wire::the_first_byte_counts_most(words[3] as nat);
    wire::the_first_byte_counts_most(mask as nat);
}

/// The frames about held keys begin with their number; a fingerprint is followed by how many
/// keys are held, and a whole state is written as in a handover.
pub proof fn key_state_frames_are_laid_out_so(
    seq: u32,
    digest: u64,
    count: u16,
    words: Seq<u64>,
    mask: u16,
)
    ensures
        ({
            let s = (FrameModel::Leave { seq }).frame_bytes();
            s.len() == 5 && wire::four_at(s, 1) == seq
        }),
        ({
            let s = (FrameModel::ReleaseAll { seq }).frame_bytes();
            s.len() == 5 && wire::four_at(s, 1) == seq
        }),
        ({
            let s = (FrameModel::KeyStateQuery { seq }).frame_bytes();
            s.len() == 5 && wire::four_at(s, 1) == seq
        }),
        ({
            let s = (FrameModel::KeyStateDigest { seq, digest, count }).frame_bytes();
            s.len() == 15 && wire::four_at(s, 1) == seq && wire::eight_at(s, 5) == digest
                && wire::two_at(s, 13) == count
        }),
        ({
            let s = (FrameModel::KeyStateFull { seq, words, mask }).frame_bytes();
            &&& s.len() == 39
            &&& wire::four_at(s, 1) == seq
            &&& wire::eight_at(s, 5) == words[0]
            &&& wire::eight_at(s, 13) == words[1]
            &&& wire::eight_at(s, 21) == words[2]
            &&& wire::eight_at(s, 29) == words[3]
            &&& wire::two_at(s, 37) == mask
        }),
{
    wire::the_first_byte_counts_most(0x21);
    wire::the_first_byte_counts_most(0x22);
    wire::the_first_byte_counts_most(0x30);
    wire::the_first_byte_counts_most(0x31);
    wire::the_first_byte_counts_most(0x32);
    wire::the_first_byte_counts_most(seq as nat);
    wire::the_first_byte_counts_most(digest as nat);
    wire::the_first_byte_counts_most(count as nat);
    wire::the_first_byte_counts_most(words[0] as nat);
    wire::the_first_byte_counts_most(words[1] as nat);
    wire::the_first_byte_counts_most(words[2] as nat);
    wire::the_first_byte_counts_most(words[3] as nat);
    wire::the_first_byte_counts_most(mask as nat);
}

/// A probe says its number and when it was sent; its answer the same and when it was echoed.
pub proof fn probes_are_laid_out_so(nonce: u64, t_send_us: u64, t_echo_us: u64)
    ensures
        ({
            let s = (FrameModel::Ping { nonce, t_send_us }).frame_bytes();
            s.len() == 17 && wire::eight_at(s, 1) == nonce && wire::eight_at(s, 9) == t_send_us
        }),
        ({
            let s = (FrameModel::Pong { nonce, t_send_us, t_echo_us }).frame_bytes();
            s.len() == 25 && wire::eight_at(s, 1) == nonce && wire::eight_at(s, 9) == t_send_us
                && wire::eight_at(s, 17) == t_echo_us
        }),
{
    wire::the_first_byte_counts_most(0x40);
    wire::the_first_byte_counts_most(0x41);
    wire::the_first_byte_counts_most(nonce as nat);
    wire::the_first_byte_counts_most(t_send_us as nat);
    wire::the_first_byte_counts_most(t_echo_us as nat);
}

/// A greeting says, in this order: the version, who sends it, its name, the width, the height
/// and the scale of its screen, and how it wants keys; its answer the version, who sends it,
/// its name, whether it accepts, and why.
pub proof fn greetings_are_laid_out_so(
    version: u16,
    peer: Seq<u8>,
    name: Seq<char>,
    width: u32,
    height: u32,
    scale: u32,
    policy: LayoutPolicy,
    accepted: bool,
    message: Seq<char>,
)
    requires
        peer.len() == 16,
        encode_utf8(name).len() < 0x1_0000,
        encode_utf8(message).len() < 0x1_0000,
    ensures
        ({
            let m = FrameModel::Hello { version, peer, name, width, height, scale, policy };
            let (s, n) = (m.frame_bytes(), encode_utf8(name).len() as int);
            &&& s.len() == 34 + n
            &&& wire::two_at(s, 1) == version
            &&& s.subrange(3, 19) == peer
            &&& wire::two_at(s, 19) == n
            &&& s.subrange(21, 21 + n) == encode_utf8(name)
            &&& wire::four_at(s, 21 + n) == width
            &&& wire::four_at(s, 25 + n) == height
            &&& wire::four_at(s, 29 + n) == scale
            &&& s[33 + n] == policy.code()
        }),
        ({
            let m = FrameModel::HelloAck { version, peer, name, accepted, message };
            let (s, n) = (m.frame_bytes(), encode_utf8(name).len() as int);
            let k = encode_utf8(message).len() as int;
            &&& s.len() == 24 + n + k
            &&& wire::two_at(s, 1) == version
            &&& s.subrange(3, 19) == peer
            &&& wire::two_at(s, 19) == n
            &&& s.subrange(21, 21 + n) == encode_utf8(name)
            &&& s[21 + n] == (if accepted {
                1u8
            } else {
                0u8
            })
            &&& wire::two_at(s, 22 + n) == k
            &&& s.subrange(24 + n, 24 + n + k) == encode_utf8(message)
        }),
{
    wire::the_first_byte_counts_most(0x01);
    wire::the_first_byte_counts_most(0x02);
    wire::the_first_byte_counts_most(version as nat);
    wire::the_first_byte_counts_most(encode_utf8(name).len());
    wire::the_first_byte_counts_most(encode_utf8(message).len());
    wire::the_first_byte_counts_most(width as nat);
    wire::the_first_byte_counts_most(height as nat);
    wire::the_first_byte_counts_most(scale as nat);
    wire::the_first_byte_counts_most(policy.code() as nat);
    wire::the_first_byte_counts_most(flag(accepted) as nat);
}

/// On a stream a frame follows its length, in four bytes.
pub proof fn a_frame_follows_its_length(body: Seq<u8>)
    requires
        body.len() < 0x1_0000_0000,
    ensures
        framed(body).len() == 4 + body.len(),
        wire::four_at(framed(body), 0) == body.len(),
        framed(body).skip(4) == body,
{
    wire::the_first_byte_counts_most(body.len());
}

/// A key frame says, in this order: its number, which key, how long its text is and that
/// text, how it was pressed and what was held.
pub proof fn a_key_frame_is_laid_out_so(k: KeyModel)
    requires
        encode_utf8(k.text).len() <= 15,
    ensures
        ({
            let (s, n) = (FrameModel::Key(k).frame_bytes(), encode_utf8(k.text).len() as int);
            &&& s.len() == 11 + n
            &&& wire::four_at(s, 1) == k.seq
            &&& wire::two_at(s, 5) == k.physical.0
            &&& s[7] == n
            &&& s.subrange(8, 8 + n) == encode_utf8(k.text)
            &&& s[8 + n] == k.press.code()
            &&& wire::two_at(s, 9 + n) == k.modifiers.0
        }),
{
    wire::the_first_byte_counts_most(0x13);
    wire::the_first_byte_counts_most(k.seq as nat);
    wire::the_first_byte_counts_most(k.physical.0 as nat);
    wire::the_first_byte_counts_most(encode_utf8(k.text).len());
    wire::the_first_byte_counts_most(k.press.code() as nat);
    wire::the_first_byte_counts_most(k.modifiers.0 as nat);
}

/// What a frame says is what it holds: every part of a greeting, of an answer to one, of a
/// handover and of a whole key state is told as itself.
pub proof fn a_frame_says_what_it_holds(
    hello: Hello,
    ack: HelloAck,
    key: KeyEvent,
    enter: Enter,
    seq: u32,
    state: KeyState,
)
    ensures
        match Frame::Hello(hello)@ {
            FrameModel::Hello { version, peer, name, width, height, scale, policy } => {
                &&& version == hello.version
                &&& peer == hello.peer.0@
                &&& name == hello.name@
                &&& (width, height, scale) == (hello.width, hello.height, hello.scale)
                &&& policy == hello.layout_policy
            },
            _ => false,
        },
        match Frame::HelloAck(ack)@ {
            FrameModel::HelloAck { version, peer, name, accepted, message } => {
                &&& version == ack.version
                &&& peer == ack.peer.0@
                &&& name == ack.name@
                &&& accepted == ack.accepted
                &&& message == ack.message@
            },
            _ => false,
        },
        match Frame::Key(key)@ {
            FrameModel::Key(k) => {
                &&& k.seq == key.seq
                &&& k.physical == key.physical
                &&& k.text == key.logical@
                &&& k.press == key.press
                &&& k.modifiers == key.modifiers
            },
            _ => false,
        },
        match Frame::Enter(enter)@ {
            FrameModel::Enter { seq, cursor, edge, words, mask } => {
                &&& seq == enter.seq
                &&& cursor == enter.cursor
                &&& edge == enter.edge
                &&& words == enter.keys.key_words()
                &&& mask == enter.keys.mask().0
            },
            _ => false,
        },
        match (Frame::KeyStateFull { seq, state })@ {
            FrameModel::KeyStateFull { seq: told, words, mask } => {
                &&& told == seq
                &&& words == state.key_words()
                &&& mask == state.mask().0
            },
            _ => false,
        },
{
}

/// A frame announced as longer than the largest is refused before it has come in; a shorter
/// one is waited for until its last byte.
pub proof fn only_an_oversized_frame_is_refused_early(s: Seq<u8>)
    requires
        s.len() >= 4,
    ensures
        wire::four_at(s, 0) > 65536 ==> decoded_framed(s) == Err::<
            Option<(FrameModel, nat)>,
            Error,
        >(Error::TooLong),
        wire::four_at(s, 0) <= 65536 && s.len() < 4 + wire::four_at(s, 0) ==> decoded_framed(s)
            == Ok::<Option<(FrameModel, nat)>, Error>(None),
        wire::four_at(s, 0) <= 65536 && s.len() >= 4 + wire::four_at(s, 0) ==> !(decoded_framed(s)
            == Ok::<Option<(FrameModel, nat)>, Error>(None)),
        decoded_framed(s) matches Ok(Some((_, taken))) ==> taken == 4 + wire::four_at(s, 0),
{
    wire::what_is_read_is_spelled_so(s.take(4));
}

} // verus!
