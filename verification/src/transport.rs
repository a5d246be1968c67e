//! What the connection between two peers may fail with, and the decisions made about one.
//!
//! Pointer motion must never be delayed and corrects itself, so it rides unreliable
//! datagrams. Keys and buttons cannot be made up for by a later packet, so they ride
//! reliable streams. Nothing crosses over: see [`datagram_bytes`].
use crate::frame::{Frame, FrameModel, PeerId};
use crate::identity::{Fingerprint, Trust, TrustModel, TrustStore};
use crate::pairing::PairingCode;
use crate::{frame, identity, pairing, text};
use vstd::prelude::*;
use vstd::string::*;

verus! {

/// The largest datagram that is read. Motion frames are about 24 bytes; this is headroom,
/// and well under any plausible path limit.
pub const MAX_DATAGRAM: usize = 512;

/// An error from the transport layer.
///
/// Every variant is phrased so it can be shown to a user verbatim: a failure to connect
/// names its cause.
#[derive(Debug)]
#[non_exhaustive]
pub enum Error {
    /// This machine's identity key could not be made or loaded.
    Identity(String),
    /// The peer was never paired.
    NotPaired,
    /// The two machines showed different codes.
    PairingCodeMismatch { ours: String, theirs: String },
    /// A known peer presented another key.
    IdentityConflict,
    /// The peer speaks something else.
    Protocol(crate::Error),
    /// The encrypted connection could not be set up.
    Tls(String),
    /// The local address could not be bound.
    Bind { addr: String, reason: String },
    /// The peer could not be reached.
    Connect { addr: String, reason: String },
    /// A peer that dialled this machine did not get through the handshake.
    Handshake { addr: String, reason: String },
    /// The peer presented no certificate.
    NoPeerCertificate,
    /// Only pointer motion can recover from being dropped.
    NotDatagramSafe,
    /// Sending failed.
    Send(String),
    /// Receiving failed.
    Recv(String),
    /// Advertising or browsing the network failed.
    Discovery(String),
}

impl Error {
    /// What a person is told.
    pub open spec fn message(self) -> Seq<char> {
        match self {
            Error::Identity(why) => "could not create this machine's identity key: "@ + why@,
            Error::NotPaired =>
                "this peer is not paired with your machine yet — run pairing on both machines and confirm the 6-digit code"@,
            Error::PairingCodeMismatch { ours, theirs } => "the pairing codes did not match ("@
                + ours@ + " here, "@ + theirs@
                + " on the peer) — someone may be intercepting the connection, so pairing was refused"@,
            Error::IdentityConflict =>
                "this peer's identity has changed since you paired with it — if you reinstalled seam there, remove the old pairing first; otherwise someone is impersonating it"@,
            Error::Protocol(e) => "the peer speaks a different version of the seam protocol: "@
                + e.message(),
            Error::Tls(why) => "could not set up the encrypted connection: "@ + why@,
            Error::Bind { addr, reason } => "could not bind to "@ + addr@ + ": "@ + reason@,
            Error::Connect { addr, reason } => "could not reach the peer at "@ + addr@ + ": "@
                + reason@,
            Error::Handshake { addr, reason } => "the handshake with "@ + addr@ + " failed: "@
                + reason@,
            Error::NoPeerCertificate =>
                "the peer presented no certificate, so its identity could not be established"@,
            Error::NotDatagramSafe =>
                "refused to send this frame as an unreliable datagram: only pointer motion can recover from being dropped"@,
            Error::Send(why) => "could not send to the peer: "@ + why@,
            Error::Recv(why) => "could not receive from the peer: "@ + why@,
            Error::Discovery(why) => "could not use network discovery: "@ + why@,
        }
    }

    /// What a person is told.
    pub fn describe(&self) -> (s: String)
        ensures
            s@ == self.message(),
    {
        match self {
            Error::Identity(why) => text::plus(
                String::from_str("could not create this machine's identity key: "),
                why.as_str(),
            ),
            Error::NotPaired => String::from_str(
                "this peer is not paired with your machine yet — run pairing on both machines and confirm the 6-digit code",
            ),
            Error::PairingCodeMismatch { ours, theirs } => {
                let mut s = String::from_str("the pairing codes did not match (");
                s.append(ours.as_str());
                s.append(" here, ");
                s.append(theirs.as_str());
                s.append(
                    " on the peer) — someone may be intercepting the connection, so pairing was refused",
                );
                s
            },
            Error::IdentityConflict => String::from_str(
                "this peer's identity has changed since you paired with it — if you reinstalled seam there, remove the old pairing first; otherwise someone is impersonating it",
            ),
            Error::Protocol(e) => text::plus(
                String::from_str("the peer speaks a different version of the seam protocol: "),
                e.describe().as_str(),
            ),
            Error::Tls(why) => text::plus(
                String::from_str("could not set up the encrypted connection: "),
                why.as_str(),
            ),
            Error::Bind { addr, reason } => {
                let mut s = String::from_str("could not bind to ");
                s.append(addr.as_str());
                s.append(": ");
                s.append(reason.as_str());
                s
            },
            Error::Connect { addr, reason } => {
                let mut s = String::from_str("could not reach the peer at ");
                s.append(addr.as_str());
                s.append(": ");
                s.append(reason.as_str());
                s
            },
            Error::Handshake { addr, reason } => {
                let mut s = String::from_str("the handshake with ");
                s.append(addr.as_str());
                s.append(" failed: ");
                s.append(reason.as_str());
                s
            },
            Error::NoPeerCertificate => String::from_str(
                "the peer presented no certificate, so its identity could not be established",
            ),
            Error::NotDatagramSafe => String::from_str(
                "refused to send this frame as an unreliable datagram: only pointer motion can recover from being dropped",
            ),
            Error::Send(why) => text::plus(
                String::from_str("could not send to the peer: "),
                why.as_str(),
            ),
            Error::Recv(why) => text::plus(
                String::from_str("could not receive from the peer: "),
                why.as_str(),
            ),
            Error::Discovery(why) => text::plus(
                String::from_str("could not use network discovery: "),
                why.as_str(),
            ),
        }
    }
}

/// Whether a failure to bind says that something is already listening.
///
/// Narrow on purpose: any other failure to bind is a real error.
pub open spec fn in_use(message: Seq<char>) -> bool {
    ||| text::found(message, "Address already in use"@, 0) is Some
    ||| text::found(message, "os error 48"@, 0) is Some
    ||| text::found(message, "os error 98"@, 0) is Some
    ||| text::found(message, "10048"@, 0) is Some
}

/// Whether a failure to bind says that something is already listening.
pub fn is_address_in_use(error: &Error) -> (b: bool)
    ensures
        b == in_use(error.message()),
{
    let message = error.describe();
    let chars = text::chars_of(message.as_str());
    let s = chars.as_slice();
    text::holds(s, "Address already in use") || text::holds(s, "os error 48") || text::holds(
        s,
        "os error 98",
    ) || text::holds(s, "10048")
}

// ---------------------------------------------------------------- a link
/// Who is at the other end of an established connection.
///
/// Authenticated is not the same as authorised: the peer has proved which key it holds, but
/// whether that key is one this machine has paired with is [`Link::authorize`].
#[derive(Clone, Copy, Debug)]
pub struct Link {
    peer: Fingerprint,
}

/// What is made of a peer, given how the trust store classes it.
pub open spec fn verdict(trust: Trust) -> Option<Error> {
    match trust {
        Trust::Trusted => None,
        Trust::Unknown => Some(Error::NotPaired),
        Trust::Conflict => Some(Error::IdentityConflict),
    }
}

impl Link {
    /// The key the peer proved to hold.
    pub closed spec fn print(self) -> Fingerprint {
        self.peer
    }

    /// The link to a peer that presented this certificate. A peer that presented none, or
    /// one that cannot be read, fails closed.
    pub fn from_certificate(certificate: Option<&[u8]>) -> (r: Result<Link, Error>)
        ensures
            match certificate {
                Some(der) => match identity::certificate_spki(der@) {
                    Some(spki) => r is Ok && r->Ok_0.print()@ == identity::sha256(
                        identity::spki_domain() + spki,
                    ),
                    None => r == Err::<Link, Error>(Error::NoPeerCertificate),
                },
                None => r == Err::<Link, Error>(Error::NoPeerCertificate),
            },
    {
        match certificate {
            Some(der) => match Fingerprint::of_certificate(der) {
                Some(peer) => Ok(Link { peer }),
                None => Err(Error::NoPeerCertificate),
            },
            None => Err(Error::NoPeerCertificate),
        }
    }

    /// The link to a peer that proved to hold this key.
    pub fn to(peer: Fingerprint) -> (l: Link)
        ensures
            l.print() == peer,
    {
        Link { peer }
    }

    #[must_use]
    pub fn peer_fingerprint(&self) -> (f: Fingerprint)
        ensures
            f == self.print(),
    {
        self.peer
    }

    #[must_use]
    pub fn peer_id(&self) -> (p: PeerId)
        ensures
            p.0@ == self.print().id(),
    {
        self.peer.peer_id()
    }

    /// Check this peer against the trust store.
    ///
    /// Deliberately separate from connecting: each outcome needs different handling, and
    /// collapsing them into one truth value is how impostors get accepted silently.
    pub fn authorize(&self, store: &TrustStore) -> (r: Result<(), Error>)
        requires
            store.wf(),
        ensures
            match verdict(identity::trust_of(store@, self.print())) {
                None => r is Ok,
                Some(e) => r == Err::<(), Error>(e),
            },
    {
        match store.classify(self.peer) {
            Trust::Trusted => Ok(()),
            Trust::Unknown => Err(Error::NotPaired),
            Trust::Conflict => Err(Error::IdentityConflict),
        }
    }

    /// The code to display during pairing, from what this connection's key exporter gave.
    ///
    /// Someone in the middle must hold two separate sessions, and so shows a different code
    /// to each side.
    pub fn pairing_code(exported: Option<[u8; 32]>) -> (r: Result<PairingCode, Error>)
        ensures
            match exported {
                Some(secret) => r is Ok && r->Ok_0.0 == PairingCode::of_hash(
                    identity::sha256(pairing::code_domain() + secret@),
                ),
                None => r matches Err(Error::Tls(why)) && why@
                    == "connection is not ready to derive a pairing code"@,
            },
    {
        match exported {
            Some(secret) => Ok(PairingCode::from_exporter(&secret)),
            None => Err(
                Error::Tls(String::from_str("connection is not ready to derive a pairing code")),
            ),
        }
    }
}

/// Only a paired key gets in: a link is let through just where the store holds exactly the
/// key that the peer proved to hold. A known machine with another key is a conflict, and a
/// machine nobody paired is unknown, and neither is let through.
pub proof fn only_a_paired_key_gets_in(store: Map<Seq<u8>, TrustModel>, peer: Fingerprint)
    ensures
        verdict(identity::trust_of(store, peer)) is None <==> store.contains_key(peer.id())
            && store[peer.id()].fingerprint == peer,
        verdict(identity::trust_of(store, peer)) == Some(Error::NotPaired) <==> !store.contains_key(
            peer.id(),
        ),
        verdict(identity::trust_of(store, peer)) == Some(Error::IdentityConflict)
            <==> store.contains_key(peer.id()) && store[peer.id()].fingerprint != peer,
{
}

// ---------------------------------------------------------------- what is sent and read
/// What sending a frame as a datagram puts on the wire.
pub open spec fn datagram_bytes(m: FrameModel) -> Result<Seq<u8>, Error> {
    if !(m is Motion) {
        Err(Error::NotDatagramSafe)
    } else if !m.encodable() {
        Err(Error::Protocol(crate::Error::TooLong))
    } else {
        Ok(m.frame_bytes())
    }
}

/// Make a frame into a datagram.
///
/// Only motion may travel this way: everything else cannot be made up for by a later
/// packet. Getting that wrong means a silently lost key-up, so it is enforced.
pub fn send_datagram(frame: &Frame) -> (r: Result<Vec<u8>, Error>)
    ensures
        match datagram_bytes(frame@) {
            Ok(bytes) => r is Ok && r->Ok_0@ == bytes,
            Err(e) => r == Err::<Vec<u8>, Error>(e),
        },
{
    if !frame.is_datagram_safe() {
        return Err(Error::NotDatagramSafe);
    }
    let mut buf: Vec<u8> = Vec::new();
    match frame.encode(&mut buf) {
        Ok(()) => {
            proof {
                assert(buf@ =~= frame@.frame_bytes());
            }
            Ok(buf)
        },
        Err(e) => Err(Error::Protocol(e)),
    }
}

/// Read a datagram that arrived.
pub fn recv_datagram(bytes: &[u8]) -> (r: Result<Frame, Error>)
    ensures
        if bytes@.len() > MAX_DATAGRAM {
            r matches Err(Error::Recv(why)) && why@ == "datagram of "@ + text::decimal(
                bytes@.len(),
            ) + " bytes is oversized"@
        } else {
            match frame::decoded(bytes@) {
                Ok(m) => r is Ok && r->Ok_0@ == m,
                Err(e) => r == Err::<Frame, Error>(Error::Protocol(e)),
            }
        },
{
    if bytes.len() > MAX_DATAGRAM {
        let mut why = String::from_str("datagram of ");
        why.append(text::decimal_text(bytes.len() as u64).as_str());
        why.append(" bytes is oversized");
        return Err(Error::Recv(why));
    }
    match Frame::decode(bytes) {
        Ok(frame) => Ok(frame),
        Err(e) => Err(Error::Protocol(e)),
    }
}

/// Make a frame into what a reliable stream carries.
pub fn send_reliable(frame: &Frame) -> (r: Result<Vec<u8>, Error>)
    ensures
        if frame@.encodable() && frame@.frame_bytes().len() <= frame::MAX_FRAME_LEN {
            r is Ok && r->Ok_0@ == frame::framed(frame@.frame_bytes())
        } else {
            r == Err::<Vec<u8>, Error>(Error::Protocol(crate::Error::TooLong))
        },
{
    let mut buf: Vec<u8> = Vec::new();
    match frame.encode_framed(&mut buf) {
        Ok(()) => {
            proof {
                assert(buf@ =~= frame::framed(frame@.frame_bytes()));
            }
            Ok(buf)
        },
        Err(e) => Err(Error::Protocol(e)),
    }
}

/// Read what a reliable stream carried: one frame.
pub fn recv_reliable(bytes: &[u8]) -> (r: Result<Frame, Error>)
    ensures
        match frame::decoded_framed(bytes@) {
            Ok(Some((m, _))) => r is Ok && r->Ok_0@ == m,
            Ok(None) => r matches Err(Error::Recv(why)) && why@ == "stream ended mid-frame"@,
            Err(e) => r == Err::<Frame, Error>(Error::Protocol(e)),
        },
{
    match Frame::decode_framed(bytes) {
        Ok(Some((frame, _))) => Ok(frame),
        Ok(None) => Err(Error::Recv(String::from_str("stream ended mid-frame"))),
        Err(e) => Err(Error::Protocol(e)),
    }
}

/// Nothing but motion is ever sent unreliably.
pub proof fn only_motion_rides_datagrams(m: FrameModel)
    ensures
        datagram_bytes(m) is Ok ==> m is Motion,
        !(m is Motion) ==> datagram_bytes(m) == Err::<Seq<u8>, Error>(Error::NotDatagramSafe),
{
}

/// Motion can always ride a datagram, and arrives there as the frame it was.
pub proof fn motion_arrives_as_it_was_sent(m: FrameModel)
    requires
        m is Motion,
    ensures
        datagram_bytes(m) is Ok,
        frame::decoded(datagram_bytes(m)->Ok_0) == Ok::<FrameModel, crate::Error>(m),
{
    frame::every_frame_round_trips(m);
}

/// That something is already listening is told by the system's words for it or by its
/// number, wherever in the message they stand, and by nothing else.
pub proof fn an_occupied_port_is_told_by_its_words(a: Seq<char>, b: Seq<char>, message: Seq<char>)
    ensures
        in_use(a + "Address already in use"@ + b),
        in_use(a + "os error 48"@ + b),
        in_use(a + "os error 98"@ + b),
        in_use(a + "10048"@ + b),
        in_use(message) ==> exists|i: int|
            text::stands_at(message, "Address already in use"@, i) || text::stands_at(
                message,
                "os error 48"@,
                i,
            ) || text::stands_at(message, "os error 98"@, i) || text::stands_at(
                message,
                "10048"@,
                i,
            ),
{
    stands_between(a, "Address already in use"@, b);
    stands_between(a, "os error 48"@, b);
    stands_between(a, "os error 98"@, b);
    stands_between(a, "10048"@, b);
    text::what_is_found_is_the_first(message, "Address already in use"@, 0);
    text::what_is_found_is_the_first(message, "os error 48"@, 0);
    text::what_is_found_is_the_first(message, "os error 98"@, 0);
    text::what_is_found_is_the_first(message, "10048"@, 0);
    if in_use(message) {
        let i = if let Some(i) = text::found(message, "Address already in use"@, 0) {
            i
        } else if let Some(i) = text::found(message, "os error 48"@, 0) {
            i
        } else if let Some(i) = text::found(message, "os error 98"@, 0) {
            i
        } else {
            text::found(message, "10048"@, 0)->0
        };
        assert(text::stands_at(message, "Address already in use"@, i) || text::stands_at(
            message,
            "os error 48"@,
            i,
        ) || text::stands_at(message, "os error 98"@, i) || text::stands_at(
            message,
            "10048"@,
            i,
        ));
    }
}

proof fn stands_between(a: Seq<char>, p: Seq<char>, b: Seq<char>)
    ensures
        text::found(a + p + b, p, 0) is Some,
{
    let s = a + p + b;
    text::what_is_found_is_the_first(s, p, 0);
    let at = a.len() as int;
    assert(s.subrange(at, at + p.len()) =~= p);
}

} // verus!
