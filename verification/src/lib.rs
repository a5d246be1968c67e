//! One mouse, one keyboard and one clipboard across every machine on a desk.
//!
//! Everything here is a decision, a format or a rule, and each function states exactly what
//! it gives back. What touches a device, a socket or a disk is around the library: it hands
//! in what it read and carries out what it is told.
//!
//! - What travels: [`wire`], [`event`], [`keys`], [`state`], [`frame`], [`parcel`].
//! - Who may connect: [`identity`], [`pairing`], [`doorbell`], [`discovery`], [`transport`],
//!   [`fleet`], [`licence`].
//! - Where the pointer is: [`screen`], [`focus`], [`desk`], [`layout`].
//! - What happens to input: [`capture`], [`forward`], [`session`], [`inject`].
//! - What is shared and kept: [`clipboard`], [`files`], [`store`].
//! - What a person sees: [`web`], [`page`], [`report`], [`startup`], [`text`].
use vstd::prelude::*;
use vstd::string::*;

pub mod capture;
pub mod clipboard;
pub mod desk;
pub mod discovery;
pub mod doorbell;
pub mod event;
pub mod files;
pub mod fleet;
pub mod focus;
pub mod forward;
pub mod frame;
pub mod identity;
pub mod inject;
pub mod keys;
pub mod layout;
pub mod licence;
pub mod page;
pub mod pairing;
pub mod parcel;
pub mod report;
pub mod screen;
pub mod session;
pub mod startup;
pub mod state;
pub mod store;
pub mod text;
pub mod transport;
pub mod web;
pub mod wire;

verus! {

/// Wire protocol version.
///
/// Bumped on any incompatible change to the frame encoding. Peers exchange this in
/// [`frame::Hello`] and refuse to proceed on mismatch.
pub const PROTOCOL_VERSION: u16 = 2;

/// Magic bytes opening a control stream, so a wrong-protocol peer fails immediately.
pub const MAGIC: [u8; 4] = [0x53, 0x45, 0x41, 0x4D];

/// Default UDP port.
pub const DEFAULT_PORT: u16 = 24810;

/// A protocol encode/decode error.
///
/// Every variant is a rejection, never a partial or best-guess result.
#[derive(Clone, PartialEq, Eq, Debug)]
#[non_exhaustive]
pub enum Error {
    /// Input ended mid-field.
    Truncated,
    /// Bytes remained after the frame was fully decoded.
    TrailingBytes(usize),
    /// A length-prefixed field exceeded its permitted size.
    TooLong,
    /// A string field was not valid UTF-8.
    InvalidUtf8,
    /// An enum discriminant had no meaning in this protocol version.
    UnknownVariant(&'static str),
    /// The frame kind byte is not recognised.
    UnknownFrameKind(u8),
    /// The peer speaks a different protocol version.
    VersionMismatch { ours: u16, theirs: u16 },
    /// A control stream did not begin with the magic bytes.
    BadMagic,
}

impl Error {
    /// What a person is told.
    pub open spec fn message(self) -> Seq<char> {
        match self {
            Error::Truncated => "frame ended unexpectedly"@,
            Error::TrailingBytes(n) => text::decimal(n as nat)
                + " unexpected trailing byte(s) after frame"@,
            Error::TooLong => "length-prefixed field exceeds its limit"@,
            Error::InvalidUtf8 => "string field is not valid UTF-8"@,
            Error::UnknownVariant(ty) => "unknown discriminant for "@ + ty@,
            Error::UnknownFrameKind(k) => "unknown frame kind 0x"@ + text::hex_byte(k),
            Error::VersionMismatch { ours, theirs } => "protocol version mismatch: we speak "@
                + text::decimal(ours as nat) + ", peer speaks "@ + text::decimal(theirs as nat),
            Error::BadMagic => "stream did not begin with the seam magic bytes"@,
        }
    }

    /// What a person is told.
    pub fn describe(&self) -> (s: String)
        ensures
            s@ == self.message(),
    {
        match self {
            Error::Truncated => String::from_str("frame ended unexpectedly"),
            Error::TrailingBytes(n) => text::plus(
                text::decimal_text(*n as u64),
                " unexpected trailing byte(s) after frame",
            ),
            Error::TooLong => String::from_str("length-prefixed field exceeds its limit"),
            Error::InvalidUtf8 => String::from_str("string field is not valid UTF-8"),
            Error::UnknownVariant(ty) => text::plus(
                String::from_str("unknown discriminant for "),
                ty,
            ),
            Error::UnknownFrameKind(k) => {
                let mut s = String::from_str("unknown frame kind 0x");
                text::push_hex(&mut s, *k);
                s
            },
            Error::VersionMismatch { ours, theirs } => {
                let mut s = String::from_str("protocol version mismatch: we speak ");
                s.append(text::decimal_text(*ours as u64).as_str());
                s.append(", peer speaks ");
                s.append(text::decimal_text(*theirs as u64).as_str());
                s
            },
            Error::BadMagic => String::from_str("stream did not begin with the seam magic bytes"),
        }
    }
}

} // verus!
