//! One clipboard across the fleet: what is shared, what is recognised as an echo, and how
//! bulk travels.
//!
//! Machines connect in a star through whichever one they dialled, so what arrives from one
//! peer is relayed to all the others, under this machine's own counter.
use crate::frame::PeerId;
use crate::{text, wire};
use std::hash::{DefaultHasher, Hasher};
use vstd::bytes::*;
use vstd::prelude::*;
use vstd::std_specs::hash::*;
use vstd::string::*;

verus! {

/// Total cap for clipboard file transfers. A copy over this is refused, never truncated:
/// half a folder is worse than none.
pub const MAX_CLIPBOARD_FILE_BYTES: usize = 67_108_864;

/// No screen holds more pixel bytes than this.
pub const MAX_IMAGE_BYTES: u64 = 536_870_912;

/// No file that travels is larger than this.
pub const MAX_FILE_BYTES: u64 = 268_435_456;

// ---------------------------------------------------------------- outside calls
/// What zlib compression at its fastest level gives for some bytes.
pub uninterp spec fn deflated(raw: Seq<u8>) -> Seq<u8>;

/// What zlib decompression gives for some bytes when no more than `limit` are read: the
/// bytes, or nothing where the stream is corrupt.
pub uninterp spec fn inflated(packed: Seq<u8>, limit: nat) -> Option<Seq<u8>>;

/// `flate2::write::ZlibEncoder` over a `Vec`, which cannot fail. The output depends on the
/// bytes alone and is named [`deflated`]; decompressing it gives the bytes back, as long
/// as at least one byte more than there are may be read.
#[verifier::external_body]
fn zlib_deflate(raw: &[u8]) -> (packed: Vec<u8>)
    ensures
        packed@ == deflated(raw@),
        forall|limit: nat|
            limit > raw@.len() ==> #[trigger] inflated(packed@, limit) == Some(raw@),
{
    let mut encoder = flate2::write::ZlibEncoder::new(Vec::new(), flate2::Compression::fast());
    let _ = std::io::Write::write_all(&mut encoder, raw);
    encoder.finish().unwrap_or_default()
}

/// `flate2::read::ZlibDecoder`, read to its end or to `limit` bytes. The outcome depends on
/// the bytes and the limit alone and is named [`inflated`]; it is no longer than the limit.
#[verifier::external_body]
fn zlib_inflate(packed: &[u8], limit: u64) -> (r: Option<Vec<u8>>)
    ensures
        match inflated(packed@, limit as nat) {
            Some(raw) => r is Some && r->0@ == raw,
            None => r is None,
        },
        r matches Some(raw) ==> raw@.len() <= limit,
{
    let mut raw = Vec::new();
    let mut bounded = std::io::Read::take(flate2::read::ZlibDecoder::new(packed), limit);
    match std::io::Read::read_to_end(&mut bounded, &mut raw) {
        Ok(_) => Some(raw),
        Err(_) => None,
    }
}

// ---------------------------------------------------------------- bulk on the wire
/// How many bytes an image of these dimensions has.
pub open spec fn image_len(width: u32, height: u32) -> int {
    width * height * 4
}

/// The pixels of an image as they travelled, if they are exactly as many as its dimensions
/// call for and no screen is too large to exist.
pub open spec fn opened_image(packed: Seq<u8>, width: u32, height: u32) -> Option<Seq<u8>> {
    let expected = image_len(width, height);
    if expected > MAX_IMAGE_BYTES {
        None
    } else {
        exactly(inflated(packed, (expected + 1) as nat), expected)
    }
}

/// Bytes of exactly the expected length.
pub open spec fn exactly(raw: Option<Seq<u8>>, expected: int) -> Option<Seq<u8>> {
    match raw {
        Some(bytes) => if bytes.len() == expected {
            Some(bytes)
        } else {
            None
        },
        None => None,
    }
}

/// Compress pixels for the wire.
///
/// A copied screenshot is megabytes of raw pixels fanned out to every peer at once, enough
/// to strangle the very connection that carries it.
pub fn deflate_pixels(rgba: &[u8]) -> (packed: Vec<u8>)
    ensures
        packed@ == deflated(rgba@),
        forall|width: u32, height: u32|
            image_len(width, height) == rgba@.len() && rgba@.len() <= MAX_IMAGE_BYTES
                ==> #[trigger] opened_image(packed@, width, height) == Some(rgba@),
{
    zlib_deflate(rgba)
}

/// Whether what came out of decompression is what was promised.
pub fn accept_exact(raw: Option<Vec<u8>>, expected: u64) -> (r: Option<Vec<u8>>)
    ensures
        match raw {
            Some(bytes) => if bytes@.len() == expected {
                r is Some && r->0@ == bytes@
            } else {
                r is None
            },
            None => r is None,
        },
{
    match raw {
        Some(bytes) => if bytes.len() as u64 == expected {
            Some(bytes)
        } else {
            None
        },
        None => None,
    }
}

/// Decompress wire pixels, refusing anything that does not inflate to exactly
/// `width * height * 4` bytes: a mismatch is corruption, not something to guess at.
pub fn inflate_pixels(packed: &[u8], width: u32, height: u32) -> (r: Option<Vec<u8>>)
    ensures
        match opened_image(packed@, width, height) {
            Some(raw) => r is Some && r->0@ == raw,
            None => r is None,
        },
{
    proof {
        assert(0 <= width * height <= 0xFFFF_FFFF * 0xFFFF_FFFF) by (nonlinear_arith)
            requires
                0 <= width <= 0xFFFF_FFFF,
                0 <= height <= 0xFFFF_FFFF,
        ;
    }
    let expected: u128 = width as u128 * height as u128 * 4;
    if expected > MAX_IMAGE_BYTES as u128 {
        return None;
    }
    let raw = zlib_inflate(packed, expected as u64 + 1);
    accept_exact(raw, expected as u64)
}

/// Eight little-endian bytes of a length.
pub open spec fn le8(n: nat) -> Seq<u8> {
    wire::be_bytes(n, 8).reverse()
}

/// A file as it travels: its length, then its compressed bytes.
pub open spec fn packed_file(raw: Seq<u8>) -> Seq<u8> {
    le8(raw.len()) + deflated(raw)
}

/// A file as it arrived, if it inflates to exactly the length it promised and promised no
/// absurd one.
pub open spec fn opened_file(packed: Seq<u8>) -> Option<Seq<u8>> {
    if packed.len() < 8 {
        None
    } else {
        let expected = wire::be_value(packed.take(8).reverse()) as int;
        if expected > MAX_FILE_BYTES {
            None
        } else {
            exactly(inflated(packed.skip(8), (expected + 1) as nat), expected)
        }
    }
}

/// Compress one file's bytes for the wire: an 8-byte length, then deflate.
///
/// The length is what lets the receiver refuse a stream that does not inflate to exactly
/// what was promised.
pub fn deflate_file_bytes(raw: &[u8]) -> (packed: Vec<u8>)
    ensures
        packed@ == packed_file(raw@),
        raw@.len() <= MAX_FILE_BYTES ==> opened_file(packed@) == Some(raw@),
{
    let n: u64 = raw.len() as u64;
    let mut be: Vec<u8> = Vec::new();
    let mut w = wire::Writer::new(&mut be);
    w.u64(n);
    proof {
        wire::be_bytes_len(n as nat, 8);
        assert(be@ =~= wire::be_bytes(n as nat, 8));
    }
    let mut out: Vec<u8> = Vec::new();
    let mut i: usize = 8;
    while i > 0
        invariant
            i <= 8,
            be@ == wire::be_bytes(n as nat, 8),
            be@.len() == 8,
            out@ == be@.reverse().take(8 - i),
        decreases i,
    {
        i = i - 1;
        out.push(be[i]);
        proof {
            assert(be@.reverse().take(8 - i) =~= be@.reverse().take(7 - i).push(be@[i as int]));
        }
    }
    let body = zlib_deflate(raw);
    proof {
        assert(be@.reverse().take(8) =~= le8(n as nat));
    }
    out.extend_from_slice(body.as_slice());
    proof {
        let p = out@;
        assert(p =~= packed_file(raw@));
        assert(p.take(8) =~= le8(n as nat));
        assert(p.take(8).reverse() =~= wire::be_bytes(n as nat, 8));
        assert(p.skip(8) =~= deflated(raw@));
        wire::be_limits();
        wire::be_value_of_be_bytes(n as nat, 8);
    }
    out
}

/// Inverse of [`deflate_file_bytes`]; `None` on any mismatch or absurd claim.
pub fn inflate_file_bytes(packed: &[u8]) -> (r: Option<Vec<u8>>)
    ensures
        match opened_file(packed@) {
            Some(raw) => r is Some && r->0@ == raw,
            None => r is None,
        },
{
    if packed.len() < 8 {
        return None;
    }
    let (head, body) = packed.split_at(8);
    proof {
        assert(head@ =~= packed@.take(8));
        assert(body@ =~= packed@.skip(8));
    }
    let mut be: Vec<u8> = Vec::new();
    let mut i: usize = 8;
    while i > 0
        invariant
            i <= 8,
            head@.len() == 8,
            be@ == head@.reverse().take(8 - i),
        decreases i,
    {
        i = i - 1;
        be.push(head[i]);
        proof {
            assert(head@.reverse().take(8 - i) =~= head@.reverse().take(7 - i).push(
                head@[i as int],
            ));
        }
    }
    proof {
        assert(head@.reverse().take(8) =~= head@.reverse());
        assert(be@.take(8) =~= be@);
    }
    let mut r = wire::Reader::new(be.as_slice());
    let expected: u64 = match r.u64() {
        Ok(n) => n,
        Err(_) => {
            return None;
        },
    };
    if expected > MAX_FILE_BYTES {
        return None;
    }
    let raw = zlib_inflate(body, expected + 1);
    accept_exact(raw, expected)
}

/// The hash of an image: of its dimensions, of how many bytes there are, and of the pixels.
pub open spec fn image_hash(width: u32, height: u32, rgba: Seq<u8>) -> u64 {
    DefaultHasher::spec_finish(
        seq![
            spec_u32_to_le_bytes(width),
            spec_u32_to_le_bytes(height),
            spec_u64_to_le_bytes(rgba.len() as u64),
            rgba,
        ],
    )
}

/// Cheap identity for clipboard images. Collisions would only cost a skipped share of a
/// near-identical image.
pub fn image_signature(width: u32, height: u32, rgba: &[u8]) -> (h: u64)
    ensures
        h == image_hash(width, height, rgba@),
{
    let mut hasher = DefaultHasher::new();
    hasher.write(u32_to_le_bytes(width).as_slice());
    hasher.write(u32_to_le_bytes(height).as_slice());
    hasher.write(u64_to_le_bytes(rgba.len() as u64).as_slice());
    hasher.write(rgba);
    proof {
        assert(hasher@ =~= seq![
            spec_u32_to_le_bytes(width),
            spec_u32_to_le_bytes(height),
            spec_u64_to_le_bytes(rgba@.len() as u64),
            rgba@,
        ]);
    }
    hasher.finish()
}

// ---------------------------------------------------------------- what is shared
/// What one machine tells the others about its clipboard.
#[derive(PartialEq, Eq, Debug)]
pub enum Shared {
    Text { generation: u64, text: String },
    /// The pixels travel compressed.
    Image { generation: u64, width: u32, height: u32, rgba: Vec<u8> },
    /// Paths relative to the copy, and each file's bytes, compressed.
    Files { generation: u64, entries: Vec<(String, Vec<u8>)> },
}

/// What is shared, as a value.
pub enum SharedModel {
    Text { generation: u64, text: Seq<char> },
    Image { generation: u64, width: u32, height: u32, rgba: Seq<u8> },
    Files { generation: u64, entries: Seq<(Seq<char>, Seq<u8>)> },
}

/// Named files as values.
pub open spec fn named(entries: Seq<(String, Vec<u8>)>) -> Seq<(Seq<char>, Seq<u8>)> {
    Seq::new(entries.len(), |i: int| (entries[i].0@, entries[i].1@))
}

impl View for Shared {
    type V = SharedModel;

    open spec fn view(&self) -> SharedModel {
        match self {
            Shared::Text { generation, text } => SharedModel::Text {
                generation: *generation,
                text: text@,
            },
            Shared::Image { generation, width, height, rgba } => SharedModel::Image {
                generation: *generation,
                width: *width,
                height: *height,
                rgba: rgba@,
            },
            Shared::Files { generation, entries } => SharedModel::Files {
                generation: *generation,
                entries: named(entries@),
            },
        }
    }
}

/// What may or may not be there to share.
pub open spec fn shared_model(s: Option<Shared>) -> Option<SharedModel> {
    match s {
        Some(x) => Some(x@),
        None => None,
    }
}

/// Files as they travel.
pub open spec fn packed_files(entries: Seq<(Seq<char>, Seq<u8>)>) -> Seq<(Seq<char>, Seq<u8>)> {
    Seq::new(entries.len(), |i: int| (entries[i].0, packed_file(entries[i].1)))
}

/// Files as they arrived, if every one of them is what it promised to be.
pub open spec fn opened_files(entries: Seq<(Seq<char>, Seq<u8>)>) -> Option<
    Seq<(Seq<char>, Seq<u8>)>,
> {
    if forall|i: int| 0 <= i < entries.len() ==> opened_file(#[trigger] entries[i].1) is Some {
        Some(
            Seq::new(entries.len(), |i: int| (entries[i].0, opened_file(entries[i].1)->0)),
        )
    } else {
        None
    }
}

/// Compress every file.
pub fn pack_files(entries: Vec<(String, Vec<u8>)>) -> (packed: Vec<(String, Vec<u8>)>)
    ensures
        named(packed@) == packed_files(named(entries@)),
        (forall|i: int| 0 <= i < entries@.len() ==> (#[trigger] entries@[i]).1@.len() <= MAX_FILE_BYTES)
            ==> opened_files(named(packed@)) == Some(named(entries@)),
{
    let mut packed: Vec<(String, Vec<u8>)> = Vec::new();
    let mut i: usize = 0;
    while i < entries.len()
        invariant
            i <= entries@.len(),
            packed@.len() == i,
            forall|k: int|
                0 <= k < i ==> (#[trigger] packed@[k]).0@ == entries@[k].0@ && packed@[k].1@
                    == packed_file(entries@[k].1@),
            forall|k: int|
                0 <= k < i && entries@[k].1@.len() <= MAX_FILE_BYTES ==> opened_file(
                    (#[trigger] packed@[k]).1@,
                ) == Some(entries@[k].1@),
        decreases entries.len() - i,
    {
        let name = entries[i].0.as_str().to_owned();
        let bytes = deflate_file_bytes(entries[i].1.as_slice());
        packed.push((name, bytes));
        i = i + 1;
    }
    proof {
        assert(named(packed@) =~= packed_files(named(entries@)));
        if forall|i: int| 0 <= i < entries@.len() ==> (#[trigger] entries@[i]).1@.len()
            <= MAX_FILE_BYTES {
            assert forall|k: int| 0 <= k < entries@.len() implies opened_file(
                #[trigger] named(packed@)[k].1,
            ) == Some(entries@[k].1@) by {
                assert(packed@[k].1@ == named(packed@)[k].1);
                assert(entries@[k].1@.len() <= MAX_FILE_BYTES);
            }
            assert(opened_files(named(packed@))->0 =~= named(entries@));
        }
    }
    packed
}

/// Decompress every file; one that is not what it promised spoils the lot.
pub fn open_files(entries: &Vec<(String, Vec<u8>)>) -> (r: Option<Vec<(String, Vec<u8>)>>)
    ensures
        match opened_files(named(entries@)) {
            Some(raw) => r is Some && named(r->0@) == raw,
            None => r is None,
        },
{
    let mut raw: Vec<(String, Vec<u8>)> = Vec::new();
    let mut i: usize = 0;
    while i < entries.len()
        invariant
            i <= entries@.len(),
            raw@.len() == i,
            forall|k: int|
                0 <= k < i ==> (#[trigger] raw@[k]).0@ == entries@[k].0@ && opened_file(
                    entries@[k].1@,
                ) == Some(raw@[k].1@),
        decreases entries.len() - i,
    {
        let name = entries[i].0.as_str().to_owned();
        match inflate_file_bytes(entries[i].1.as_slice()) {
            Some(bytes) => {
                raw.push((name, bytes));
            },
            None => {
                proof {
                    assert(opened_file(named(entries@)[i as int].1) is None);
                }
                return None;
            },
        }
        i = i + 1;
    }
    proof {
        assert forall|k: int| 0 <= k < entries@.len() implies opened_file(
            #[trigger] named(entries@)[k].1,
        ) is Some by {
            assert(raw@[k].0@ == entries@[k].0@);
        }
        assert(named(raw@) =~= opened_files(named(entries@))->0);
    }
    Some(raw)
}

// ---------------------------------------------------------------- the state
/// Which kinds of clipboard content this machine shares.
#[derive(Clone, Copy, PartialEq, Eq, Structural, Debug)]
pub struct Shares {
    pub text: bool,
    pub images: bool,
    pub files: bool,
}

/// What to look for on the clipboard next.
#[derive(Clone, Copy, PartialEq, Eq, Structural, Debug)]
pub enum Look {
    Files,
    Text,
    Image,
    Nothing,
}

/// What to look for, given what has already been looked for in vain.
pub open spec fn looked_for(shares: Shares, no_files: bool, no_text: bool) -> Look {
    if shares.files && !no_files {
        Look::Files
    } else if shares.text && !no_text {
        Look::Text
    } else if shares.images {
        Look::Image
    } else {
        Look::Nothing
    }
}

/// What to look for, given what has already been looked for in vain.
///
/// Files come before text: a file manager puts a copied file's name on the clipboard as
/// text as well. Images come last, because reading one copies its pixels out.
pub fn look_next(shares: Shares, no_files: bool, no_text: bool) -> (look: Look)
    ensures
        look == looked_for(shares, no_files, no_text),
{
    if shares.files && !no_files {
        Look::Files
    } else if shares.text && !no_text {
        Look::Text
    } else if shares.images {
        Look::Image
    } else {
        Look::Nothing
    }
}

/// What this machine remembers of the clipboards.
#[derive(PartialEq, Eq, Debug)]
pub struct ClipboardState {
    /// The last text seen here, whether copied here or received from a peer.
    pub last_seen: Option<String>,
    /// The highest generation applied, for each peer: generations are each machine's own
    /// counter, so comparing them across machines is meaningless.
    pub applied: Vec<(PeerId, u64)>,
    /// This machine's own change counter.
    pub generation: u64,
    /// The signature of the last image seen or applied.
    pub image_sig: Option<u64>,
    /// The signature of the last file list seen or applied.
    pub files_sig: Option<u64>,
}

/// What this machine remembers, as a value.
pub struct ClipboardModel {
    pub last_seen: Option<Seq<char>>,
    pub applied: Seq<(PeerId, u64)>,
    pub generation: u64,
    pub image_sig: Option<u64>,
    pub files_sig: Option<u64>,
}

impl View for ClipboardState {
    type V = ClipboardModel;

    open spec fn view(&self) -> ClipboardModel {
        ClipboardModel {
            last_seen: match self.last_seen {
                Some(text) => Some(text@),
                None => None,
            },
            applied: self.applied@,
            generation: self.generation,
            image_sig: self.image_sig,
            files_sig: self.files_sig,
        }
    }
}

/// Whether a generation of a peer, or a newer one, has been applied.
pub open spec fn heard(applied: Seq<(PeerId, u64)>, peer: PeerId, generation: u64) -> bool {
    exists|i: int|
        0 <= i < applied.len() && (#[trigger] applied[i]).0 == peer && applied[i].1 >= generation
}

/// What was applied, without one peer's.
pub open spec fn without(applied: Seq<(PeerId, u64)>, peer: PeerId) -> Seq<(PeerId, u64)>
    decreases applied.len(),
{
    if applied.len() == 0 {
        Seq::empty()
    } else {
        let rest = without(applied.drop_last(), peer);
        if applied.last().0 == peer {
            rest
        } else {
            rest.push(applied.last())
        }
    }
}

/// What was applied, with a peer's newest.
pub open spec fn recorded(
    applied: Seq<(PeerId, u64)>,
    peer: PeerId,
    generation: u64,
) -> Seq<(PeerId, u64)> {
    without(applied, peer).push((peer, generation))
}

/// Taking out one peer leaves exactly the others.
proof fn without_keeps_the_rest(
    applied: Seq<(PeerId, u64)>,
    peer: PeerId,
    other: PeerId,
    generation: u64,
)
    ensures
        heard(without(applied, peer), other, generation) == (other != peer && heard(
            applied,
            other,
            generation,
        )),
    decreases applied.len(),
{
    if applied.len() > 0 {
        let front = applied.drop_last();
        let rest = without(front, peer);
        without_keeps_the_rest(front, peer, other, generation);
        if heard(applied, other, generation) {
            let i = choose|i: int|
                0 <= i < applied.len() && (#[trigger] applied[i]).0 == other && applied[i].1
                    >= generation;
            if i < front.len() {
                assert(front[i] == applied[i]);
                assert(heard(front, other, generation));
                if other != peer {
                    let j = choose|j: int|
                        0 <= j < rest.len() && (#[trigger] rest[j]).0 == other && rest[j].1
                            >= generation;
                    assert(without(applied, peer)[j] == rest[j]);
                }
            } else if other != peer {
                assert(without(applied, peer)[rest.len() as int] == applied.last());
            }
        }
        if heard(without(applied, peer), other, generation) {
            let w = without(applied, peer);
            let j = choose|j: int|
                0 <= j < w.len() && (#[trigger] w[j]).0 == other && w[j].1 >= generation;
            if j < rest.len() {
                assert(rest[j] == w[j]);
                assert(heard(rest, other, generation));
                let i = choose|i: int|
                    0 <= i < front.len() && (#[trigger] front[i]).0 == other && front[i].1
                        >= generation;
                assert(applied[i] == front[i]);
            } else {
                assert(applied[applied.len() - 1] == w[j]);
            }
        }
    }
}

/// An echo is recognised and newer generations pass: once a generation of a peer is
/// recorded, that peer's generations up to it are heard and no later one is, and what was
/// heard of every other peer is unchanged.
pub proof fn an_echo_is_recognised(
    applied: Seq<(PeerId, u64)>,
    peer: PeerId,
    generation: u64,
    other: PeerId,
    asked: u64,
)
    ensures
        heard(recorded(applied, peer, generation), other, asked) == if other == peer {
            asked <= generation
        } else {
            heard(applied, other, asked)
        },
{
    without_keeps_the_rest(applied, peer, other, asked);
    let w = without(applied, peer);
    let r = recorded(applied, peer, generation);
    if heard(w, other, asked) {
        let i = choose|i: int|
            0 <= i < w.len() && (#[trigger] w[i]).0 == other && w[i].1 >= asked;
        assert(r[i] == w[i]);
    }
    assert(r[w.len() as int] == (peer, generation));
    if heard(r, other, asked) {
        let i = choose|i: int|
            0 <= i < r.len() && (#[trigger] r[i]).0 == other && r[i].1 >= asked;
        if i < w.len() {
            assert(w[i] == r[i]);
        }
    }
}

/// A restarted peer is heard again: once forgotten, nothing of that peer counts as already
/// applied, whatever its counter says, and what was heard of the others is unchanged.
pub proof fn a_forgotten_peer_is_heard_again(
    applied: Seq<(PeerId, u64)>,
    peer: PeerId,
    other: PeerId,
    asked: u64,
)
    ensures
        heard(without(applied, peer), other, asked) == (other != peer && heard(
            applied,
            other,
            asked,
        )),
{
    without_keeps_the_rest(applied, peer, other, asked);
}

/// A machine's successive announcements all get through to a peer that applies them:
/// having applied one, it takes the next, whose counter is one higher.
pub proof fn the_next_change_gets_through(
    applied: Seq<(PeerId, u64)>,
    sender: PeerId,
    generation: u64,
)
    requires
        generation < u64::MAX,
    ensures
        !heard(recorded(applied, sender, generation), sender, (generation + 1) as u64),
{
    an_echo_is_recognised(applied, sender, generation, sender, (generation + 1) as u64);
}

/// What comes of finding text on the clipboard: the state after, and what to share.
pub open spec fn offered_text(m: ClipboardModel, text: Seq<char>) -> (
    ClipboardModel,
    Option<SharedModel>,
) {
    if m.last_seen == Some(text) {
        (m, None)
    } else {
        let generation = (m.generation + 1) as u64;
        (
            ClipboardModel { last_seen: Some(text), generation, ..m },
            Some(SharedModel::Text { generation, text }),
        )
    }
}

/// What comes of finding an image on the clipboard.
pub open spec fn offered_image(m: ClipboardModel, width: u32, height: u32, rgba: Seq<u8>) -> (
    ClipboardModel,
    Option<SharedModel>,
) {
    let sig = image_hash(width, height, rgba);
    if m.image_sig == Some(sig) {
        (m, None)
    } else {
        let generation = (m.generation + 1) as u64;
        (
            ClipboardModel { image_sig: Some(sig), generation, ..m },
            Some(SharedModel::Image { generation, width, height, rgba: deflated(rgba) }),
        )
    }
}

/// What comes of finding files on the clipboard, where `found` is what they hold, if that
/// could be read.
pub open spec fn offered_files(
    m: ClipboardModel,
    sig: u64,
    found: Option<Seq<(Seq<char>, Seq<u8>)>>,
) -> (ClipboardModel, Option<SharedModel>) {
    if m.files_sig == Some(sig) {
        (m, None)
    } else {
        match found {
            Some(entries) if entries.len() > 0 => {
                let generation = (m.generation + 1) as u64;
                (
                    ClipboardModel { files_sig: Some(sig), generation, ..m },
                    Some(SharedModel::Files { generation, entries: packed_files(entries) }),
                )
            },
            _ => (ClipboardModel { files_sig: Some(sig), ..m }, None),
        }
    }
}

/// The state once a peer's text is on this machine's clipboard.
pub open spec fn took_text(m: ClipboardModel, peer: PeerId, generation: u64, text: Seq<char>) -> ClipboardModel {
    ClipboardModel {
        applied: recorded(m.applied, peer, generation),
        last_seen: Some(text),
        generation: (m.generation + 1) as u64,
        ..m
    }
}

/// The state once a peer's image is on this machine's clipboard.
pub open spec fn took_image(
    m: ClipboardModel,
    peer: PeerId,
    generation: u64,
    width: u32,
    height: u32,
    raw: Seq<u8>,
) -> ClipboardModel {
    ClipboardModel {
        applied: recorded(m.applied, peer, generation),
        last_seen: None,
        generation: (m.generation + 1) as u64,
        image_sig: Some(image_hash(width, height, raw)),
        ..m
    }
}

/// The state once a peer's files are on this machine's clipboard.
pub open spec fn took_files(m: ClipboardModel, peer: PeerId, generation: u64, sig: u64) -> ClipboardModel {
    ClipboardModel {
        applied: recorded(m.applied, peer, generation),
        last_seen: None,
        generation: (m.generation + 1) as u64,
        image_sig: None,
        files_sig: Some(sig),
    }
}

/// What was received is not shared back: finding on the clipboard what was just written
/// there for a peer shares nothing and changes nothing.
pub proof fn what_was_received_is_not_shared_back(
    m: ClipboardModel,
    peer: PeerId,
    generation: u64,
    text: Seq<char>,
    width: u32,
    height: u32,
    raw: Seq<u8>,
    sig: u64,
    found: Option<Seq<(Seq<char>, Seq<u8>)>>,
)
    ensures
        offered_text(took_text(m, peer, generation, text), text) == (
            took_text(m, peer, generation, text),
            None::<SharedModel>,
        ),
        offered_image(took_image(m, peer, generation, width, height, raw), width, height, raw) == (
            took_image(m, peer, generation, width, height, raw),
            None::<SharedModel>,
        ),
        offered_files(took_files(m, peer, generation, sig), sig, found) == (
            took_files(m, peer, generation, sig),
            None::<SharedModel>,
        ),
{
}

impl Default for ClipboardState {
    fn default() -> (s: ClipboardState)
        ensures
            s@ == (ClipboardModel {
                last_seen: None,
                applied: Seq::empty(),
                generation: 0,
                image_sig: None,
                files_sig: None,
            }),
    {
        ClipboardState::new()
    }
}

impl ClipboardState {
    /// Nothing seen and nothing applied.
    pub fn new() -> (s: ClipboardState)
        ensures
            s@ == (ClipboardModel {
                last_seen: None,
                applied: Seq::empty(),
                generation: 0,
                image_sig: None,
                files_sig: None,
            }),
    {
        let s = ClipboardState {
            last_seen: None,
            applied: Vec::new(),
            generation: 0,
            image_sig: None,
            files_sig: None,
        };
        proof {
            assert(s@.applied =~= Seq::empty());
        }
        s
    }

    /// Has this peer already sent us this generation, or a newer one?
    pub fn already_applied(&self, peer: PeerId, generation: u64) -> (b: bool)
        ensures
            b == heard(self@.applied, peer, generation),
    {
        let mut i: usize = 0;
        while i < self.applied.len()
            invariant
                i <= self.applied@.len(),
                forall|k: int|
                    0 <= k < i ==> !((#[trigger] self.applied@[k]).0 == peer && self.applied@[k].1
                        >= generation),
            decreases self.applied.len() - i,
        {
            if self.applied[i].0.same(&peer) && self.applied[i].1 >= generation {
                return true;
            }
            i = i + 1;
        }
        false
    }

    /// Record what was applied from a peer.
    pub fn record(&mut self, peer: PeerId, generation: u64)
        ensures
            final(self)@ == (ClipboardModel {
                applied: recorded(old(self)@.applied, peer, generation),
                ..old(self)@
            }),
    {
        self.forget_peer(peer);
        self.applied.push((peer, generation));
    }

    /// A peer's link was just registered again: its counter may have been reborn.
    pub fn forget_peer(&mut self, peer: PeerId)
        ensures
            final(self)@ == (ClipboardModel {
                applied: without(old(self)@.applied, peer),
                ..old(self)@
            }),
    {
        let mut kept: Vec<(PeerId, u64)> = Vec::new();
        let mut i: usize = 0;
        proof {
            assert(without(self.applied@.take(0), peer) =~= kept@);
        }
        while i < self.applied.len()
            invariant
                i <= self.applied@.len(),
                kept@ == without(self.applied@.take(i as int), peer),
                self@ == old(self)@,
            decreases self.applied.len() - i,
        {
            let entry = self.applied[i];
            proof {
                let next = self.applied@.take(i + 1);
                assert(next.drop_last() =~= self.applied@.take(i as int));
                assert(next.last() == entry);
            }
            if !entry.0.same(&peer) {
                kept.push(entry);
            }
            i = i + 1;
        }
        proof {
            assert(self.applied@.take(self.applied@.len() as int) =~= self.applied@);
        }
        self.applied = kept;
    }

    /// Take note of what is on the clipboard as the daemon starts, so that starting it does
    /// not broadcast what was there before.
    pub fn seed(
        &mut self,
        text: Option<String>,
        image: Option<(u32, u32, Vec<u8>)>,
        files_sig: Option<u64>,
    )
        ensures
            final(self)@.last_seen == (match text {
                Some(t) => Some(t@),
                None => None,
            }),
            final(self)@.image_sig == (match image {
                Some((w, h, rgba)) => Some(image_hash(w, h, rgba@)),
                None => old(self)@.image_sig,
            }),
            final(self)@.files_sig == (match files_sig {
                Some(sig) => Some(sig),
                None => old(self)@.files_sig,
            }),
            final(self)@.applied == old(self)@.applied,
            final(self)@.generation == old(self)@.generation,
    {
        self.last_seen = text;
        match image {
            Some((w, h, rgba)) => {
                self.image_sig = Some(image_signature(w, h, rgba.as_slice()));
            },
            None => {},
        }
        if files_sig.is_some() {
            self.files_sig = files_sig;
        }
    }

    /// Whether this file list has been seen, so that its contents need not be read.
    pub fn files_seen(&self, sig: u64) -> (b: bool)
        ensures
            b == (self@.files_sig == Some(sig)),
    {
        match self.files_sig {
            Some(seen) => seen == sig,
            None => false,
        }
    }

    /// Files are on the clipboard. `found` is what they hold, or nothing where they could
    /// not be read or were too large. Whatever came of reading them, they are remembered,
    /// or the same attempt would repeat at every look.
    pub fn share_files(&mut self, sig: u64, found: Option<Vec<(String, Vec<u8>)>>) -> (shared: Option<Shared>)
        requires
            old(self)@.generation < u64::MAX,
        ensures
            (final(self)@, shared_model(shared)) == offered_files(
                old(self)@,
                sig,
                match found {
                    Some(entries) => Some(named(entries@)),
                    None => None,
                },
            ),
            found is Some && found->0@.len() > 0 && old(self)@.files_sig != Some(sig) && (forall|i: int|
                0 <= i < found->0@.len() ==> (#[trigger] found->0@[i]).1@.len() <= MAX_FILE_BYTES)
                ==> (shared matches Some(Shared::Files { entries, .. }) && opened_files(
                named(entries@),
            ) == Some(named(found->0@))),
    {
        if self.files_seen(sig) {
            return None;
        }
        self.files_sig = Some(sig);
        match found {
            Some(entries) => {
                if entries.len() == 0 {
                    return None;
                }
                self.generation = self.generation + 1;
                Some(Shared::Files { generation: self.generation, entries: pack_files(entries) })
            },
            None => None,
        }
    }

    /// Text is on the clipboard: share it unless it is what was last seen here.
    pub fn share_text(&mut self, text: String) -> (shared: Option<Shared>)
        requires
            old(self)@.generation < u64::MAX,
        ensures
            (final(self)@, shared_model(shared)) == offered_text(old(self)@, text@),
    {
        match &self.last_seen {
            Some(seen) => {
                if text::same(seen.as_str(), text.as_str()) {
                    return None;
                }
            },
            None => {},
        }
        self.last_seen = Some(text.as_str().to_owned());
        self.generation = self.generation + 1;
        Some(Shared::Text { generation: self.generation, text })
    }

    /// An image is on the clipboard: share it unless it is what was last seen here.
    pub fn share_image(&mut self, width: u32, height: u32, rgba: &[u8]) -> (shared: Option<Shared>)
        requires
            old(self)@.generation < u64::MAX,
        ensures
            (final(self)@, shared_model(shared)) == offered_image(
                old(self)@,
                width,
                height,
                rgba@,
            ),
            shared matches Some(s) ==> (s matches Shared::Image { width: w, height: h, rgba: packed, .. }
                && w == width && h == height && (rgba@.len() == width * height * 4 && rgba@.len()
                <= MAX_IMAGE_BYTES ==> opened_image(packed@, w, h) == Some(rgba@))),
    {
        let sig: u64 = image_signature(width, height, rgba);
        match self.image_sig {
            Some(seen) => {
                if seen == sig {
                    return None;
                }
            },
            None => {},
        }
        self.image_sig = Some(sig);
        self.generation = self.generation + 1;
        Some(
            Shared::Image {
                generation: self.generation,
                width,
                height,
                rgba: deflate_pixels(rgba),
            },
        )
    }

    /// A peer's text was written to this machine's clipboard. Says what to relay to the
    /// others, under this machine's own counter: the hub's machines know nothing of the
    /// sender's.
    pub fn text_applied(&mut self, peer: PeerId, generation: u64, text: String) -> (relay: Shared)
        requires
            old(self)@.generation < u64::MAX,
        ensures
            final(self)@ == took_text(old(self)@, peer, generation, text@),
            relay@ == (SharedModel::Text { generation: final(self)@.generation, text: text@ }),
    {
        self.record(peer, generation);
        self.last_seen = Some(text.as_str().to_owned());
        self.generation = self.generation + 1;
        Shared::Text { generation: self.generation, text }
    }

    /// A peer's image, whose pixels are `raw`, was written to this machine's clipboard.
    /// Says what to relay to the others: the compressed original, untouched.
    pub fn image_applied(
        &mut self,
        peer: PeerId,
        generation: u64,
        width: u32,
        height: u32,
        raw: &[u8],
        packed: Vec<u8>,
    ) -> (relay: Shared)
        requires
            old(self)@.generation < u64::MAX,
        ensures
            final(self)@ == took_image(old(self)@, peer, generation, width, height, raw@),
            relay@ == (SharedModel::Image {
                generation: final(self)@.generation,
                width,
                height,
                rgba: packed@,
            }),
    {
        self.record(peer, generation);
        self.image_sig = Some(image_signature(width, height, raw));
        self.last_seen = None;
        self.generation = self.generation + 1;
        Shared::Image { generation: self.generation, width, height, rgba: packed }
    }

    /// A peer's files were stored, and this machine's clipboard points at the copies, whose
    /// signature is `sig`. Says what to relay to the others.
    pub fn files_applied(
        &mut self,
        peer: PeerId,
        generation: u64,
        sig: u64,
        entries: Vec<(String, Vec<u8>)>,
    ) -> (relay: Shared)
        requires
            old(self)@.generation < u64::MAX,
        ensures
            final(self)@ == took_files(old(self)@, peer, generation, sig),
            relay@ == (SharedModel::Files {
                generation: final(self)@.generation,
                entries: named(entries@),
            }),
    {
        self.record(peer, generation);
        self.files_sig = Some(sig);
        self.last_seen = None;
        self.image_sig = None;
        self.generation = self.generation + 1;
        Shared::Files { generation: self.generation, entries }
    }
}

/// Whom a relay goes to: every connected machine but the one it came from, in order.
pub open spec fn others(links: Seq<PeerId>, origin: PeerId) -> Seq<PeerId>
    decreases links.len(),
{
    if links.len() == 0 {
        Seq::empty()
    } else {
        let rest = others(links.drop_last(), origin);
        if links.last() == origin {
            rest
        } else {
            rest.push(links.last())
        }
    }
}

/// Whom a relay goes to: every connected machine but the one it came from, in order.
pub fn relay_to(links: &Vec<PeerId>, origin: PeerId) -> (r: Vec<PeerId>)
    ensures
        r@ == others(links@, origin),
{
    let mut r: Vec<PeerId> = Vec::new();
    let mut i: usize = 0;
    proof {
        assert(others(links@.take(0), origin) =~= r@);
    }
    while i < links.len()
        invariant
            i <= links@.len(),
            r@ == others(links@.take(i as int), origin),
        decreases links.len() - i,
    {
        let peer = links[i];
        proof {
            let next = links@.take(i + 1);
            assert(next.drop_last() =~= links@.take(i as int));
            assert(next.last() == peer);
        }
        if !peer.same(&origin) {
            r.push(peer);
        }
        i = i + 1;
    }
    proof {
        assert(links@.take(links@.len() as int) =~= links@);
    }
    r
}

/// A relay never goes back where it came from, and misses no one else.
pub proof fn a_relay_reaches_everyone_else(links: Seq<PeerId>, origin: PeerId, peer: PeerId)
    ensures
        others(links, origin).contains(peer) == (peer != origin && links.contains(peer)),
    decreases links.len(),
{
    if links.len() > 0 {
        let front = links.drop_last();
        let rest = others(front, origin);
        a_relay_reaches_everyone_else(front, origin, peer);
        assert(links =~= front.push(links.last()));
        if links.last() == origin {
            assert(others(links, origin) == rest);
        } else {
            assert(others(links, origin) == rest.push(links.last()));
            if rest.contains(peer) {
                let i = choose|i: int| 0 <= i < rest.len() && rest[i] == peer;
                assert(rest.push(links.last())[i] == peer);
            }
            assert(rest.push(links.last())[rest.len() as int] == links.last());
        }
        if front.contains(peer) {
            let i = choose|i: int| 0 <= i < front.len() && front[i] == peer;
            assert(links[i] == peer);
        }
        assert(links[links.len() - 1] == links.last());
        if links.contains(peer) && peer != links.last() {
            let i = choose|i: int| 0 <= i < links.len() && links[i] == peer;
            assert(front[i] == peer);
        }
    }
}

// ---------------------------------------------------------------- gathering and storing
/// How many bytes some files hold together.
pub open spec fn total_bytes(entries: Seq<(Seq<char>, Seq<u8>)>) -> nat
    decreases entries.len(),
{
    if entries.len() == 0 {
        0
    } else {
        total_bytes(entries.drop_last()) + entries.last().1.len()
    }
}

/// Copied files, as they are read one by one.
pub struct Gathering {
    entries: Vec<(String, Vec<u8>)>,
    total: usize,
}

impl Gathering {
    /// What has been read.
    pub closed spec fn files(&self) -> Seq<(Seq<char>, Seq<u8>)> {
        named(self.entries@)
    }

    #[verifier::type_invariant]
    spec fn counted(&self) -> bool {
        self.total == if total_bytes(named(self.entries@)) > usize::MAX {
            usize::MAX as nat
        } else {
            total_bytes(named(self.entries@))
        }
    }

    pub fn new() -> (g: Gathering)
        ensures
            g.files() == Seq::<(Seq<char>, Seq<u8>)>::empty(),
    {
        let g = Gathering { entries: Vec::new(), total: 0 };
        proof {
            assert(g.files() =~= Seq::empty());
        }
        g
    }

    /// Add a file: its path relative to the copy, and its bytes.
    pub fn add(self, rel: String, bytes: Vec<u8>) -> (g: Gathering)
        ensures
            g.files() == self.files().push((rel@, bytes@)),
    {
        proof {
            use_type_invariant(&self);
        }
        let n: usize = bytes.len();
        let total: usize = if self.total <= usize::MAX - n {
            self.total + n
        } else {
            usize::MAX
        };
        let mut entries = self.entries;
        let ghost before = named(entries@);
        entries.push((rel, bytes));
        proof {
            assert(named(entries@) =~= before.push((rel@, bytes@)));
            assert(before.push((rel@, bytes@)).drop_last() =~= before);
        }
        Gathering { entries, total }
    }

    /// Why the copy is refused, if it has grown too large.
    pub fn refused(&self) -> (reason: Option<String>)
        ensures
            reason is Some <==> total_bytes(self.files()) > MAX_CLIPBOARD_FILE_BYTES,
            reason matches Some(text) ==> text@
                == "the copy is over 64 MB; a clipboard is for documents, not disks"@,
    {
        proof {
            use_type_invariant(self);
        }
        if self.total > MAX_CLIPBOARD_FILE_BYTES {
            Some(
                String::from_str("the copy is over 64 MB; a clipboard is for documents, not disks"),
            )
        } else {
            None
        }
    }

    /// Everything that was read.
    pub fn finish(self) -> (entries: Vec<(String, Vec<u8>)>)
        ensures
            named(entries@) == self.files(),
    {
        self.entries
    }
}

/// The path of something inside a copied folder, relative to the copy.
pub fn child_path(rel: &str, name: &str) -> (path: String)
    ensures
        path@ == rel@ + "/"@ + name@,
{
    text::plus(text::plus(rel.to_owned(), "/"), name)
}

/// A path with its separators written as `/`.
pub open spec fn slashed(rel: Seq<char>, windows: bool) -> Seq<char> {
    if windows {
        rel.map_values(
            |c: char|
                if c == '\\' {
                    '/'
                } else {
                    c
                },
        )
    } else {
        rel
    }
}

/// Whether a path, or the first part of one, begins with a drive.
pub open spec fn has_drive(part: Seq<char>) -> bool {
    part.len() >= 2 && part[1] == ':' && ('a' <= part[0] <= 'z' || 'A' <= part[0] <= 'Z')
}

/// Whether part of a path is a name, and not a step to somewhere else.
pub open spec fn is_name(part: Seq<char>) -> bool {
    part.len() > 0 && part != "."@ && part != ".."@
}

/// The names among the parts of a path.
pub open spec fn names_in(parts: Seq<Seq<char>>) -> Seq<Seq<char>>
    decreases parts.len(),
{
    if parts.len() == 0 {
        Seq::empty()
    } else {
        let rest = names_in(parts.drop_last());
        if is_name(parts.last()) {
            rest.push(parts.last())
        } else {
            rest
        }
    }
}

/// Where below the spool a received path leads, or nothing if it could lead out of it: a
/// path that is empty, absolute, that begins with a drive, or that steps upwards. A drive is
/// one only at the start of a path: further on, its letter and colon are part of a name.
pub open spec fn spooled(rel: Seq<char>, windows: bool) -> Option<Seq<Seq<char>>> {
    let parts = text::pieces(slashed(rel, windows), '/');
    if (windows && has_drive(parts[0])) || !is_name(parts[0]) || parts.contains(".."@) {
        None
    } else {
        Some(names_in(parts))
    }
}

/// Whether part of a path is a name.
fn names(part: &[char]) -> (b: bool)
    ensures
        b == is_name(part@),
{
    part.len() > 0 && !text::is_text(part, ".") && !text::is_text(part, "..")
}

/// Whether the first part of a path begins with a drive.
fn names_a_drive(part: &[char]) -> (b: bool)
    ensures
        b == has_drive(part@),
{
    part.len() >= 2 && part[1] == ':' && (('a' <= part[0] && part[0] <= 'z') || ('A' <= part[0]
        && part[0] <= 'Z'))
}

/// Where below the spool a received path leads.
///
/// A received path is untrusted. Anything but plain names could escape the spool and
/// overwrite real files. The names are to be joined into one path below the spool: only the
/// first of them is known not to be read as a drive on its own.
pub fn spool_path(rel: &str, windows: bool) -> (r: Option<Vec<String>>)
    ensures
        match spooled(rel@, windows) {
            Some(parts) => r is Some && text::contents(r->0@) == parts,
            None => r is None,
        },
{
    let chars = text::chars_of(rel);
    let mut flat: Vec<char> = Vec::new();
    let mut i: usize = 0;
    while i < chars.len()
        invariant
            i <= chars@.len(),
            flat@.len() == i,
            chars@ == rel@,
            forall|k: int| 0 <= k < i ==> flat@[k] == slashed(rel@, windows)[k],
        decreases chars.len() - i,
    {
        let c = chars[i];
        if windows && c == '\\' {
            flat.push('/');
        } else {
            flat.push(c);
        }
        i = i + 1;
    }
    proof {
        assert(flat@ =~= slashed(rel@, windows));
    }
    let parts = text::split(flat.as_slice(), '/');
    let ghost model = text::views(parts@);
    if !names(parts[0].as_slice()) || (windows && names_a_drive(parts[0].as_slice())) {
        return None;
    }
    let mut out: Vec<String> = Vec::new();
    let mut i: usize = 0;
    proof {
        assert(text::contents(out@) =~= names_in(model.take(0)));
    }
    while i < parts.len()
        invariant
            i <= parts@.len(),
            model == text::views(parts@),
            text::contents(out@) == names_in(model.take(i as int)),
            forall|k: int| 0 <= k < i ==> model[k] != ".."@,
            model == text::pieces(slashed(rel@, windows), '/'),
        decreases parts.len() - i,
    {
        let part = parts[i].as_slice();
        if text::is_text(part, "..") {
            proof {
                assert(model[i as int] == ".."@);
            }
            return None;
        }
        let ghost before = text::contents(out@);
        proof {
            let next = model.take(i + 1);
            assert(next.drop_last() =~= model.take(i as int));
            assert(next.last() == part@);
        }
        if names(part) {
            out.push(text::string_of(part));
            proof {
                assert(text::contents(out@) =~= before.push(part@));
            }
        }
        i = i + 1;
    }
    proof {
        assert(model.take(model.len() as int) =~= model);
    }
    Some(out)
}

/// No stretch between separators holds the separator.
proof fn pieces_hold_no_separator(s: Seq<char>, sep: char)
    ensures
        forall|i: int|
            0 <= i < text::pieces(s, sep).len() ==> !(#[trigger] text::pieces(s, sep)[i]).contains(
                sep,
            ),
        forall|i: int, k: int|
            0 <= i < text::pieces(s, sep).len() && 0 <= k < text::pieces(s, sep)[i].len()
                ==> s.contains(#[trigger] text::pieces(s, sep)[i][k]),
    decreases s.len(),
{
    if s.len() > 0 {
        let front = s.drop_last();
        let p = text::pieces(front, sep);
        pieces_hold_no_separator(front, sep);
        text::pieces_len(front, sep);
        let q = text::pieces(s, sep);
        assert(s =~= front.push(s.last()));
        assert forall|c: char| front.contains(c) implies s.contains(c) by {
            let j = choose|j: int| 0 <= j < front.len() && front[j] == c;
            assert(s[j] == c);
        }
        assert(s[s.len() - 1] == s.last());
        if s.last() != sep {
            assert(q.last() == p.last().push(s.last()));
            assert forall|i: int| 0 <= i < q.len() implies !(#[trigger] q[i]).contains(sep) by {
                if i < p.len() - 1 {
                    assert(q[i] == p[i]);
                } else {
                    let last = p[p.len() - 1];
                    assert(!last.contains(sep));
                    if q[i].contains(sep) {
                        let k = choose|k: int| 0 <= k < q[i].len() && q[i][k] == sep;
                        assert(last[k] == sep);
                    }
                }
            }
            assert forall|i: int, k: int| 0 <= i < q.len() && 0 <= k < q[i].len() implies s.contains(
                #[trigger] q[i][k],
            ) by {
                if i < p.len() - 1 {
                    assert(q[i][k] == p[i][k]);
                } else if k < p.last().len() {
                    assert(q[i][k] == p[p.len() - 1][k]);
                }
            }
        } else {
            assert forall|i: int, k: int| 0 <= i < q.len() && 0 <= k < q[i].len() implies s.contains(
                #[trigger] q[i][k],
            ) by {
                assert(q[i][k] == p[i][k]);
            }
        }
    }
}

/// The names among some parts are parts, and names.
proof fn names_are_parts(parts: Seq<Seq<char>>)
    ensures
        forall|i: int|
            0 <= i < names_in(parts).len() ==> is_name(#[trigger] names_in(parts)[i])
                && parts.contains(names_in(parts)[i]),
    decreases parts.len(),
{
    if parts.len() > 0 {
        let front = parts.drop_last();
        names_are_parts(front);
        assert forall|i: int| 0 <= i < names_in(parts).len() implies is_name(
            #[trigger] names_in(parts)[i],
        ) && parts.contains(names_in(parts)[i]) by {
            let rest = names_in(front);
            if i < rest.len() {
                assert(names_in(parts)[i] == rest[i]);
                let j = choose|j: int| 0 <= j < front.len() && front[j] == rest[i];
                assert(parts[j] == rest[i]);
            } else {
                assert(parts[parts.len() - 1] == parts.last());
            }
        }
    }
}

/// A received path never leads out of the spool: where it is accepted at all, it leads
/// through names only, each without a separator, so none is a step upwards or to a root, and
/// the first is not a drive, so neither is the path they make.
pub proof fn a_received_path_stays_in_the_spool(rel: Seq<char>, windows: bool)
    requires
        spooled(rel, windows) is Some,
    ensures
        forall|i: int|
            0 <= i < spooled(rel, windows)->0.len() ==> {
                let part = #[trigger] spooled(rel, windows)->0[i];
                &&& is_name(part)
                &&& !part.contains('/')
                &&& windows ==> !part.contains('\\')
            },
        spooled(rel, windows)->0.len() > 0,
        windows ==> !has_drive(spooled(rel, windows)->0[0]),
{
    let flat = slashed(rel, windows);
    let parts = text::pieces(flat, '/');
    pieces_hold_no_separator(flat, '/');
    names_are_parts(parts);
    text::pieces_len(flat, '/');
    let names = names_in(parts);
    assert forall|i: int| 0 <= i < names.len() implies {
        let part = #[trigger] names[i];
        &&& is_name(part)
        &&& !part.contains('/')
        &&& windows ==> !part.contains('\\')
    } by {
        let j = choose|j: int| 0 <= j < parts.len() && parts[j] == names[i];
        if windows && names[i].contains('\\') {
            let k = choose|k: int| 0 <= k < names[i].len() && names[i][k] == '\\';
            assert(flat.contains(parts[j][k]));
            let at = choose|at: int| 0 <= at < flat.len() && flat[at] == '\\';
            assert(flat[at] != '\\');
        }
    }
    first_name_is_kept(parts);
}

/// Where the first part is a name, there is a name.
proof fn first_name_is_kept(parts: Seq<Seq<char>>)
    requires
        parts.len() > 0,
        is_name(parts[0]),
    ensures
        names_in(parts).len() > 0,
        names_in(parts)[0] == parts[0],
    decreases parts.len(),
{
    if parts.len() > 1 {
        first_name_is_kept(parts.drop_last());
    } else {
        assert(names_in(parts.drop_last()).len() == 0);
        assert(names_in(parts) == names_in(parts.drop_last()).push(parts[0]));
    }
}

/// The top-level names to put on the clipboard, each once, with one more.
pub open spec fn with_top(tops: Seq<Seq<char>>, top: Seq<char>) -> Seq<Seq<char>> {
    if tops.contains(top) {
        tops
    } else {
        tops.push(top)
    }
}

/// Remember a top-level name, once.
pub fn note_top(tops: &mut Vec<String>, top: &str)
    ensures
        text::contents(final(tops)@) == with_top(text::contents(old(tops)@), top@),
{
    let ghost before = text::contents(tops@);
    let mut i: usize = 0;
    while i < tops.len()
        invariant
            i <= tops@.len(),
            text::contents(tops@) == before,
            forall|k: int| 0 <= k < i ==> before[k] != top@,
        decreases tops.len() - i,
    {
        if text::same(tops[i].as_str(), top) {
            proof {
                assert(before[i as int] == top@);
            }
            return ;
        }
        i = i + 1;
    }
    tops.push(top.to_owned());
    proof {
        assert(text::contents(tops@) =~= before.push(top@));
    }
}

/// What the page says of an image that came in.
pub fn image_note(width: u32, height: u32) -> (note: String)
    ensures
        note@ == text::decimal(width as nat) + " x "@ + text::decimal(height as nat),
{
    let mut s = text::decimal_text(width as u64);
    s.append(" x ");
    s.append(text::decimal_text(height as u64).as_str());
    s
}

/// What the page says of files that go out.
pub fn sending_note(files: usize) -> (note: String)
    ensures
        note@ == text::decimal(files as nat) + " files"@,
{
    let mut s = text::decimal_text(files as u64);
    s.append(" files");
    s
}

/// What the page says of files that came in.
pub fn files_note(files: usize, bytes: u64) -> (note: String)
    ensures
        note@ == text::decimal(files as nat) + " files, "@ + text::decimal(bytes as nat / 1024)
            + " KB"@,
{
    let mut s = text::decimal_text(files as u64);
    s.append(" files, ");
    s.append(text::decimal_text(bytes / 1024).as_str());
    s.append(" KB");
    s
}

// ---------------------------------------------------------------- what sharing promises
/// Whether some bytes come back from compression as they were.
pub open spec fn comes_back(raw: Seq<u8>) -> bool {
    inflated(deflated(raw), (raw.len() + 1) as nat) == Some(raw)
}

/// Newly copied files are shared whole: as many as were found, in the same order, each under
/// its own name and with its own bytes, compressed behind their length. Opened, they are the
/// very files that were found.
pub proof fn copied_files_are_shared_whole(
    m: ClipboardModel,
    sig: u64,
    found: Seq<(Seq<char>, Seq<u8>)>,
)
    requires
        found.len() > 0,
        m.files_sig != Some(sig),
        m.generation < u64::MAX,
    ensures
        ({
            let (after, shared) = offered_files(m, sig, Some(found));
            &&& after.generation == m.generation + 1
            &&& after.files_sig == Some(sig)
            &&& after.last_seen == m.last_seen && after.image_sig == m.image_sig && after.applied
                == m.applied
            &&& shared matches Some(SharedModel::Files { generation, entries }) && {
                &&& generation == m.generation + 1
                &&& entries.len() == found.len()
                &&& forall|i: int|
                    0 <= i < found.len() ==> (#[trigger] entries[i]).0 == found[i].0
                        && entries[i].1.len() >= 8 && entries[i].1.skip(8) == deflated(found[i].1)
                        && entries[i].1.take(8).reverse() == wire::be_bytes(found[i].1.len(), 8)
                &&& (forall|i: int|
                    0 <= i < found.len() ==> comes_back((#[trigger] found[i]).1)
                        && found[i].1.len() <= MAX_FILE_BYTES) ==> opened_files(entries) == Some(
                    found,
                )
            }
        }),
{
    let (after, shared) = offered_files(m, sig, Some(found));
    let entries = packed_files(found);
    assert forall|i: int| 0 <= i < found.len() implies (#[trigger] entries[i]).0 == found[i].0
        && entries[i].1.len() >= 8 && entries[i].1.skip(8) == deflated(found[i].1)
        && entries[i].1.take(8).reverse() == wire::be_bytes(found[i].1.len(), 8) && (comes_back(
        found[i].1,
    ) && found[i].1.len() <= MAX_FILE_BYTES ==> opened_file(entries[i].1) == Some(found[i].1)) by {
        let raw = found[i].1;
        wire::be_bytes_len(raw.len(), 8);
        let p = packed_file(raw);
        assert(p.skip(8) =~= deflated(raw));
        assert(p.take(8) =~= le8(raw.len()));
        assert(p.take(8).reverse() =~= wire::be_bytes(raw.len(), 8));
        if raw.len() <= MAX_FILE_BYTES {
            wire::be_limits();
            wire::be_value_of_be_bytes(raw.len(), 8);
        }
    }
    if forall|i: int|
        0 <= i < found.len() ==> comes_back((#[trigger] found[i]).1) && found[i].1.len()
            <= MAX_FILE_BYTES {
        assert forall|i: int| 0 <= i < entries.len() implies opened_file(
            #[trigger] entries[i].1,
        ) is Some by {
            assert(comes_back(found[i].1));
        }
        assert(opened_files(entries)->0 =~= found) by {
            assert forall|i: int| 0 <= i < found.len() implies opened_files(entries)->0[i]
                == found[i] by {
                assert(comes_back(found[i].1));
                assert(opened_file(entries[i].1) == Some(found[i].1));
            }
        }
    }
}

/// Files that arrive are opened whole or not at all: as many as were sent, in the same order
/// and under the same names, each of exactly the length it promised; one that is not spoils
/// the lot.
pub proof fn received_files_are_opened_whole(entries: Seq<(Seq<char>, Seq<u8>)>)
    ensures
        match opened_files(entries) {
            Some(raw) => {
                &&& raw.len() == entries.len()
                &&& forall|i: int|
                    0 <= i < raw.len() ==> (#[trigger] raw[i]).0 == entries[i].0 && entries[i].1.len()
                        >= 8 && wire::be_value(entries[i].1.take(8).reverse()) == raw[i].1.len()
                        && raw[i].1.len() <= MAX_FILE_BYTES && inflated(
                        entries[i].1.skip(8),
                        (raw[i].1.len() + 1) as nat,
                    ) == Some(raw[i].1)
            },
            None => exists|i: int|
                0 <= i < entries.len() && opened_file((#[trigger] entries[i]).1) is None,
        },
{
    if opened_files(entries) is Some {
        let raw = opened_files(entries)->0;
        assert forall|i: int| 0 <= i < raw.len() implies (#[trigger] raw[i]).0 == entries[i].0
            && entries[i].1.len() >= 8 && wire::be_value(entries[i].1.take(8).reverse())
            == raw[i].1.len() && raw[i].1.len() <= MAX_FILE_BYTES && inflated(
            entries[i].1.skip(8),
            (raw[i].1.len() + 1) as nat,
        ) == Some(raw[i].1) by {
            assert(opened_file(entries[i].1) is Some);
        }
    }
}

/// An image arrives with exactly the pixels that its size calls for, four bytes each, or not
/// at all.
pub proof fn a_received_image_has_its_size(packed: Seq<u8>, width: u32, height: u32)
    ensures
        opened_image(packed, width, height) matches Some(raw) ==> raw.len() == width * height * 4
            && raw.len() <= MAX_IMAGE_BYTES,
        width * height * 4 <= MAX_IMAGE_BYTES ==> forall|raw: Seq<u8>|
            #![trigger comes_back(raw)]
            raw.len() == width * height * 4 && comes_back(raw) ==> opened_image(
                deflated(raw),
                width,
                height,
            ) == Some(raw),
{
}

/// What is copied is shared once and as it is: a text or an image that was not the last one
/// seen goes out under the next number, whole, and finding it again shares nothing.
pub proof fn a_new_copy_is_shared_once(
    m: ClipboardModel,
    text: Seq<char>,
    width: u32,
    height: u32,
    rgba: Seq<u8>,
)
    requires
        m.generation < u64::MAX,
    ensures
        m.last_seen != Some(text) ==> ({
            let (after, shared) = offered_text(m, text);
            &&& shared matches Some(SharedModel::Text { generation, text: t }) && t == text
                && generation == m.generation + 1
            &&& after.last_seen == Some(text) && after.generation == m.generation + 1
            &&& after.applied == m.applied && after.image_sig == m.image_sig && after.files_sig
                == m.files_sig
            &&& offered_text(after, text) == (after, None::<SharedModel>)
        }),
        m.last_seen == Some(text) ==> offered_text(m, text) == (m, None::<SharedModel>),
        m.image_sig != Some(image_hash(width, height, rgba)) ==> ({
            let (after, shared) = offered_image(m, width, height, rgba);
            &&& shared matches Some(SharedModel::Image { generation, width: w, height: h, rgba: p }) && w
                == width && h == height && p == deflated(rgba) && generation == m.generation + 1
            &&& after.generation == m.generation + 1
            &&& after.applied == m.applied && after.last_seen == m.last_seen && after.files_sig
                == m.files_sig
            &&& offered_image(after, width, height, rgba) == (after, None::<SharedModel>)
        }),
{
}

/// Files that could not be read are not shared, and not looked at again.
pub proof fn unreadable_files_are_remembered(
    m: ClipboardModel,
    sig: u64,
    found: Option<Seq<(Seq<char>, Seq<u8>)>>,
)
    ensures
        found is None || found->0.len() == 0 ==> offered_files(m, sig, found).1 is None
            && offered_files(m, sig, found).0.generation == m.generation,
        offered_files(m, sig, found).0.files_sig == Some(sig),
        offered_files(offered_files(m, sig, found).0, sig, found).1 is None,
{
}

/// A peer's copy, once taken, counts as heard up to its number and not beyond, and this
/// machine passes it on under its own next number; what the clipboard held before no longer
/// counts as seen.
pub proof fn a_peers_copy_is_taken_and_passed_on(
    m: ClipboardModel,
    peer: PeerId,
    generation: u64,
    text: Seq<char>,
    width: u32,
    height: u32,
    raw: Seq<u8>,
    sig: u64,
    asked: u64,
)
    requires
        m.generation < u64::MAX,
    ensures
        took_text(m, peer, generation, text).generation == m.generation + 1,
        took_text(m, peer, generation, text).last_seen == Some(text),
        heard(took_text(m, peer, generation, text).applied, peer, asked) == (asked <= generation),
        took_image(m, peer, generation, width, height, raw).generation == m.generation + 1,
        took_image(m, peer, generation, width, height, raw).last_seen is None,
        heard(took_image(m, peer, generation, width, height, raw).applied, peer, asked) == (asked
            <= generation),
        took_files(m, peer, generation, sig).generation == m.generation + 1,
        took_files(m, peer, generation, sig).last_seen is None,
        took_files(m, peer, generation, sig).image_sig is None,
        heard(took_files(m, peer, generation, sig).applied, peer, asked) == (asked <= generation),
{
    an_echo_is_recognised(m.applied, peer, generation, peer, asked);
}

/// A relay goes to each connected machine as often as it is connected, in the same order, and
/// so to no machine that is not.
pub proof fn a_relay_keeps_the_order(links: Seq<PeerId>, origin: PeerId)
    ensures
        !links.contains(origin) ==> others(links, origin) == links,
        others(links, origin).len() <= links.len(),
    decreases links.len(),
{
    if links.len() > 0 {
        let front = links.drop_last();
        a_relay_keeps_the_order(front, origin);
        if !links.contains(origin) {
            assert(!front.contains(origin)) by {
                if front.contains(origin) {
                    let i = choose|i: int| 0 <= i < front.len() && front[i] == origin;
                    assert(links[i] == origin);
                }
            }
            assert(links[links.len() - 1] == links.last());
            assert(others(links, origin) =~= links);
        }
    }
}

/// Only what is shared is looked for, and nothing twice in vain: files before text, because a
/// copied file is there as text as well, and images last.
pub proof fn only_what_is_shared_is_looked_for(shares: Shares, no_files: bool, no_text: bool)
    ensures
        ({
            let look = looked_for(shares, no_files, no_text);
            &&& look is Files <==> shares.files && !no_files
            &&& look is Text ==> shares.text && !no_text
            &&& look is Image ==> shares.images
            &&& look is Nothing ==> !shares.images && (shares.text ==> no_text) && (shares.files
                ==> no_files)
            &&& shares.text && !no_text ==> look is Files || look is Text
        }),
{
}

/// A file travels behind the number of its bytes, in eight bytes, the lowest first.
pub proof fn a_file_travels_behind_its_length(raw: Seq<u8>)
    requires
        raw.len() < 0x1_0000_0000_0000_0000,
    ensures
        ({
            let s = packed_file(raw);
            &&& s.len() == 8 + deflated(raw).len()
            &&& s[0] + s[1] * 0x100 + s[2] * 0x1_0000 + s[3] * 0x100_0000 + s[4] * 0x1_0000_0000
                + s[5] * 0x100_0000_0000 + s[6] * 0x1_0000_0000_0000 + s[7] * 0x100_0000_0000_0000
                == raw.len()
            &&& s.skip(8) == deflated(raw)
        }),
{
    let b = wire::be_bytes(raw.len(), 8);
    wire::the_first_byte_counts_most(raw.len());
    let l = le8(raw.len());
    assert(l.len() == 8);
    assert(l[0] == b[7] && l[1] == b[6] && l[2] == b[5] && l[3] == b[4]);
    assert(l[4] == b[3] && l[5] == b[2] && l[6] == b[1] && l[7] == b[0]);
    let s = packed_file(raw);
    assert(s[0] == l[0] && s[1] == l[1] && s[2] == l[2] && s[3] == l[3]);
    assert(s[4] == l[4] && s[5] == l[5] && s[6] == l[6] && s[7] == l[7]);
    assert(s.skip(8) =~= deflated(raw));
}

/// An ordinary path leads through its names, every one of them and in order.
pub proof fn an_ordinary_path_leads_through_its_names(parts: Seq<Seq<char>>, windows: bool)
    requires
        parts.len() > 0,
        forall|i: int|
            0 <= i < parts.len() ==> {
                let part = #[trigger] parts[i];
                &&& part.len() > 0 && part != "."@ && part != ".."@
                &&& !part.contains('/')
                &&& windows ==> !part.contains('\\')
            },
        windows ==> !has_drive(parts[0]),
    ensures
        spooled(text::joined(parts, '/'), windows) == Some(parts),
{
    let rel = text::joined(parts, '/');
    text::pieces_of_joined(parts, '/');
    assert(slashed(rel, windows) =~= rel) by {
        if windows {
            no_backslash_in_joined(parts);
        }
    }
    assert(!parts.contains(".."@)) by {
        if parts.contains(".."@) {
            let i = choose|i: int| 0 <= i < parts.len() && parts[i] == ".."@;
            assert(parts[i] != ".."@);
        }
    }
    names_are_all_kept(parts);
}

proof fn no_backslash_in_joined(parts: Seq<Seq<char>>)
    requires
        forall|i: int| 0 <= i < parts.len() ==> !(#[trigger] parts[i]).contains('\\'),
    ensures
        !text::joined(parts, '/').contains('\\'),
    decreases parts.len(),
{
    if parts.len() == 1 {
        assert(text::joined(parts, '/') == parts[0]);
    } else if parts.len() > 1 {
        let front = parts.drop_last();
        assert forall|i: int| 0 <= i < front.len() implies !(#[trigger] front[i]).contains('\\') by {
            assert(front[i] == parts[i]);
        }
        no_backslash_in_joined(front);
        let before = text::joined(front, '/');
        let all = text::joined(parts, '/');
        if all.contains('\\') {
            let k = choose|k: int| 0 <= k < all.len() && all[k] == '\\';
            if k < before.len() {
                assert(before[k] == '\\');
            } else if k > before.len() {
                assert(parts.last()[k - before.len() - 1] == '\\');
                assert(parts[parts.len() - 1] == parts.last());
            }
        }
    }
}

proof fn names_are_all_kept(parts: Seq<Seq<char>>)
    requires
        forall|i: int| 0 <= i < parts.len() ==> is_name(#[trigger] parts[i]),
    ensures
        names_in(parts) == parts,
    decreases parts.len(),
{
    if parts.len() > 0 {
        let front = parts.drop_last();
        assert forall|i: int| 0 <= i < front.len() implies is_name(#[trigger] front[i]) by {
            assert(front[i] == parts[i]);
        }
        names_are_all_kept(front);
        assert(parts[parts.len() - 1] == parts.last());
        assert(names_in(parts) =~= parts);
    } else {
        assert(names_in(parts) =~= parts);
    }
}

/// A copy is as large as its files together, each counted once, and may be so many bytes.
pub proof fn a_copy_is_as_large_as_its_files(
    a: Seq<(Seq<char>, Seq<u8>)>,
    b: Seq<(Seq<char>, Seq<u8>)>,
)
    ensures
        total_bytes(a + b) == total_bytes(a) + total_bytes(b),
        a.len() == 0 ==> total_bytes(a) == 0,
        a.len() == 1 ==> total_bytes(a) == a[0].1.len(),
        MAX_CLIPBOARD_FILE_BYTES == 64 * 1024 * 1024,
    decreases b.len(),
{
    if a.len() == 1 {
        assert(total_bytes(a.drop_last()) == 0);
        assert(a.last() == a[0]);
    }
    if b.len() == 0 {
        assert(a + b =~= a);
    } else {
        a_copy_is_as_large_as_its_files(a, b.drop_last());
        assert((a + b).drop_last() =~= a + b.drop_last());
        assert((a + b).last() == b.last());
    }
}

/// What is shared is told as it is, part by part, and what is remembered is remembered as
/// what it is.
pub proof fn what_is_shared_is_told_as_it_is(s: Shared, state: ClipboardState)
    ensures
        match (s, s@) {
            (Shared::Text { generation, text }, SharedModel::Text { generation: g, text: t }) => g
                == generation && t == text@,
            (
                Shared::Image { generation, width, height, rgba },
                SharedModel::Image { generation: g, width: w, height: h, rgba: p },
            ) => g == generation && w == width && h == height && p == rgba@,
            (
                Shared::Files { generation, entries },
                SharedModel::Files { generation: g, entries: e },
            ) => g == generation && e.len() == entries@.len() && forall|i: int|
                0 <= i < e.len() ==> (#[trigger] e[i]).0 == entries@[i].0@ && e[i].1
                    == entries@[i].1@,
            _ => false,
        },
        state.last_seen is None <==> state@.last_seen is None,
        state.last_seen matches Some(text) ==> state@.last_seen == Some(text@),
        state@.applied == state.applied@,
        state@.generation == state.generation,
        state@.image_sig == state.image_sig,
        state@.files_sig == state.files_sig,
{
}

/// A path that could lead elsewhere is refused: one that is empty, begins with a separator,
/// steps to where it is, or steps upwards anywhere; and what is accepted holds no such step.
pub proof fn a_path_that_leads_elsewhere_is_refused(rel: Seq<char>, windows: bool, i: int)
    ensures
        rel.len() == 0 ==> spooled(rel, windows) is None,
        rel.len() > 0 && rel[0] == '/' ==> spooled(rel, windows) is None,
        windows && rel.len() > 0 && rel[0] == '\\' ==> spooled(rel, windows) is None,
        text::pieces(slashed(rel, windows), '/').contains(".."@) ==> spooled(rel, windows) is None,
        spooled(rel, windows) is Some && 0 <= i < spooled(rel, windows)->0.len() ==> {
            let part = spooled(rel, windows)->0[i];
            part.len() > 0 && part != "."@ && part != ".."@
        },
{
    let flat = slashed(rel, windows);
    let parts = text::pieces(flat, '/');
    text::a_split_loses_only_the_separators(flat, '/');
    if rel.len() == 0 {
        assert(flat =~= Seq::empty());
        assert(parts[0].len() == 0);
    } else if flat[0] == '/' {
        first_piece_is_empty(flat);
    }
    if spooled(rel, windows) is Some {
        names_are_parts(parts);
        if 0 <= i < spooled(rel, windows)->0.len() {
            assert(is_name(names_in(parts)[i]));
        }
    }
}

proof fn first_piece_is_empty(s: Seq<char>)
    requires
        s.len() > 0,
        s[0] == '/',
    ensures
        text::pieces(s, '/').len() > 1,
        text::pieces(s, '/')[0].len() == 0,
    decreases s.len(),
{
    let front = s.drop_last();
    let p = text::pieces(front, '/');
    if front.len() == 0 {
        assert(s.last() == '/');
        assert(p =~= seq![Seq::<char>::empty()]);
    } else {
        first_piece_is_empty(front);
    }
}

/// A drive is a letter and a colon at the start, and on Windows a path that begins with one is
/// refused; elsewhere it is a name like any other.
pub proof fn a_drive_is_a_letter_and_a_colon(letter: char, rest: Seq<char>)
    ensures
        has_drive(seq![letter, ':'] + rest) <==> 'a' <= letter <= 'z' || 'A' <= letter <= 'Z',
        'a' <= letter <= 'z' || 'A' <= letter <= 'Z' ==> spooled(
            seq![letter, ':'] + rest,
            true,
        ) is None,
{
    let rel = seq![letter, ':'] + rest;
    let flat = slashed(rel, true);
    let parts = text::pieces(flat, '/');
    if 'a' <= letter <= 'z' || 'A' <= letter <= 'Z' {
        assert(flat[0] == letter && flat[1] == ':');
        the_first_piece_begins_the_text(flat, 2);
    }
}

/// As long as no separator comes, the first piece begins as the text does.
proof fn the_first_piece_begins_the_text(s: Seq<char>, n: int)
    requires
        0 < n <= s.len(),
        forall|k: int| 0 <= k < n ==> #[trigger] s[k] != '/',
    ensures
        text::pieces(s, '/').len() > 0,
        text::pieces(s, '/')[0].len() >= n,
        forall|k: int| 0 <= k < n ==> #[trigger] text::pieces(s, '/')[0][k] == s[k],
    decreases s.len(),
{
    let front = s.drop_last();
    if s.len() == n {
        assert(!s.contains('/')) by {
            if s.contains('/') {
                let k = choose|k: int| 0 <= k < s.len() && s[k] == '/';
                assert(s[k] != '/');
            }
        }
        text::a_separator_begins_a_piece(Seq::empty(), '/', s);
    } else {
        assert forall|k: int| 0 <= k < n implies #[trigger] front[k] != '/' by {
            assert(front[k] == s[k]);
        }
        the_first_piece_begins_the_text(front, n);
        let (p, q) = (text::pieces(front, '/'), text::pieces(s, '/'));
        assert forall|k: int| 0 <= k < n implies #[trigger] q[0][k] == s[k] by {
            assert(p[0][k] == front[k]);
        }
    }
}

} // verus!
