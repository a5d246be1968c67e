//! How shared clipboard contents travel: each on a stream of its own.
//!
//! Contents can be far larger than a frame, and must never hold up a keystroke, so they are
//! not frames. A parcel begins with the kind of its contents, which is never 0; a framed
//! frame begins with the high byte of its length, which always is.
use crate::clipboard;
use crate::clipboard::{Shared, SharedModel};
use crate::frame;
use crate::wire;
use crate::wire::{Reader, Writer};
use crate::Error;
use vstd::prelude::*;
use vstd::string::*;
use vstd::utf8::*;

verus! {

/// The largest parcel that is read.
pub const MAX_PARCEL_BYTES: usize = 268_435_456;

// ---------------------------------------------------------------- the form
/// Bytes behind their number.
pub open spec fn blob(b: Seq<u8>) -> Seq<u8> {
    frame::uint(b.len() as int, 4) + b
}

/// A file: its path, and its bytes.
pub open spec fn entry_bytes(e: (Seq<char>, Seq<u8>)) -> Seq<u8> {
    wire::string_bytes(e.0) + blob(e.1)
}

/// Files, one behind the other.
pub open spec fn entries_bytes(entries: Seq<(Seq<char>, Seq<u8>)>) -> Seq<u8>
    decreases entries.len(),
{
    if entries.len() == 0 {
        Seq::empty()
    } else {
        entry_bytes(entries[0]) + entries_bytes(entries.skip(1))
    }
}

/// Contents as they travel.
pub open spec fn parcel(m: SharedModel) -> Seq<u8> {
    match m {
        SharedModel::Text { generation, text } => frame::uint(1, 1) + (frame::uint(
            generation as int,
            8,
        ) + blob(encode_utf8(text))),
        SharedModel::Image { generation, width, height, rgba } => frame::uint(2, 1) + (frame::uint(
            generation as int,
            8,
        ) + (frame::uint(width as int, 4) + (frame::uint(height as int, 4) + blob(rgba)))),
        SharedModel::Files { generation, entries } => frame::uint(3, 1) + (frame::uint(
            generation as int,
            8,
        ) + (frame::uint(entries.len() as int, 4) + entries_bytes(entries))),
    }
}

/// Whether a file's path and its bytes can be counted.
pub open spec fn entry_fits(e: (Seq<char>, Seq<u8>)) -> bool {
    encode_utf8(e.0).len() < 0x1_0000 && e.1.len() < 0x1_0000_0000
}

/// Whether everything in some contents can be counted.
pub open spec fn fits(m: SharedModel) -> bool {
    match m {
        SharedModel::Text { text, .. } => encode_utf8(text).len() < 0x1_0000_0000,
        SharedModel::Image { rgba, .. } => rgba.len() < 0x1_0000_0000,
        SharedModel::Files { entries, .. } => {
            &&& entries.len() < 0x1_0000_0000
            &&& forall|i: int| 0 <= i < entries.len() ==> entry_fits(#[trigger] entries[i])
        },
    }
}

/// Bytes behind their number, taken off the front of `s`.
pub open spec fn get_blob(s: Seq<u8>) -> Result<(Seq<u8>, Seq<u8>), Error> {
    match wire::get_uint(s, 4) {
        Ok((n, rest)) => wire::get_bytes(rest, n),
        Err(e) => Err(e),
    }
}

/// A file taken off the front of `s`.
pub open spec fn get_entry(s: Seq<u8>) -> Result<((Seq<char>, Seq<u8>), Seq<u8>), Error> {
    match wire::get_string(s) {
        Ok((path, rest)) => match get_blob(rest) {
            Ok((bytes, rest)) => Ok(((path, bytes), rest)),
            Err(e) => Err(e),
        },
        Err(e) => Err(e),
    }
}

/// So many more files taken off the front of `s`, behind those that were.
pub open spec fn get_entries(s: Seq<u8>, n: nat, before: Seq<(Seq<char>, Seq<u8>)>) -> Result<
    (Seq<(Seq<char>, Seq<u8>)>, Seq<u8>),
    Error,
>
    decreases n,
{
    if n == 0 {
        Ok((before, s))
    } else {
        match get_entry(s) {
            Ok((e, rest)) => get_entries(rest, (n - 1) as nat, before.push(e)),
            Err(e) => Err(e),
        }
    }
}

/// The contents of the kind `kind` taken off the front of `s`.
pub open spec fn get_contents(kind: nat, generation: u64, s: Seq<u8>) -> Result<
    (SharedModel, Seq<u8>),
    Error,
> {
    if kind == 1 {
        match get_blob(s) {
            Ok((raw, rest)) => if valid_utf8(raw) {
                Ok((SharedModel::Text { generation, text: decode_utf8(raw) }, rest))
            } else {
                Err(Error::InvalidUtf8)
            },
            Err(e) => Err(e),
        }
    } else if kind == 2 {
        match wire::get_uint(s, 4) {
            Ok((width, rest)) => match wire::get_uint(rest, 4) {
                Ok((height, rest)) => match get_blob(rest) {
                    Ok((rgba, rest)) => Ok(
                        (
                            SharedModel::Image {
                                generation,
                                width: width as u32,
                                height: height as u32,
                                rgba,
                            },
                            rest,
                        ),
                    ),
                    Err(e) => Err(e),
                },
                Err(e) => Err(e),
            },
            Err(e) => Err(e),
        }
    } else if kind == 3 {
        match wire::get_uint(s, 4) {
            Ok((n, rest)) => match get_entries(rest, n, Seq::empty()) {
                Ok((entries, rest)) => Ok((SharedModel::Files { generation, entries }, rest)),
                Err(e) => Err(e),
            },
            Err(e) => Err(e),
        }
    } else {
        Err(Error::UnknownFrameKind(kind as u8))
    }
}

/// What a parcel holds. Nothing may stand behind it.
pub open spec fn unpacked(s: Seq<u8>) -> Result<SharedModel, Error> {
    match wire::get_uint(s, 1) {
        Ok((kind, rest)) => match wire::get_uint(rest, 8) {
            Ok((generation, rest)) => match get_contents(kind, generation as u64, rest) {
                Ok((m, rest)) => if rest.len() == 0 {
                    Ok(m)
                } else {
                    Err(Error::TrailingBytes(rest.len() as usize))
                },
                Err(e) => Err(e),
            },
            Err(e) => Err(e),
        },
        Err(e) => Err(e),
    }
}

// ---------------------------------------------------------------- laws
proof fn get_blob_of_blob(b: Seq<u8>, rest: Seq<u8>)
    requires
        b.len() < 0x1_0000_0000,
    ensures
        get_blob(blob(b) + rest) == Ok::<(Seq<u8>, Seq<u8>), Error>((b, rest)),
{
    wire::be_limits();
    assert(blob(b) + rest =~= frame::uint(b.len() as int, 4) + (b + rest));
    wire::get_uint_of_be_bytes(b.len(), 4, b + rest);
    assert((b + rest).take(b.len() as int) =~= b);
    assert((b + rest).skip(b.len() as int) =~= rest);
}

proof fn get_entry_of_entry_bytes(e: (Seq<char>, Seq<u8>), rest: Seq<u8>)
    requires
        entry_fits(e),
    ensures
        get_entry(entry_bytes(e) + rest) == Ok::<((Seq<char>, Seq<u8>), Seq<u8>), Error>((e, rest)),
{
    assert(entry_bytes(e) + rest =~= wire::string_bytes(e.0) + (blob(e.1) + rest));
    wire::get_string_of_string_bytes(e.0, blob(e.1) + rest);
    get_blob_of_blob(e.1, rest);
}

proof fn get_entries_of_entries_bytes(
    entries: Seq<(Seq<char>, Seq<u8>)>,
    before: Seq<(Seq<char>, Seq<u8>)>,
    rest: Seq<u8>,
)
    requires
        forall|i: int| 0 <= i < entries.len() ==> entry_fits(#[trigger] entries[i]),
    ensures
        get_entries(entries_bytes(entries) + rest, entries.len(), before) == Ok::<
            (Seq<(Seq<char>, Seq<u8>)>, Seq<u8>),
            Error,
        >((before + entries, rest)),
    decreases entries.len(),
{
    if entries.len() == 0 {
        assert(entries_bytes(entries) + rest =~= rest);
        assert(before + entries =~= before);
    } else {
        let tail = entries.skip(1);
        assert(entries_bytes(entries) + rest =~= entry_bytes(entries[0]) + (entries_bytes(tail)
            + rest));
        get_entry_of_entry_bytes(entries[0], entries_bytes(tail) + rest);
        assert forall|i: int| 0 <= i < tail.len() implies entry_fits(#[trigger] tail[i]) by {
            assert(tail[i] == entries[i + 1]);
        }
        get_entries_of_entries_bytes(tail, before.push(entries[0]), rest);
        assert(before.push(entries[0]) + tail =~= before + entries);
    }
}

/// One more file goes behind those written so far.
proof fn entries_bytes_of_one_more(
    entries: Seq<(Seq<char>, Seq<u8>)>,
    e: (Seq<char>, Seq<u8>),
)
    ensures
        entries_bytes(entries.push(e)) == entries_bytes(entries) + entry_bytes(e),
    decreases entries.len(),
{
    reveal_with_fuel(entries_bytes, 2);
    let more = entries.push(e);
    if entries.len() == 0 {
        assert(more.skip(1) =~= Seq::empty());
        assert(entry_bytes(e) + Seq::empty() =~= Seq::empty() + entry_bytes(e));
    } else {
        assert(more.skip(1) =~= entries.skip(1).push(e));
        entries_bytes_of_one_more(entries.skip(1), e);
        assert(entries_bytes(more) =~= entries_bytes(entries) + entry_bytes(e));
    }
}

/// A clipboard arrives as it was sent: a parcel is opened to exactly the contents that were
/// packed.
pub proof fn a_parcel_holds_what_was_packed(m: SharedModel)
    requires
        fits(m),
    ensures
        unpacked(parcel(m)) == Ok::<SharedModel, Error>(m),
{
    wire::be_limits();
    let none = Seq::<u8>::empty();
    match m {
        SharedModel::Text { generation, text } => {
            let raw = encode_utf8(text);
            let body = blob(raw);
            wire::get_uint_of_be_bytes(1, 1, frame::uint(generation as int, 8) + body);
            wire::get_uint_of_be_bytes(generation as nat, 8, body);
            assert(body =~= body + none);
            get_blob_of_blob(raw, none);
            encode_utf8_valid_utf8(text);
            encode_utf8_decode_utf8(text);
        },
        SharedModel::Image { generation, width, height, rgba } => {
            let body = blob(rgba);
            let sized = frame::uint(height as int, 4) + body;
            let all = frame::uint(width as int, 4) + sized;
            wire::get_uint_of_be_bytes(2, 1, frame::uint(generation as int, 8) + all);
            wire::get_uint_of_be_bytes(generation as nat, 8, all);
            wire::get_uint_of_be_bytes(width as nat, 4, sized);
            wire::get_uint_of_be_bytes(height as nat, 4, body);
            assert(body =~= body + none);
            get_blob_of_blob(rgba, none);
        },
        SharedModel::Files { generation, entries } => {
            let body = entries_bytes(entries);
            let all = frame::uint(entries.len() as int, 4) + body;
            wire::get_uint_of_be_bytes(3, 1, frame::uint(generation as int, 8) + all);
            wire::get_uint_of_be_bytes(generation as nat, 8, all);
            wire::get_uint_of_be_bytes(entries.len(), 4, body);
            assert(body =~= body + none);
            get_entries_of_entries_bytes(entries, Seq::empty(), none);
            assert(Seq::empty() + entries =~= entries);
        },
    }
}

/// A parcel is never taken for a frame, nor a frame for a parcel: the one never begins with
/// a zero, and the other always does.
pub proof fn a_parcel_is_no_frame(m: SharedModel, body: Seq<u8>)
    requires
        body.len() <= frame::MAX_FRAME_LEN,
    ensures
        parcel(m).len() > 0 && parcel(m)[0] != 0,
        frame::framed(body).len() > 0 && frame::framed(body)[0] == 0,
{
    reveal_with_fuel(wire::be_bytes, 5);
}

// ---------------------------------------------------------------- packing
/// Whether a stream that begins with this byte holds a parcel.
pub fn is_parcel(first: u8) -> (b: bool)
    ensures
        b == (first != 0),
{
    first != 0
}

fn put_blob(buf: &mut Vec<u8>, b: &[u8])
    requires
        b@.len() < 0x1_0000_0000,
    ensures
        final(buf)@ == old(buf)@ + blob(b@),
{
    let ghost before = buf@;
    let mut w = Writer::new(buf);
    w.u32(b.len() as u32);
    w.bytes(b);
    proof {
        assert(w.buf@ =~= before + blob(b@));
    }
}

fn countable(n: usize) -> (b: bool)
    ensures
        b == (n < 0x1_0000_0000),
{
    n as u64 <= 0xFFFF_FFFF
}

fn put_head(buf: &mut Vec<u8>, kind: u8, generation: u64)
    ensures
        final(buf)@ == old(buf)@ + (frame::uint(kind as int, 1) + frame::uint(generation as int, 8)),
{
    let ghost before = buf@;
    let mut w = Writer::new(buf);
    w.u8(kind);
    w.u64(generation);
    proof {
        assert(w.buf@ =~= before + (frame::uint(kind as int, 1) + frame::uint(
            generation as int,
            8,
        )));
    }
}

/// Pack contents for a stream of their own.
pub fn pack(shared: &Shared) -> (r: Result<Vec<u8>, Error>)
    ensures
        match r {
            Ok(bytes) => fits(shared@) && bytes@ == parcel(shared@),
            Err(e) => !fits(shared@) && e == Error::TooLong,
        },
{
    let mut buf: Vec<u8> = Vec::new();
    match shared {
        Shared::Text { generation, text } => {
            let raw = text.as_str().as_bytes();
            if !countable(raw.len()) {
                return Err(Error::TooLong);
            }
            put_head(&mut buf, 1, *generation);
            put_blob(&mut buf, raw);
        },
        Shared::Image { generation, width, height, rgba } => {
            if !countable(rgba.len()) {
                return Err(Error::TooLong);
            }
            put_head(&mut buf, 2, *generation);
            put_size(&mut buf, *width, *height);
            put_blob(&mut buf, rgba.as_slice());
        },
        Shared::Files { generation, entries } => {
            if !countable(entries.len()) {
                return Err(Error::TooLong);
            }
            put_head(&mut buf, 3, *generation);
            if let Err(e) = put_entries(&mut buf, entries) {
                return Err(e);
            }
        },
    }
    proof {
        assert(buf@ =~= parcel(shared@));
    }
    Ok(buf)
}

fn put_size(buf: &mut Vec<u8>, width: u32, height: u32)
    ensures
        final(buf)@ == old(buf)@ + (frame::uint(width as int, 4) + frame::uint(height as int, 4)),
{
    let ghost before = buf@;
    let mut w = Writer::new(buf);
    w.u32(width);
    w.u32(height);
    proof {
        assert(w.buf@ =~= before + (frame::uint(width as int, 4) + frame::uint(height as int, 4)));
    }
}

fn put_entries(buf: &mut Vec<u8>, entries: &Vec<(String, Vec<u8>)>) -> (r: Result<(), Error>)
    requires
        entries@.len() < 0x1_0000_0000,
    ensures
        match r {
            Ok(_) => {
                &&& forall|i: int|
                    0 <= i < entries@.len() ==> entry_fits(
                        #[trigger] clipboard::named(entries@)[i],
                    )
                &&& final(buf)@ == old(buf)@ + (frame::uint(entries@.len() as int, 4)
                    + entries_bytes(clipboard::named(entries@)))
            },
            Err(e) => {
                &&& e == Error::TooLong
                &&& exists|i: int|
                    0 <= i < entries@.len() && !entry_fits(
                        #[trigger] clipboard::named(entries@)[i],
                    )
            },
        },
{
    let ghost all = clipboard::named(entries@);
    let ghost before = buf@;
    {
        let mut w = Writer::new(buf);
        w.u32(entries.len() as u32);
    }
    let ghost head = before + frame::uint(entries@.len() as int, 4);
    let mut i: usize = 0;
    proof {
        assert(all.take(0) =~= Seq::empty());
        assert(buf@ =~= head + entries_bytes(all.take(0)));
    }
    while i < entries.len()
        invariant
            i <= entries@.len(),
            all == clipboard::named(entries@),
            buf@ == head + entries_bytes(all.take(i as int)),
            forall|k: int| 0 <= k < i ==> entry_fits(#[trigger] all[k]),
        decreases entries.len() - i,
    {
        let ghost so_far = buf@;
        let path = entries[i].0.as_str();
        let bytes = entries[i].1.as_slice();
        proof {
            assert(all[i as int] == (path@, bytes@));
        }
        if !countable(bytes.len()) {
            return Err(Error::TooLong);
        }
        {
            let mut w = Writer::new(buf);
            if let Err(e) = w.string(path) {
                return Err(e);
            }
        }
        put_blob(buf, bytes);
        proof {
            assert(all.take(i + 1) =~= all.take(i as int).push(all[i as int]));
            entries_bytes_of_one_more(all.take(i as int), all[i as int]);
            assert(buf@ =~= head + entries_bytes(all.take(i + 1)));
        }
        i = i + 1;
    }
    proof {
        assert(all.take(all.len() as int) =~= all);
        assert(buf@ =~= before + (frame::uint(entries@.len() as int, 4) + entries_bytes(all)));
    }
    Ok(())
}

// ---------------------------------------------------------------- opening
fn take_blob<'a>(r: &mut Reader<'a>) -> (b: Result<&'a [u8], Error>)
    ensures
        match get_blob(old(r)@) {
            Ok((raw, rest)) => b is Ok && b->Ok_0@ == raw && final(r)@ == rest,
            Err(e) => b == Err::<&'a [u8], Error>(e),
        },
{
    let n: u32 = r.u32()?;
    r.bytes(n as usize)
}

fn copied(b: &[u8]) -> (v: Vec<u8>)
    ensures
        v@ == b@,
{
    let mut v: Vec<u8> = Vec::new();
    v.extend_from_slice(b);
    v
}

fn take_entry(r: &mut Reader<'_>) -> (e: Result<(String, Vec<u8>), Error>)
    ensures
        match get_entry(old(r)@) {
            Ok((entry, rest)) => e is Ok && e->Ok_0.0@ == entry.0 && e->Ok_0.1@ == entry.1
                && final(r)@ == rest,
            Err(x) => e == Err::<(String, Vec<u8>), Error>(x),
        },
{
    let path = r.string()?;
    let path = path.to_owned();
    let bytes = take_blob(r)?;
    Ok((path, copied(bytes)))
}

fn take_entries(r: &mut Reader<'_>, n: u32) -> (e: Result<Vec<(String, Vec<u8>)>, Error>)
    ensures
        match get_entries(old(r)@, n as nat, Seq::empty()) {
            Ok((entries, rest)) => e is Ok && clipboard::named(e->Ok_0@) == entries && final(r)@
                == rest,
            Err(x) => e == Err::<Vec<(String, Vec<u8>)>, Error>(x),
        },
{
    let ghost start = r@;
    let mut entries: Vec<(String, Vec<u8>)> = Vec::new();
    let mut i: u32 = 0;
    proof {
        assert(clipboard::named(entries@) =~= Seq::empty());
    }
    while i < n
        invariant
            i <= n,
            start == old(r)@,
            get_entries(start, n as nat, Seq::empty()) == get_entries(
                r@,
                (n - i) as nat,
                clipboard::named(entries@),
            ),
        decreases n - i,
    {
        let ghost before = clipboard::named(entries@);
        let entry = take_entry(r)?;
        entries.push(entry);
        proof {
            assert(clipboard::named(entries@) =~= before.push((entry.0@, entry.1@)));
        }
        i = i + 1;
    }
    Ok(entries)
}

/// Open a parcel.
pub fn unpack(bytes: &[u8]) -> (r: Result<Shared, Error>)
    ensures
        match unpacked(bytes@) {
            Ok(m) => r is Ok && r->Ok_0@ == m,
            Err(e) => r == Err::<Shared, Error>(e),
        },
{
    let mut r = Reader::new(bytes);
    let kind: u8 = r.u8()?;
    let generation: u64 = r.u64()?;
    let shared = if kind == 1 {
        let raw = take_blob(&mut r)?;
        match wire::utf8_text(raw) {
            Some(s) => {
                proof {
                    encode_utf8_decode_utf8(s@);
                }
                Shared::Text { generation, text: s.to_owned() }
            },
            None => {
                return Err(Error::InvalidUtf8);
            },
        }
    } else if kind == 2 {
        let width: u32 = r.u32()?;
        let height: u32 = r.u32()?;
        let rgba = take_blob(&mut r)?;
        Shared::Image { generation, width, height, rgba: copied(rgba) }
    } else if kind == 3 {
        let n: u32 = r.u32()?;
        let entries = take_entries(&mut r, n)?;
        Shared::Files { generation, entries }
    } else {
        return Err(Error::UnknownFrameKind(kind));
    };
    r.finish()?;
    Ok(shared)
}

// ---------------------------------------------------------------- the parcel, byte by byte
/// A parcel says, in this order: its kind, the number of the copy, and what was copied. Text
/// is told by its length and its bytes; an image by its width, its height, the number of its
/// bytes and those; files by how many there are and each in turn.
pub proof fn parcels_are_laid_out_so(m: SharedModel)
    requires
        fits(m),
    ensures
        ({
            let s = parcel(m);
            match m {
                SharedModel::Text { generation, text } => {
                    &&& s.len() == 13 + encode_utf8(text).len()
                    &&& s[0] == 1
                    &&& wire::eight_at(s, 1) == generation
                    &&& wire::four_at(s, 9) == encode_utf8(text).len()
                    &&& s.skip(13) == encode_utf8(text)
                },
                SharedModel::Image { generation, width, height, rgba } => {
                    &&& s.len() == 21 + rgba.len()
                    &&& s[0] == 2
                    &&& wire::eight_at(s, 1) == generation
                    &&& wire::four_at(s, 9) == width
                    &&& wire::four_at(s, 13) == height
                    &&& wire::four_at(s, 17) == rgba.len()
                    &&& s.skip(21) == rgba
                },
                SharedModel::Files { generation, entries } => {
                    &&& s.len() >= 13
                    &&& s[0] == 3
                    &&& wire::eight_at(s, 1) == generation
                    &&& wire::four_at(s, 9) == entries.len()
                    &&& s.skip(13) == entries_bytes(entries)
                },
            }
        }),
{
    wire::the_first_byte_counts_most(1);
    wire::the_first_byte_counts_most(2);
    wire::the_first_byte_counts_most(3);
    match m {
        SharedModel::Text { generation, text } => {
            wire::the_first_byte_counts_most(generation as nat);
            wire::the_first_byte_counts_most(encode_utf8(text).len());
        },
        SharedModel::Image { generation, width, height, rgba } => {
            wire::the_first_byte_counts_most(generation as nat);
            wire::the_first_byte_counts_most(width as nat);
            wire::the_first_byte_counts_most(height as nat);
            wire::the_first_byte_counts_most(rgba.len());
        },
        SharedModel::Files { generation, entries } => {
            wire::the_first_byte_counts_most(generation as nat);
            wire::the_first_byte_counts_most(entries.len());
        },
    }
}

/// A file in a parcel is its path behind the number of its bytes, and then its contents
/// behind the number of theirs; the files stand one behind the other.
pub proof fn files_stand_one_behind_the_other(
    a: Seq<(Seq<char>, Seq<u8>)>,
    e: (Seq<char>, Seq<u8>),
)
    requires
        entry_fits(e),
    ensures
        entries_bytes(a.push(e)) == entries_bytes(a) + entry_bytes(e),
        ({
            let (s, n) = (entry_bytes(e), encode_utf8(e.0).len() as int);
            &&& s.len() == 6 + n + e.1.len()
            &&& wire::two_at(s, 0) == n
            &&& s.subrange(2, 2 + n) == encode_utf8(e.0)
            &&& wire::four_at(s, 2 + n) == e.1.len()
            &&& s.skip(6 + n) == e.1
        }),
{
    entries_bytes_of_one_more(a, e);
    wire::the_first_byte_counts_most(encode_utf8(e.0).len());
    wire::the_first_byte_counts_most(e.1.len());
}

} // verus!
