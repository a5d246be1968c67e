//! Minimal big-endian read/write cursors.
//!
//! Hand-rolled on purpose: this crate owns the bytes on the wire, so the encoding must be
//! a property of this source file and not of some dependency's release notes.
//!
//! [`Writer`] borrows the caller's `Vec<u8>`, so a hot loop can reuse one buffer forever.
use crate::Error;
use vstd::prelude::*;
use vstd::string::*;
use vstd::utf8::*;

verus! {

// ---------------------------------------------------------------- the byte-level model
/// The number a big-endian byte string denotes.
#[verifier::opaque]
pub open spec fn be_value(s: Seq<u8>) -> nat
    decreases s.len(),
{
    if s.len() == 0 {
        0
    } else {
        be_value(s.drop_last()) * 256 + s.last() as nat
    }
}

/// The `n` big-endian bytes that denote `v`, for `v < 256^n`.
#[verifier::opaque]
pub open spec fn be_bytes(v: nat, n: nat) -> Seq<u8>
    decreases n,
{
    if n == 0 {
        Seq::empty()
    } else {
        be_bytes(v / 256, (n - 1) as nat).push((v % 256) as u8)
    }
}

/// `256^n`: how many values fit in `n` bytes.
pub open spec fn be_limit(n: nat) -> nat
    decreases n,
{
    if n == 0 {
        1
    } else {
        256 * be_limit((n - 1) as nat)
    }
}

/// Two's complement: the 32 bits that stand for a signed value.
pub open spec fn bits32(v: i32) -> nat {
    if v >= 0 {
        v as nat
    } else {
        (v + 0x1_0000_0000) as nat
    }
}

/// Two's complement: the signed value that 32 bits stand for.
pub open spec fn signed32(n: nat) -> int {
    if n < 0x8000_0000 {
        n as int
    } else {
        n - 0x1_0000_0000
    }
}

/// Two's complement: the 64 bits that stand for a signed value.
pub open spec fn bits64(v: i64) -> nat {
    if v >= 0 {
        v as nat
    } else {
        (v + 0x1_0000_0000_0000_0000) as nat
    }
}

/// Two's complement: the signed value that 64 bits stand for.
pub open spec fn signed64(n: nat) -> int {
    if n < 0x8000_0000_0000_0000 {
        n as int
    } else {
        n - 0x1_0000_0000_0000_0000
    }
}

/// A length-prefixed string on the wire.
pub open spec fn string_bytes(text: Seq<char>) -> Seq<u8> {
    be_bytes(encode_utf8(text).len(), 2) + encode_utf8(text)
}

/// A field taken off the front of `s`: its value and what is left, or the rejection.
pub open spec fn get_bytes(s: Seq<u8>, n: nat) -> Result<(Seq<u8>, Seq<u8>), Error> {
    if s.len() < n {
        Err(Error::Truncated)
    } else {
        Ok((s.take(n as int), s.skip(n as int)))
    }
}

/// An unsigned number of `n` bytes taken off the front of `s`.
pub open spec fn get_uint(s: Seq<u8>, n: nat) -> Result<(nat, Seq<u8>), Error> {
    match get_bytes(s, n) {
        Ok((raw, rest)) => Ok((be_value(raw), rest)),
        Err(e) => Err(e),
    }
}

/// A length-prefixed string taken off the front of `s`.
pub open spec fn get_string(s: Seq<u8>) -> Result<(Seq<char>, Seq<u8>), Error> {
    match get_uint(s, 2) {
        Ok((len, rest)) => match get_bytes(rest, len) {
            Ok((raw, rest)) => if valid_utf8(raw) {
                Ok((decode_utf8(raw), rest))
            } else {
                Err(Error::InvalidUtf8)
            },
            Err(e) => Err(e),
        },
        Err(e) => Err(e),
    }
}

// ---------------------------------------------------------------- laws of the model
/// An encoding has the length asked for.
pub proof fn be_bytes_len(v: nat, n: nat)
    ensures
        be_bytes(v, n).len() == n,
    decreases n,
{
    reveal(be_bytes);
    if n > 0 {
        be_bytes_len(v / 256, (n - 1) as nat);
    }
}

/// Reading back a number gives the number that was written.
pub proof fn be_value_of_be_bytes(v: nat, n: nat)
    requires
        v < be_limit(n),
    ensures
        be_value(be_bytes(v, n)) == v,
    decreases n,
{
    reveal(be_bytes);
    reveal(be_value);
    if n > 0 {
        be_value_of_be_bytes(v / 256, (n - 1) as nat);
        let s = be_bytes(v, n);
        assert(s.drop_last() =~= be_bytes(v / 256, (n - 1) as nat));
    }
}

/// Every byte string is the encoding of the number it denotes, so no number has two
/// encodings of one length.
pub proof fn be_bytes_of_be_value(s: Seq<u8>)
    ensures
        be_bytes(be_value(s), s.len()) == s,
        be_value(s) < be_limit(s.len()),
    decreases s.len(),
{
    reveal(be_bytes);
    reveal(be_value);
    if s.len() > 0 {
        be_bytes_of_be_value(s.drop_last());
        let v = be_value(s);
        assert(v / 256 == be_value(s.drop_last()));
        assert(v % 256 == s.last());
        assert(s =~= s.drop_last().push(s.last()));
    }
}

/// The bytes of a number are those of its upper part, then those of its lower.
proof fn be_bytes_split(v: nat, m: nat, n: nat)
    ensures
        be_bytes(v, m + n) == be_bytes(v / be_limit(n), m) + be_bytes(v % be_limit(n), n),
        be_limit(n) > 0,
    decreases n,
{
    reveal(be_bytes);
    if n == 0 {
        assert(be_limit(0) == 1);
        assert(v / 1 == v && v % 1 == 0);
        assert(be_bytes(v, m) =~= be_bytes(v, m) + be_bytes(0, 0));
    } else {
        let low = be_limit((n - 1) as nat);
        be_bytes_split(v / 256, m, (n - 1) as nat);
        vstd::arithmetic::div_mod::lemma_div_denominator(v as int, 256, low as int);
        vstd::arithmetic::div_mod::lemma_mod_breakdown(v as int, 256, low as int);
        let r = v % be_limit(n);
        assert(r / 256 == (v / 256) % low);
        assert(r % 256 == v % 256);
        assert(be_bytes(v, m + n) == be_bytes(v / 256, (m + n - 1) as nat).push((v % 256) as u8));
        assert(be_bytes(v, m + n) =~= be_bytes(v / be_limit(n), m) + be_bytes(r, n));
    }
}

/// Appending is associative.
pub broadcast proof fn concat_assoc(a: Seq<u8>, b: Seq<u8>, c: Seq<u8>)
    ensures
        #[trigger] ((a + b) + c) == a + (b + c),
{
    assert((a + b) + c =~= a + (b + c));
}

/// The limits of the widths the protocol uses.
pub proof fn be_limits()
    ensures
        be_limit(1) == 0x100,
        be_limit(2) == 0x1_0000,
        be_limit(4) == 0x1_0000_0000,
        be_limit(8) == 0x1_0000_0000_0000_0000,
{
    reveal_with_fuel(be_limit, 9);
}

/// A number written at the front of a stream is the number read from it, and the rest of
/// the stream follows.
pub proof fn get_uint_of_be_bytes(v: nat, n: nat, rest: Seq<u8>)
    requires
        v < be_limit(n),
    ensures
        get_uint(be_bytes(v, n) + rest, n) == Ok::<(nat, Seq<u8>), Error>((v, rest)),
{
    be_bytes_len(v, n);
    be_value_of_be_bytes(v, n);
    let s = be_bytes(v, n) + rest;
    assert(s.take(n as int) =~= be_bytes(v, n));
    assert(s.skip(n as int) =~= rest);
}

/// Bytes taken off the front of a stream that was cut short at `n`: the same bytes where
/// they were not cut, and what is left is cut as well.
pub broadcast proof fn get_bytes_of_a_start(s: Seq<u8>, n: int, k: nat)
    requires
        0 <= n <= s.len(),
    ensures
        #[trigger] get_bytes(s.take(n), k) == (if n < k {
            Err(Error::Truncated)
        } else {
            Ok::<(Seq<u8>, Seq<u8>), Error>((s.take(k as int), s.skip(k as int).take(n - k)))
        }),
{
    if n >= k {
        assert(s.take(n).take(k as int) =~= s.take(k as int));
        assert(s.take(n).skip(k as int) =~= s.skip(k as int).take(n - k));
    }
}

/// A number taken off the front of a stream that was cut short at `n`.
pub broadcast proof fn get_uint_of_a_start(s: Seq<u8>, n: int, k: nat)
    requires
        0 <= n <= s.len(),
    ensures
        #[trigger] get_uint(s.take(n), k) == (if n < k {
            Err(Error::Truncated)
        } else {
            Ok::<(nat, Seq<u8>), Error>(
                (be_value(s.take(k as int)), s.skip(k as int).take(n - k)),
            )
        }),
{
    get_bytes_of_a_start(s, n, k);
}

/// A string written at the front of a stream is the string read from it, and the rest of
/// the stream follows.
pub proof fn get_string_of_string_bytes(text: Seq<char>, rest: Seq<u8>)
    requires
        encode_utf8(text).len() < 0x1_0000,
    ensures
        get_string(string_bytes(text) + rest) == Ok::<(Seq<char>, Seq<u8>), Error>((text, rest)),
{
    let raw = encode_utf8(text);
    be_limits();
    assert(string_bytes(text) + rest =~= be_bytes(raw.len(), 2) + (raw + rest));
    get_uint_of_be_bytes(raw.len(), 2, raw + rest);
    assert((raw + rest).take(raw.len() as int) =~= raw);
    assert((raw + rest).skip(raw.len() as int) =~= rest);
    encode_utf8_valid_utf8(text);
    encode_utf8_decode_utf8(text);
}

// ---------------------------------------------------------------- text and bytes
/// `core::str::from_utf8`: succeeds exactly on valid UTF-8, and the string it gives has
/// the bytes it was given.
#[verifier::external_body]
pub(crate) fn utf8_text<'a>(raw: &'a [u8]) -> (r: Option<&'a str>)
    ensures
        r is Some <==> valid_utf8(raw@),
        r matches Some(s) ==> s.spec_bytes() == raw@,
{
    core::str::from_utf8(raw).ok()
}

// ---------------------------------------------------------------- reading
/// Big-endian reader over a byte slice: what it holds is what is still unread.
#[derive(Debug)]
pub struct Reader<'a> {
    unread: &'a [u8],
}

impl<'a> View for Reader<'a> {
    type V = Seq<u8>;

    closed spec fn view(&self) -> Seq<u8> {
        self.unread@
    }
}

impl<'a> Reader<'a> {
    #[must_use]
    pub fn new(buf: &'a [u8]) -> (r: Self)
        ensures
            r@ == buf@,
    {
        Self { unread: buf }
    }

    #[must_use]
    pub fn remaining(&self) -> (n: usize)
        ensures
            n == self@.len(),
    {
        self.unread.len()
    }

    fn take(&mut self, n: usize) -> (r: Result<&'a [u8], Error>)
        ensures
            match get_bytes(old(self)@, n as nat) {
                Ok((raw, rest)) => r is Ok && r->Ok_0@ == raw && final(self)@ == rest,
                Err(e) => r == Err::<&'a [u8], Error>(e) && final(self)@ == old(self)@,
            },
    {
        if self.unread.len() < n {
            return Err(Error::Truncated);
        }
        let (head, tail) = self.unread.split_at(n);
        self.unread = tail;
        Ok(head)
    }

    pub fn u8(&mut self) -> (r: Result<u8, Error>)
        ensures
            match get_uint(old(self)@, 1) {
                Ok((v, rest)) => r is Ok && r->Ok_0 == v && final(self)@ == rest,
                Err(e) => r == Err::<u8, Error>(e) && final(self)@ == old(self)@,
            },
    {
        let b = self.take(1)?;
        proof {
            reveal_with_fuel(be_value, 2);
        }
        Ok(b[0])
    }

    pub fn u16(&mut self) -> (r: Result<u16, Error>)
        ensures
            match get_uint(old(self)@, 2) {
                Ok((v, rest)) => r is Ok && r->Ok_0 == v && final(self)@ == rest,
                Err(e) => r == Err::<u16, Error>(e) && final(self)@ == old(self)@,
            },
    {
        let b = self.take(2)?;
        proof {
            reveal_with_fuel(be_value, 3);
        }
        Ok(b[0] as u16 * 0x100 + b[1] as u16)
    }

    pub fn u32(&mut self) -> (r: Result<u32, Error>)
        ensures
            match get_uint(old(self)@, 4) {
                Ok((v, rest)) => r is Ok && r->Ok_0 == v && final(self)@ == rest,
                Err(e) => r == Err::<u32, Error>(e) && final(self)@ == old(self)@,
            },
    {
        let b = self.take(4)?;
        proof {
            reveal_with_fuel(be_value, 5);
        }
        Ok(be_u32(b))
    }

    pub fn u64(&mut self) -> (r: Result<u64, Error>)
        ensures
            match get_uint(old(self)@, 8) {
                Ok((v, rest)) => r is Ok && r->Ok_0 == v && final(self)@ == rest,
                Err(e) => r == Err::<u64, Error>(e) && final(self)@ == old(self)@,
            },
    {
        let b = self.take(8)?;
        proof {
            reveal_with_fuel(be_value, 9);
        }
        Ok(
            b[0] as u64 * 0x100_0000_0000_0000 + b[1] as u64 * 0x1_0000_0000_0000 + b[2] as u64
                * 0x100_0000_0000 + b[3] as u64 * 0x1_0000_0000 + b[4] as u64 * 0x100_0000
                + b[5] as u64 * 0x1_0000 + b[6] as u64 * 0x100 + b[7] as u64,
        )
    }

    pub fn i32(&mut self) -> (r: Result<i32, Error>)
        ensures
            match get_uint(old(self)@, 4) {
                Ok((v, rest)) => r is Ok && r->Ok_0 == signed32(v) && final(self)@ == rest,
                Err(e) => r == Err::<i32, Error>(e) && final(self)@ == old(self)@,
            },
    {
        let v: u32 = self.u32()?;
        Ok(as_signed32(v))
    }

    pub fn i64(&mut self) -> (r: Result<i64, Error>)
        ensures
            match get_uint(old(self)@, 8) {
                Ok((v, rest)) => r is Ok && r->Ok_0 == signed64(v) && final(self)@ == rest,
                Err(e) => r == Err::<i64, Error>(e) && final(self)@ == old(self)@,
            },
    {
        let v: u64 = self.u64()?;
        proof {
            assert(v < 0x8000_0000_0000_0000 ==> v as i64 == v) by (bit_vector);
            assert(v >= 0x8000_0000_0000_0000 ==> v as i64 == v - 0x1_0000_0000_0000_0000)
                by (bit_vector);
        }
        Ok(v as i64)
    }

    pub fn bytes(&mut self, n: usize) -> (r: Result<&'a [u8], Error>)
        ensures
            match get_bytes(old(self)@, n as nat) {
                Ok((raw, rest)) => r is Ok && r->Ok_0@ == raw && final(self)@ == rest,
                Err(e) => r == Err::<&'a [u8], Error>(e) && final(self)@ == old(self)@,
            },
    {
        self.take(n)
    }

    /// Read a `u16`-length-prefixed UTF-8 string.
    ///
    /// A rejected string leaves the length prefix read, and, where it was not UTF-8, its
    /// bytes as well.
    pub fn string(&mut self) -> (r: Result<&'a str, Error>)
        ensures
            match get_string(old(self)@) {
                Ok((text, rest)) => r is Ok && r->Ok_0@ == text && final(self)@ == rest,
                Err(e) => r == Err::<&'a str, Error>(e) && final(self)@ == (if old(self)@.len()
                    < 2 {
                    old(self)@
                } else if e is Truncated {
                    old(self)@.skip(2)
                } else {
                    old(self)@.skip(2).skip(be_value(old(self)@.take(2)) as int)
                }),
            },
    {
        let len: usize = self.u16()? as usize;
        let raw = self.take(len)?;
        match utf8_text(raw) {
            Some(s) => {
                proof {
                    encode_utf8_decode_utf8(s@);
                }
                Ok(s)
            },
            None => Err(Error::InvalidUtf8),
        }
    }

    /// Assert the input is fully consumed.
    ///
    /// Trailing bytes are a decode error rather than ignored: silently accepting them
    /// would let a version mismatch look like success.
    pub fn finish(self) -> (r: Result<(), Error>)
        ensures
            r == (if self@.len() == 0 {
                Ok::<(), Error>(())
            } else {
                Err::<(), Error>(Error::TrailingBytes(self@.len() as usize))
            }),
    {
        if self.remaining() == 0 {
            Ok(())
        } else {
            Err(Error::TrailingBytes(self.remaining()))
        }
    }
}

/// The number four big-endian bytes denote.
pub(crate) fn be_u32(b: &[u8]) -> (v: u32)
    requires
        b@.len() >= 4,
    ensures
        v == be_value(b@.take(4)),
{
    proof {
        reveal_with_fuel(be_value, 5);
        assert(b@.take(4).drop_last() =~= b@.take(3));
        assert(b@.take(3).drop_last() =~= b@.take(2));
        assert(b@.take(2).drop_last() =~= b@.take(1));
        assert(b@.take(1).drop_last() =~= b@.take(0));
    }
    b[0] as u32 * 0x100_0000 + b[1] as u32 * 0x1_0000 + b[2] as u32 * 0x100 + b[3] as u32
}

fn as_signed32(v: u32) -> (r: i32)
    ensures
        r == signed32(v as nat),
{
    proof {
        assert(v < 0x8000_0000 ==> v as i32 == v) by (bit_vector);
        assert(v >= 0x8000_0000 ==> v as i32 == v - 0x1_0000_0000) by (bit_vector);
    }
    v as i32
}

// ---------------------------------------------------------------- writing
/// Big-endian writer appending into a caller-owned buffer.
#[derive(Debug)]
pub struct Writer<'a> {
    pub buf: &'a mut Vec<u8>,
}

impl<'a> Writer<'a> {
    #[must_use]
    pub fn new(buf: &'a mut Vec<u8>) -> (w: Self)
        ensures
            w.buf@ == old(buf)@,
            final(w.buf)@ == final(buf)@,
    {
        Self { buf }
    }

    pub fn u8(&mut self, v: u8)
        ensures
            final(self).buf@ == old(self).buf@ + be_bytes(v as nat, 1),
            final(final(self).buf)@ == final(old(self).buf)@,
    {
        proof {
            reveal_with_fuel(be_bytes, 2);
            assert(self.buf@.push(v) =~= self.buf@ + be_bytes(v as nat, 1));
        }
        self.buf.push(v);
    }

    pub fn u16(&mut self, v: u16)
        ensures
            final(self).buf@ == old(self).buf@ + be_bytes(v as nat, 2),
            final(final(self).buf)@ == final(old(self).buf)@,
    {
        let ghost before = self.buf@;
        self.buf.push((v / 0x100) as u8);
        self.buf.push((v % 0x100) as u8);
        proof {
            reveal_with_fuel(be_bytes, 3);
            assert(self.buf@ =~= before + be_bytes(v as nat, 2));
        }
    }

    pub fn u32(&mut self, v: u32)
        ensures
            final(self).buf@ == old(self).buf@ + be_bytes(v as nat, 4),
            final(final(self).buf)@ == final(old(self).buf)@,
    {
        let ghost before = self.buf@;
        self.buf.push((v / 0x100_0000) as u8);
        self.buf.push((v / 0x1_0000 % 0x100) as u8);
        self.buf.push((v / 0x100 % 0x100) as u8);
        self.buf.push((v % 0x100) as u8);
        proof {
            reveal_with_fuel(be_bytes, 5);
            assert(self.buf@ =~= before + be_bytes(v as nat, 4));
        }
    }

    pub fn u64(&mut self, v: u64)
        ensures
            final(self).buf@ == old(self).buf@ + be_bytes(v as nat, 8),
            final(final(self).buf)@ == final(old(self).buf)@,
    {
        let ghost before = self.buf@;
        self.u32((v / 0x1_0000_0000) as u32);
        self.u32((v % 0x1_0000_0000) as u32);
        proof {
            be_bytes_split(v as nat, 4, 4);
            be_limits();
            assert(self.buf@ =~= before + be_bytes(v as nat, 8));
        }
    }

    pub fn i32(&mut self, v: i32)
        ensures
            final(self).buf@ == old(self).buf@ + be_bytes(bits32(v), 4),
            final(final(self).buf)@ == final(old(self).buf)@,
    {
        proof {
            assert(v >= 0 ==> v as u32 == v) by (bit_vector);
            assert(v < 0 ==> v as u32 == v + 0x1_0000_0000) by (bit_vector);
        }
        self.u32(v as u32);
    }

    pub fn i64(&mut self, v: i64)
        ensures
            final(self).buf@ == old(self).buf@ + be_bytes(bits64(v), 8),
            final(final(self).buf)@ == final(old(self).buf)@,
    {
        proof {
            assert(v >= 0 ==> v as u64 == v) by (bit_vector);
            assert(v < 0 ==> v as u64 == v + 0x1_0000_0000_0000_0000) by (bit_vector);
        }
        self.u64(v as u64);
    }

    pub fn bytes(&mut self, v: &[u8])
        ensures
            final(self).buf@ == old(self).buf@ + v@,
            final(final(self).buf)@ == final(old(self).buf)@,
    {
        self.buf.extend_from_slice(v);
    }

    /// Write a `u16`-length-prefixed UTF-8 string.
    ///
    /// Returns [`Error::TooLong`] rather than truncating; a truncated hostname or screen
    /// name would produce a confusing mismatch far from its cause.
    pub fn string(&mut self, v: &str) -> (r: Result<(), Error>)
        ensures
            r == (if encode_utf8(v@).len() < 0x1_0000 {
                Ok::<(), Error>(())
            } else {
                Err::<(), Error>(Error::TooLong)
            }),
            final(self).buf@ == (if encode_utf8(v@).len() < 0x1_0000 {
                old(self).buf@ + string_bytes(v@)
            } else {
                old(self).buf@
            }),
            final(final(self).buf)@ == final(old(self).buf)@,
    {
        let ghost before = self.buf@;
        let raw = v.as_bytes();
        if raw.len() > 0xFFFF {
            return Err(Error::TooLong);
        }
        self.u16(raw.len() as u16);
        self.bytes(raw);
        proof {
            assert(self.buf@ =~= before + string_bytes(v@));
        }
        Ok(())
    }
}

// ---------------------------------------------------------------- the order of bytes
/// The number that two bytes of `s` spell, the first counting most.
pub open spec fn two_at(s: Seq<u8>, i: int) -> int {
    s[i] * 0x100 + s[i + 1]
}

/// The number that four bytes of `s` spell, the first counting most.
pub open spec fn four_at(s: Seq<u8>, i: int) -> int {
    two_at(s, i) * 0x1_0000 + two_at(s, i + 2)
}

/// The number that eight bytes of `s` spell, the first counting most.
pub open spec fn eight_at(s: Seq<u8>, i: int) -> int {
    four_at(s, i) * 0x1_0000_0000 + four_at(s, i + 4)
}

/// Numbers are written with the byte that counts most first.
pub proof fn the_first_byte_counts_most(v: nat)
    ensures
        v < 0x100 ==> be_bytes(v, 1).len() == 1 && be_bytes(v, 1)[0] == v,
        v < 0x1_0000 ==> be_bytes(v, 2).len() == 2 && two_at(be_bytes(v, 2), 0) == v,
        v < 0x1_0000_0000 ==> be_bytes(v, 4).len() == 4 && four_at(be_bytes(v, 4), 0) == v,
        v < 0x1_0000_0000_0000_0000 ==> be_bytes(v, 8).len() == 8 && eight_at(be_bytes(v, 8), 0)
            == v,
{
    reveal_with_fuel(be_bytes, 9);
}

/// Numbers are read with the byte that counts most first.
pub proof fn what_is_read_is_spelled_so(s: Seq<u8>)
    ensures
        s.len() == 1 ==> be_value(s) == s[0],
        s.len() == 2 ==> be_value(s) == two_at(s, 0),
        s.len() == 4 ==> be_value(s) == four_at(s, 0),
        s.len() == 8 ==> be_value(s) == eight_at(s, 0),
{
    be_bytes_of_be_value(s);
    be_limits();
    the_first_byte_counts_most(be_value(s));
}

/// Negative numbers are written as what they are short of the whole range, and read back so.
pub proof fn signed_numbers_wrap_around(v: i32, w: i64)
    ensures
        0 <= bits32(v) < 0x1_0000_0000,
        (bits32(v) - v) % 0x1_0000_0000 == 0,
        signed32(bits32(v)) == v,
        0 <= bits64(w) < 0x1_0000_0000_0000_0000,
        (bits64(w) - w) % 0x1_0000_0000_0000_0000 == 0,
        signed64(bits64(w)) == w,
{
}

/// A text is written as the number of its bytes, in two bytes, and then those bytes.
pub proof fn a_text_follows_its_length(text: Seq<char>)
    requires
        encode_utf8(text).len() < 0x1_0000,
    ensures
        string_bytes(text).len() == 2 + encode_utf8(text).len(),
        two_at(string_bytes(text), 0) == encode_utf8(text).len(),
        string_bytes(text).skip(2) == encode_utf8(text),
{
    the_first_byte_counts_most(encode_utf8(text).len());
}

} // verus!
