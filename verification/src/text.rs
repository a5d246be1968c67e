//! Text as a sequence of characters: the small readers and writers that the protocol's
//! text forms are built from.
use crate::keys::char_text;
use vstd::prelude::*;
use vstd::string::*;
use vstd::utf8::*;

verus! {

/// The characters of a string.
pub fn chars_of(s: &str) -> (v: Vec<char>)
    ensures
        v@ == s@,
{
    let mut v: Vec<char> = Vec::new();
    for c in it: s.chars()
        invariant
            v@ == it.seq().take(it.index() as int),
            it.seq() == s@,
    {
        proof {
            assert(it.seq().take(it.index() + 1) =~= it.seq().take(it.index() as int).push(c));
        }
        v.push(c);
    }
    proof {
        assert(s@.take(s@.len() as int) =~= s@);
    }
    v
}

/// The string of some characters.
pub fn string_of(v: &[char]) -> (s: String)
    ensures
        s@ == v@,
{
    let mut s = String::new();
    let mut i: usize = 0;
    while i < v.len()
        invariant
            i <= v@.len(),
            s@ == v@.take(i as int),
        decreases v.len() - i,
    {
        push(&mut s, v[i]);
        proof {
            assert(v@.take(i + 1) =~= v@.take(i as int).push(v@[i as int]));
        }
        i = i + 1;
    }
    proof {
        assert(v@.take(v@.len() as int) =~= v@);
    }
    s
}

/// Append one character.
pub fn push(s: &mut String, c: char)
    ensures
        final(s)@ == old(s)@.push(c),
{
    let ghost before = s@;
    let one = char_text(c);
    s.append(one.as_str());
    proof {
        assert(s@ =~= before.push(c));
    }
}

/// The string with one more text behind it.
pub fn plus(mut s: String, t: &str) -> (r: String)
    ensures
        r@ == s@ + t@,
{
    s.append(t);
    s
}

/// Whether two texts are the same.
pub fn same(a: &str, b: &str) -> (r: bool)
    ensures
        r == (a@ == b@),
{
    let x = chars_of(a);
    let y = chars_of(b);
    same_chars(x.as_slice(), y.as_slice())
}

/// Whether two runs of characters are the same.
pub fn same_chars(x: &[char], y: &[char]) -> (r: bool)
    ensures
        r == (x@ == y@),
{
    if x.len() != y.len() {
        return false;
    }
    let mut i: usize = 0;
    while i < x.len()
        invariant
            i <= x@.len(),
            x@.len() == y@.len(),
            forall|k: int| 0 <= k < i ==> x@[k] == y@[k],
        decreases x.len() - i,
    {
        if x[i] != y[i] {
            return false;
        }
        i = i + 1;
    }
    proof {
        assert(x@ =~= y@);
    }
    true
}

/// Whether `s` begins with `p`.
pub open spec fn begins<T>(s: Seq<T>, p: Seq<T>) -> bool {
    p.len() <= s.len() && s.take(p.len() as int) == p
}

/// Whether `s` begins with `p`.
pub fn begins_with(s: &[char], p: &[char]) -> (r: bool)
    ensures
        r == begins(s@, p@),
{
    if s.len() < p.len() {
        return false;
    }
    let (head, _) = s.split_at(p.len());
    proof {
        assert(head@ =~= s@.take(p@.len() as int));
    }
    same_chars(head, p)
}

// ---------------------------------------------------------------- numbers in decimal
/// The decimal digit for `d < 10`.
pub open spec fn digit(d: nat) -> char {
    (d + 48) as char
}

/// A number in decimal, without leading zeros.
pub open spec fn decimal(n: nat) -> Seq<char>
    decreases n,
{
    if n < 10 {
        seq![digit(n)]
    } else {
        decimal(n / 10).push(digit(n % 10))
    }
}

/// The digit character for `d < 10`.
pub fn digit_char(d: u8) -> (c: char)
    requires
        d < 10,
    ensures
        c == digit(d as nat),
{
    (48 + d) as char
}

/// A number in decimal.
pub fn decimal_text(n: u64) -> (s: String)
    ensures
        s@ == decimal(n as nat),
    decreases n,
{
    if n < 10 {
        let s = char_text(digit_char(n as u8));
        proof {
            assert(s@ =~= seq![digit(n as nat)]);
        }
        s
    } else {
        let mut s = decimal_text(n / 10);
        push(&mut s, digit_char((n % 10) as u8));
        s
    }
}

/// A signed number in decimal.
pub open spec fn signed_decimal(n: int) -> Seq<char> {
    if n < 0 {
        seq!['-'] + decimal((-n) as nat)
    } else {
        decimal(n as nat)
    }
}

/// A signed number in decimal.
pub fn signed_text(n: i64) -> (s: String)
    ensures
        s@ == signed_decimal(n as int),
{
    if n < 0 {
        let magnitude: u64 = if n == i64::MIN {
            0x8000_0000_0000_0000
        } else {
            (0 - n) as u64
        };
        let s = char_text('-');
        let digits = decimal_text(magnitude);
        plus(s, digits.as_str())
    } else {
        decimal_text(n as u64)
    }
}

// ---------------------------------------------------------------- bytes in hexadecimal
/// The lowercase hexadecimal digit for `d < 16`.
pub open spec fn hex_digit(d: nat) -> char {
    if d < 10 {
        (d + 48) as char
    } else {
        (d + 87) as char
    }
}

/// A byte as two hexadecimal digits.
pub open spec fn hex_byte(b: u8) -> Seq<char> {
    seq![hex_digit(b as nat / 16), hex_digit(b as nat % 16)]
}

/// Bytes as hexadecimal digits, two each.
pub open spec fn hex_of(bytes: Seq<u8>) -> Seq<char> {
    Seq::new(
        2 * bytes.len(),
        |j: int|
            hex_digit(
                if j % 2 == 0 {
                    bytes[j / 2] as nat / 16
                } else {
                    bytes[j / 2] as nat % 16
                },
            ),
    )
}

/// The value of a hexadecimal digit, of either case.
pub open spec fn hex_value(c: char) -> Option<nat> {
    if '0' <= c <= '9' {
        Some((c as nat - 48) as nat)
    } else if 'a' <= c <= 'f' {
        Some((c as nat - 87) as nat)
    } else if 'A' <= c <= 'F' {
        Some((c as nat - 55) as nat)
    } else {
        None
    }
}

/// The hexadecimal digit for `d < 16`.
pub fn hex_char(d: u8) -> (c: char)
    requires
        d < 16,
    ensures
        c == hex_digit(d as nat),
{
    if d < 10 {
        (48 + d) as char
    } else {
        (87 + d) as char
    }
}

/// Append a byte as two hexadecimal digits.
pub fn push_hex(s: &mut String, b: u8)
    ensures
        final(s)@ == old(s)@ + hex_byte(b),
{
    let ghost before = s@;
    push(s, hex_char(b / 16));
    push(s, hex_char(b % 16));
    proof {
        assert(s@ =~= before + hex_byte(b));
    }
}

/// Bytes as hexadecimal digits.
pub fn hex(bytes: &[u8]) -> (s: String)
    ensures
        s@ == hex_of(bytes@),
{
    let mut s = String::new();
    let mut i: usize = 0;
    proof {
        assert(hex_of(bytes@.take(0)) =~= Seq::<char>::empty());
    }
    while i < bytes.len()
        invariant
            i <= bytes@.len(),
            s@ == hex_of(bytes@.take(i as int)),
        decreases bytes.len() - i,
    {
        push_hex(&mut s, bytes[i]);
        proof {
            assert(hex_of(bytes@.take(i + 1)) =~= hex_of(bytes@.take(i as int)) + hex_byte(
                bytes@[i as int],
            ));
        }
        i = i + 1;
    }
    proof {
        assert(bytes@.take(bytes@.len() as int) =~= bytes@);
    }
    s
}

/// The byte two hexadecimal digits denote. Anything else is malformed, and not guessed at.
pub open spec fn pair_value(a: char, b: char) -> Option<u8> {
    match (hex_value(a), hex_value(b)) {
        (Some(x), Some(y)) => Some((16 * x + y) as u8),
        _ => None,
    }
}

/// The bytes a text of hexadecimal pairs denotes, if it is one.
pub open spec fn unhex_of(s: Seq<char>) -> Option<Seq<u8>> {
    if s.len() % 2 == 0 && forall|i: int|
        0 <= i < s.len() / 2 ==> #[trigger] pair_value(s[2 * i], s[2 * i + 1]) is Some {
        Some(Seq::new(s.len() / 2, |i: int| pair_value(s[2 * i], s[2 * i + 1])->0))
    } else {
        None
    }
}

/// The bytes a text of hexadecimal pairs denotes, if it is one.
pub fn unhex(text: &str) -> (r: Option<Vec<u8>>)
    ensures
        match unhex_of(text@) {
            Some(bytes) => r is Some && r->0@ == bytes,
            None => r is None,
        },
{
    let s = chars_of(text);
    if s.len() % 2 != 0 {
        return None;
    }
    let len: usize = s.len();
    let n: usize = len / 2;
    let mut out: Vec<u8> = Vec::new();
    let mut i: usize = 0;
    while i < n
        invariant
            i <= n,
            len == s@.len(),
            n == len / 2,
            len % 2 == 0,
            s@ == text@,
            out@.len() == i,
            forall|k: int|
                0 <= k < i ==> #[trigger] pair_value(s@[2 * k], s@[2 * k + 1]) == Some(out@[k]),
        decreases n - i,
    {
        let ghost value = pair_value(s@[2 * i as int], s@[2 * i + 1]);
        let low = match hex_digit_value(s[2 * i + 1]) {
            Some(y) => y,
            None => {
                assert(value is None);
                return None;
            },
        };
        let byte: u8 = match hex_digit_value(s[2 * i]) {
            Some(x) => 16 * x + low,
            None => {
                assert(value is None);
                return None;
            },
        };
        out.push(byte);
        i = i + 1;
    }
    proof {
        assert(out@ =~= unhex_of(text@)->0);
    }
    Some(out)
}

/// Bytes survive the trip through hexadecimal.
pub proof fn unhex_of_hex(bytes: Seq<u8>)
    ensures
        unhex_of(hex_of(bytes)) == Some(bytes),
{
    let s = hex_of(bytes);
    assert forall|i: int| 0 <= i < s.len() / 2 implies #[trigger] pair_value(s[2 * i], s[2 * i + 1])
        == Some(bytes[i]) by {
        let b = bytes[i] as nat;
        assert((2 * i) / 2 == i && (2 * i) % 2 == 0 && (2 * i + 1) / 2 == i && (2 * i + 1) % 2 == 1);
        assert(s[2 * i] == hex_digit(b / 16) && s[2 * i + 1] == hex_digit(b % 16));
        assert(hex_value(hex_digit(b / 16)) == Some(b / 16));
        assert(hex_value(hex_digit(b % 16)) == Some(b % 16));
    }
    assert(unhex_of(s)->0 =~= bytes);
}

/// The value of a hexadecimal digit.
pub fn hex_digit_value(c: char) -> (v: Option<u8>)
    ensures
        match hex_value(c) {
            Some(n) => v is Some && v->0 == n && n < 16,
            None => v is None,
        },
{
    if '0' <= c && c <= '9' {
        Some((c as u32 - 48) as u8)
    } else if 'a' <= c && c <= 'f' {
        Some((c as u32 - 87) as u8)
    } else if 'A' <= c && c <= 'F' {
        Some((c as u32 - 55) as u8)
    } else {
        None
    }
}

// ---------------------------------------------------------------- trimming and splitting
/// A character with the Unicode `White_Space` property.
pub open spec fn is_white(c: char) -> bool {
    ||| 0x9 <= c as int <= 0xD
    ||| c as int == 0x20
    ||| c as int == 0x85
    ||| c as int == 0xA0
    ||| c as int == 0x1680
    ||| 0x2000 <= c as int <= 0x200A
    ||| c as int == 0x2028
    ||| c as int == 0x2029
    ||| c as int == 0x202F
    ||| c as int == 0x205F
    ||| c as int == 0x3000
}

fn white(c: char) -> (b: bool)
    ensures
        b == is_white(c),
{
    let n: u32 = c as u32;
    (0x9 <= n && n <= 0xD) || n == 0x20 || n == 0x85 || n == 0xA0 || n == 0x1680 || (0x2000 <= n
        && n <= 0x200A) || n == 0x2028 || n == 0x2029 || n == 0x202F || n == 0x205F || n == 0x3000
}

/// Text without the white space at its start.
pub open spec fn trimmed_start(s: Seq<char>) -> Seq<char>
    decreases s.len(),
{
    if s.len() > 0 && is_white(s[0]) {
        trimmed_start(s.drop_first())
    } else {
        s
    }
}

/// Text without the white space at its end.
pub open spec fn trimmed_end(s: Seq<char>) -> Seq<char>
    decreases s.len(),
{
    if s.len() > 0 && is_white(s.last()) {
        trimmed_end(s.drop_last())
    } else {
        s
    }
}

/// Text without the white space at either end.
pub open spec fn trimmed(s: Seq<char>) -> Seq<char> {
    trimmed_end(trimmed_start(s))
}

/// Text without the white space at either end.
pub fn trim(s: &[char]) -> (r: Vec<char>)
    ensures
        r@ == trimmed(s@),
{
    let mut start: usize = 0;
    assert(s@.skip(0) =~= s@);
    while start < s.len() && white(s[start])
        invariant
            start <= s@.len(),
            trimmed_start(s@) == trimmed_start(s@.skip(start as int)),
        decreases s.len() - start,
    {
        proof {
            assert(s@.skip(start as int).drop_first() =~= s@.skip(start + 1));
        }
        start = start + 1;
    }
    let ghost body = s@.skip(start as int);
    assert(trimmed_start(s@) == body);
    let mut end: usize = s.len();
    assert(s@.subrange(start as int, end as int) =~= body);
    while end > start && white(s[end - 1])
        invariant
            start <= end <= s@.len(),
            trimmed_end(body) == trimmed_end(s@.subrange(start as int, end as int)),
        decreases end,
    {
        proof {
            let here = s@.subrange(start as int, end as int);
            assert(here.drop_last() =~= s@.subrange(start as int, end - 1));
            assert(here.last() == s@[end - 1]);
        }
        end = end - 1;
    }
    let r = copy_range(s, start, end);
    proof {
        let here = s@.subrange(start as int, end as int);
        if end > start {
            assert(here.last() == s@[end - 1]);
        }
    }
    r
}

/// A copy of part of some characters.
pub fn copy_range(s: &[char], start: usize, end: usize) -> (r: Vec<char>)
    requires
        start <= end <= s@.len(),
    ensures
        r@ == s@.subrange(start as int, end as int),
{
    let mut r: Vec<char> = Vec::new();
    let mut i: usize = start;
    while i < end
        invariant
            start <= i <= end <= s@.len(),
            r@ == s@.subrange(start as int, i as int),
        decreases end - i,
    {
        r.push(s[i]);
        proof {
            assert(s@.subrange(start as int, i + 1) =~= s@.subrange(start as int, i as int).push(
                s@[i as int],
            ));
        }
        i = i + 1;
    }
    r
}

/// The stretches of `s` between occurrences of `sep`.
pub open spec fn pieces(s: Seq<char>, sep: char) -> Seq<Seq<char>>
    decreases s.len(),
{
    if s.len() == 0 {
        seq![Seq::empty()]
    } else {
        let p = pieces(s.drop_last(), sep);
        if s.last() == sep {
            p.push(Seq::empty())
        } else {
            p.drop_last().push(p.last().push(s.last()))
        }
    }
}

/// There is always a last stretch.
pub proof fn pieces_len(s: Seq<char>, sep: char)
    ensures
        pieces(s, sep).len() > 0,
    decreases s.len(),
{
    if s.len() > 0 {
        pieces_len(s.drop_last(), sep);
    }
}

/// Texts as values.
pub open spec fn contents(v: Seq<String>) -> Seq<Seq<char>> {
    Seq::new(v.len(), |i: int| v[i]@)
}

/// The characters of each of some texts.
pub open spec fn views(v: Seq<Vec<char>>) -> Seq<Seq<char>> {
    Seq::new(v.len(), |i: int| v[i]@)
}

/// The stretches of `s` between occurrences of `sep`.
pub fn split(s: &[char], sep: char) -> (r: Vec<Vec<char>>)
    ensures
        views(r@) == pieces(s@, sep),
        r@.len() > 0,
{
    let mut r: Vec<Vec<char>> = Vec::new();
    let mut piece: Vec<char> = Vec::new();
    let mut i: usize = 0;
    proof {
        assert(views(r@).push(piece@) =~= pieces(s@.take(0), sep));
    }
    while i < s.len()
        invariant
            i <= s@.len(),
            views(r@).push(piece@) == pieces(s@.take(i as int), sep),
        decreases s.len() - i,
    {
        let c = s[i];
        let ghost before = views(r@);
        let ghost so_far = piece@;
        proof {
            let next = s@.take(i + 1);
            assert(next.drop_last() =~= s@.take(i as int));
            assert(next.last() == c);
            assert(before.push(so_far).drop_last() =~= before);
        }
        if c == sep {
            r.push(piece);
            piece = Vec::new();
            proof {
                assert(views(r@) =~= before.push(so_far));
                assert(piece@ =~= Seq::<char>::empty());
            }
        } else {
            piece.push(c);
        }
        i = i + 1;
    }
    let ghost before = views(r@);
    let ghost so_far = piece@;
    r.push(piece);
    proof {
        assert(views(r@) =~= before.push(so_far));
        assert(s@.take(s@.len() as int) =~= s@);
    }
    r
}

/// Texts joined by a separator.
pub open spec fn joined(parts: Seq<Seq<char>>, sep: char) -> Seq<char>
    decreases parts.len(),
{
    if parts.len() == 0 {
        Seq::empty()
    } else if parts.len() == 1 {
        parts[0]
    } else {
        joined(parts.drop_last(), sep).push(sep) + parts.last()
    }
}

/// Splitting undoes joining, for parts that do not hold the separator.
pub proof fn pieces_of_joined(parts: Seq<Seq<char>>, sep: char)
    requires
        parts.len() > 0,
        forall|i: int| 0 <= i < parts.len() ==> !(#[trigger] parts[i]).contains(sep),
    ensures
        pieces(joined(parts, sep), sep) == parts,
    decreases parts.len(),
{
    let last = parts.last();
    if parts.len() == 1 {
        pieces_append(Seq::empty(), last, sep);
        assert(Seq::<char>::empty() + last =~= last);
        assert(pieces(last, sep) =~= parts);
    } else {
        let front = parts.drop_last();
        assert forall|i: int| 0 <= i < front.len() implies !(#[trigger] front[i]).contains(sep) by {
            assert(front[i] == parts[i]);
        }
        pieces_of_joined(front, sep);
        let s = joined(front, sep).push(sep);
        assert(s.drop_last() =~= joined(front, sep));
        pieces_append(s, last, sep);
        assert(pieces(s, sep) == front.push(Seq::empty()));
        assert(pieces(s, sep).drop_last() =~= front);
        assert(pieces(joined(parts, sep), sep) =~= parts);
    }
}

/// Text without the separator extends the last stretch.
proof fn pieces_append(s: Seq<char>, t: Seq<char>, sep: char)
    requires
        !t.contains(sep),
    ensures
        pieces(s + t, sep) == pieces(s, sep).drop_last().push(pieces(s, sep).last() + t),
        pieces(s, sep).len() > 0,
    decreases t.len(),
{
    pieces_len(s, sep);
    let p = pieces(s, sep);
    if t.len() == 0 {
        assert(s + t =~= s);
        assert(p.last() + t =~= p.last());
        assert(p =~= p.drop_last().push(p.last()));
    } else {
        let front = t.drop_last();
        assert(!front.contains(sep)) by {
            if front.contains(sep) {
                let i = choose|i: int| 0 <= i < front.len() && front[i] == sep;
                assert(t[i] == sep);
            }
        }
        assert(t.last() != sep) by {
            assert(t[t.len() - 1] == t.last());
        }
        pieces_append(s, front, sep);
        assert((s + t).drop_last() =~= s + front);
        assert((s + t).last() == t.last());
        let q = pieces(s + front, sep);
        assert(q.drop_last() =~= p.drop_last());
        assert((p.last() + front).push(t.last()) =~= p.last() + t);
    }
}

/// An ASCII capital as its small letter, any other character as it is.
pub open spec fn lower(c: char) -> char {
    if 'A' <= c <= 'Z' {
        (c as int + 32) as char
    } else {
        c
    }
}

/// Text with ASCII capitals as small letters.
pub open spec fn lowered(s: Seq<char>) -> Seq<char> {
    Seq::new(s.len(), |i: int| lower(s[i]))
}

/// Text with ASCII capitals as small letters.
pub fn lower_ascii(s: &[char]) -> (r: Vec<char>)
    ensures
        r@ == lowered(s@),
{
    let mut r: Vec<char> = Vec::new();
    let mut i: usize = 0;
    while i < s.len()
        invariant
            i <= s@.len(),
            r@ == lowered(s@).take(i as int),
        decreases s.len() - i,
    {
        let c = s[i];
        let l = if 'A' <= c && c <= 'Z' {
            (c as u8 + 32) as char
        } else {
            c
        };
        r.push(l);
        proof {
            assert(lowered(s@).take(i + 1) =~= lowered(s@).take(i as int).push(lower(s@[i as int])));
        }
        i = i + 1;
    }
    proof {
        assert(lowered(s@).take(s@.len() as int) =~= lowered(s@));
    }
    r
}

/// Whether some characters are those of a text.
pub fn is_text(s: &[char], t: &str) -> (b: bool)
    ensures
        b == (s@ == t@),
{
    let chars = chars_of(t);
    same_chars(s, chars.as_slice())
}

// ---------------------------------------------------------------- numbers read back
/// The number some decimal digits make, most significant first.
pub open spec fn digits(s: Seq<char>) -> Option<nat>
    decreases s.len(),
{
    if s.len() == 0 {
        Some(0)
    } else {
        match digits(s.drop_last()) {
            Some(n) => if '0' <= s.last() <= '9' {
                Some((n * 10 + (s.last() as nat - 48)) as nat)
            } else {
                None
            },
            None => None,
        }
    }
}

/// An unsigned number as the standard parser reads one: digits, behind at most one plus.
pub open spec fn number(s: Seq<char>) -> Option<nat> {
    let body = if s.len() > 0 && s[0] == '+' {
        s.skip(1)
    } else {
        s
    };
    if body.len() == 0 {
        None
    } else {
        digits(body)
    }
}

/// Once a prefix is no number, or too large, so is the whole.
proof fn digits_only_grow(s: Seq<char>, n: int)
    requires
        0 <= n <= s.len(),
    ensures
        digits(s.take(n)) is None ==> digits(s) is None,
        digits(s) is Some ==> digits(s.take(n)) is Some && digits(s.take(n))->0 <= digits(s)->0,
    decreases s.len() - n,
{
    if n < s.len() {
        digits_only_grow(s, n + 1);
        assert(s.take(n + 1).drop_last() =~= s.take(n));
    } else {
        assert(s.take(n) =~= s);
    }
}

/// Read an unsigned number no larger than `max`.
pub fn parse_number(s: &[char], max: u64) -> (r: Option<u64>)
    ensures
        match number(s@) {
            Some(n) => r == if n <= max {
                Some(n as u64)
            } else {
                None
            },
            None => r is None,
        },
{
    let start: usize = if s.len() > 0 && s[0] == '+' {
        1
    } else {
        0
    };
    if start == s.len() {
        return None;
    }
    let ghost body = s@.skip(start as int);
    let mut value: u64 = 0;
    let mut i: usize = start;
    proof {
        assert(s@.skip(0) =~= s@);
        assert(digits(body.take(0)) == Some(0nat));
    }
    while i < s.len()
        invariant
            start <= i <= s@.len(),
            start <= 1,
            body == s@.skip(start as int),
            digits(body.take(i - start)) == Some(value as nat),
            value <= max,
            number(s@) == digits(body),
        decreases s.len() - i,
    {
        let c = s[i];
        proof {
            let next = body.take(i - start + 1);
            assert(next.drop_last() =~= body.take(i - start));
            assert(next.last() == c);
            digits_only_grow(body, i - start + 1);
        }
        if !('0' <= c && c <= '9') {
            return None;
        }
        let d: u64 = (c as u8 - 48) as u64;
        if value > max / 10 || (value == max / 10 && d > max % 10) {
            proof {
                assert(value * 10 + d > max);
            }
            return None;
        }
        value = value * 10 + d;
        i = i + 1;
    }
    proof {
        assert(body.take(s@.len() - start) =~= body);
    }
    Some(value)
}

/// A number written in decimal reads back as itself.
pub proof fn digits_of_decimal(n: nat)
    ensures
        digits(decimal(n)) == Some(n),
        decimal(n).len() > 0,
        '0' <= decimal(n)[0] <= '9',
        forall|i: int| 0 <= i < decimal(n).len() ==> '0' <= #[trigger] decimal(n)[i] <= '9',
    decreases n,
{
    if n < 10 {
        let d = decimal(n);
        assert(d =~= seq![digit(n)]);
        assert(d.drop_last() =~= Seq::<char>::empty());
        assert(d.last() == digit(n));
        assert(d.last() as nat == n + 48);
        assert(digits(d.drop_last()) == Some(0nat));
    } else {
        digits_of_decimal(n / 10);
        let d = decimal(n);
        assert(d.drop_last() =~= decimal(n / 10));
        assert(d.last() == digit(n % 10));
    }
}

/// A number written in decimal reads back as itself.
pub proof fn number_of_decimal(n: nat)
    ensures
        number(decimal(n)) == Some(n),
{
    digits_of_decimal(n);
}

// ---------------------------------------------------------------- searching
/// Whether `p` stands in `s` at `i`.
pub open spec fn stands_at(s: Seq<char>, p: Seq<char>, i: int) -> bool {
    0 <= i && i + p.len() <= s.len() && s.subrange(i, i + p.len()) == p
}

/// Where `p` first stands in `s`, at `from` or later.
pub open spec fn found(s: Seq<char>, p: Seq<char>, from: int) -> Option<int>
    decreases s.len() + 1 - from,
{
    if from < 0 || from + p.len() > s.len() {
        None
    } else if stands_at(s, p, from) {
        Some(from)
    } else {
        found(s, p, from + 1)
    }
}

/// Where `p` first stands in `s`, at `from` or later.
pub fn find(s: &[char], p: &[char], from: usize) -> (r: Option<usize>)
    requires
        from <= s@.len(),
    ensures
        match found(s@, p@, from as int) {
            Some(i) => r is Some && r->0 == i && stands_at(s@, p@, i) && from <= i,
            None => r is None,
        },
        r matches Some(i) ==> i + p@.len() <= s@.len(),
{
    let n: usize = p.len();
    let mut i: usize = from;
    while n <= s.len() - i
        invariant
            from <= i <= s@.len(),
            n == p@.len(),
            found(s@, p@, from as int) == found(s@, p@, i as int),
        decreases s.len() - i,
    {
        let here = copy_range(s, i, i + n);
        proof {
            if n == 0 {
                assert(here@ =~= p@);
            }
        }
        if same_chars(here.as_slice(), p) {
            return Some(i);
        }
        i = i + 1;
    }
    None
}

/// Whether a text stands somewhere in some characters.
pub fn holds(s: &[char], p: &str) -> (b: bool)
    ensures
        b == (found(s@, p@, 0) is Some),
{
    let p = chars_of(p);
    find(s, p.as_slice(), 0).is_some()
}

/// Whether some characters begin with a text.
pub fn starts(s: &[char], p: &str) -> (b: bool)
    ensures
        b == begins(s@, p@),
{
    let p = chars_of(p);
    begins_with(s, p.as_slice())
}

/// Whether `s` ends with `p`.
pub open spec fn finishes(s: Seq<char>, p: Seq<char>) -> bool {
    p.len() <= s.len() && s.skip(s.len() - p.len()) == p
}

/// Whether some characters end with a text.
pub fn ends(s: &[char], p: &str) -> (b: bool)
    ensures
        b == finishes(s@, p@),
{
    let p = chars_of(p);
    if p.len() > s.len() {
        return false;
    }
    let tail = copy_range(s, s.len() - p.len(), s.len());
    proof {
        assert(tail@ =~= s@.skip(s@.len() - p@.len()));
    }
    same_chars(tail.as_slice(), p.as_slice())
}

/// Text without the repetitions of `p` at its start.
pub open spec fn unprefixed(s: Seq<char>, p: Seq<char>) -> Seq<char>
    decreases s.len(),
{
    if p.len() > 0 && begins(s, p) {
        unprefixed(s.skip(p.len() as int), p)
    } else {
        s
    }
}

/// Some characters without the repetitions of a text at their start.
pub fn without_prefix(s: &[char], p: &str) -> (r: Vec<char>)
    ensures
        r@ == unprefixed(s@, p@),
{
    let p = chars_of(p);
    let mut at: usize = 0;
    proof {
        assert(s@.skip(0) =~= s@);
    }
    loop
        invariant_except_break
            at <= s@.len(),
            unprefixed(s@, p@) == unprefixed(s@.skip(at as int), p@),
        ensures
            at <= s@.len(),
            unprefixed(s@, p@) == s@.skip(at as int),
        decreases s.len() - at,
    {
        if p.len() == 0 || p.len() > s.len() - at {
            break ;
        }
        let here = copy_range(s, at, at + p.len());
        proof {
            assert(here@ =~= s@.skip(at as int).take(p@.len() as int));
            assert(s@.skip(at as int).skip(p@.len() as int) =~= s@.skip(at + p@.len()));
        }
        if !same_chars(here.as_slice(), p.as_slice()) {
            break ;
        }
        at = at + p.len();
    }
    let r = copy_range(s, at, s.len());
    proof {
        assert(r@ =~= s@.skip(at as int));
    }
    r
}

/// Text without the repetitions of `p` at its end.
pub open spec fn unsuffixed(s: Seq<char>, p: Seq<char>) -> Seq<char>
    decreases s.len(),
{
    if p.len() > 0 && finishes(s, p) {
        unsuffixed(s.take(s.len() - p.len()), p)
    } else {
        s
    }
}

/// Some characters without the repetitions of a text at their end.
pub fn without_suffix(s: &[char], p: &str) -> (r: Vec<char>)
    ensures
        r@ == unsuffixed(s@, p@),
{
    let p = chars_of(p);
    let mut end: usize = s.len();
    proof {
        assert(s@.take(s@.len() as int) =~= s@);
    }
    loop
        invariant_except_break
            end <= s@.len(),
            unsuffixed(s@, p@) == unsuffixed(s@.take(end as int), p@),
        ensures
            end <= s@.len(),
            unsuffixed(s@, p@) == s@.take(end as int),
        decreases end,
    {
        if p.len() == 0 || p.len() > end {
            break ;
        }
        let here = copy_range(s, end - p.len(), end);
        proof {
            let t = s@.take(end as int);
            assert(here@ =~= t.skip(t.len() - p@.len()));
            assert(t.take(t.len() - p@.len()) =~= s@.take(end - p@.len()));
        }
        if !same_chars(here.as_slice(), p.as_slice()) {
            break ;
        }
        end = end - p.len();
    }
    let r = copy_range(s, 0, end);
    proof {
        assert(r@ =~= s@.take(end as int));
    }
    r
}

// ---------------------------------------------------------------- cutting in two
/// A text cut at the first `sep`: what is before it and what is behind it.
pub open spec fn cut(s: Seq<char>, sep: Seq<char>) -> Option<(Seq<char>, Seq<char>)> {
    match found(s, sep, 0) {
        Some(i) => Some((s.take(i), s.skip(i + sep.len()))),
        None => None,
    }
}

/// Some characters cut at the first occurrence of a text.
pub fn cut_once(s: &[char], sep: &str) -> (r: Option<(Vec<char>, Vec<char>)>)
    ensures
        match cut(s@, sep@) {
            Some((a, b)) => r matches Some((x, y)) && x@ == a && y@ == b,
            None => r is None,
        },
{
    let sep = chars_of(sep);
    match find(s, sep.as_slice(), 0) {
        Some(i) => {
            let end: usize = s.len();
            let a = copy_range(s, 0, i);
            let b = copy_range(s, i + sep.len(), end);
            proof {
                assert(a@ =~= s@.take(i as int));
                assert(b@ =~= s@.skip(i + sep@.len()));
            }
            Some((a, b))
        },
        None => None,
    }
}

/// A text cut at the last `sep`.
pub open spec fn cut_last(s: Seq<char>, sep: char) -> Option<(Seq<char>, Seq<char>)>
    decreases s.len(),
{
    if s.len() == 0 {
        None
    } else if s.last() == sep {
        Some((s.drop_last(), Seq::empty()))
    } else {
        match cut_last(s.drop_last(), sep) {
            Some((a, b)) => Some((a, b.push(s.last()))),
            None => None,
        }
    }
}

/// Some characters cut at the last `sep`.
pub fn cut_at_last(s: &[char], sep: char) -> (r: Option<(Vec<char>, Vec<char>)>)
    ensures
        match cut_last(s@, sep) {
            Some((a, b)) => r matches Some((x, y)) && x@ == a && y@ == b,
            None => r is None,
        },
{
    let mut i: usize = s.len();
    proof {
        assert(s@.take(s@.len() as int) =~= s@);
        assert(s@.skip(s@.len() as int) =~= Seq::empty());
        if let Some((a, b)) = cut_last(s@, sep) {
            assert(b + Seq::<char>::empty() =~= b);
        }
    }
    while i > 0
        invariant
            i <= s@.len(),
            match cut_last(s@.take(i as int), sep) {
                Some((a, b)) => cut_last(s@, sep) == Some((a, b + s@.skip(i as int))),
                None => cut_last(s@, sep) is None,
            },
        decreases i,
    {
        i = i - 1;
        let ghost t = s@.take(i + 1);
        proof {
            assert(t.drop_last() =~= s@.take(i as int));
            assert(t.last() == s@[i as int]);
        }
        if s[i] == sep {
            let a = copy_range(s, 0, i);
            let b = copy_range(s, i + 1, s.len());
            proof {
                assert(a@ =~= t.drop_last());
                assert(b@ =~= Seq::<char>::empty() + s@.skip(i + 1));
            }
            return Some((a, b));
        }
        proof {
            match cut_last(s@.take(i as int), sep) {
                Some((a, b)) => {
                    assert(b.push(s@[i as int]) + s@.skip(i + 1) =~= b + s@.skip(i as int));
                },
                None => {},
            }
        }
    }
    None
}

/// A text cut at its first white space.
pub open spec fn cut_white(s: Seq<char>) -> (Seq<char>, Seq<char>)
    decreases s.len(),
{
    if s.len() == 0 {
        (Seq::empty(), Seq::empty())
    } else if is_white(s[0]) {
        (Seq::empty(), s.skip(1))
    } else {
        let (a, b) = cut_white(s.skip(1));
        (seq![s[0]] + a, b)
    }
}

/// Some characters cut at their first white space; all of them and nothing where there is
/// none.
pub fn cut_at_white(s: &[char]) -> (r: (Vec<char>, Vec<char>))
    ensures
        (r.0@, r.1@) == cut_white(s@),
{
    let mut i: usize = 0;
    proof {
        assert(s@.skip(0) =~= s@);
        assert(s@.take(0) + cut_white(s@).0 =~= cut_white(s@).0);
    }
    while i < s.len()
        invariant
            i <= s@.len(),
            cut_white(s@).0 == s@.take(i as int) + cut_white(s@.skip(i as int)).0,
            cut_white(s@).1 == cut_white(s@.skip(i as int)).1,
        decreases s.len() - i,
    {
        proof {
            assert(s@.skip(i as int).skip(1) =~= s@.skip(i + 1));
        }
        if white(s[i]) {
            let a = copy_range(s, 0, i);
            let b = copy_range(s, i + 1, s.len());
            proof {
                assert(a@ =~= s@.take(i as int) + Seq::<char>::empty());
                assert(b@ =~= s@.skip(i + 1));
            }
            return (a, b);
        }
        proof {
            let rest = cut_white(s@.skip(i + 1)).0;
            assert(s@.take(i as int) + (seq![s@[i as int]] + rest) =~= s@.take(i + 1) + rest);
        }
        i = i + 1;
    }
    let a = copy_range(s, 0, s.len());
    proof {
        assert(a@ =~= s@.take(i as int) + Seq::<char>::empty());
    }
    (a, Vec::new())
}

// ---------------------------------------------------------------- lines and words
/// A line without the carriage return before its end.
pub open spec fn without_return(line: Seq<char>) -> Seq<char> {
    if line.len() > 0 && line.last() == '\r' {
        line.drop_last()
    } else {
        line
    }
}

/// The lines of a text: each ends in a line feed, perhaps behind a carriage return, which
/// the last may lack.
pub open spec fn lines_of(s: Seq<char>) -> Seq<Seq<char>> {
    let p = pieces(s, '\n');
    let ended = Seq::new((p.len() - 1) as nat, |i: int| without_return(p[i]));
    if p.last().len() > 0 {
        ended.push(p.last())
    } else {
        ended
    }
}

/// The lines of a text.
pub fn lines(s: &[char]) -> (r: Vec<Vec<char>>)
    ensures
        views(r@) == lines_of(s@),
{
    let parts = split(s, '\n');
    let ghost p = pieces(s@, '\n');
    let n: usize = parts.len();
    let mut r: Vec<Vec<char>> = Vec::new();
    let mut i: usize = 0;
    while i < n - 1
        invariant
            i <= n - 1,
            n == parts@.len(),
            views(parts@) == p,
            r@.len() == i,
            forall|k: int| 0 <= k < i ==> (#[trigger] r@[k])@ == without_return(p[k]),
        decreases n - i,
    {
        let part = &parts[i];
        proof {
            assert(p[i as int] == part@);
        }
        let m: usize = part.len();
        if m > 0 && part[m - 1] == '\r' {
            let line = copy_range(part.as_slice(), 0, m - 1);
            proof {
                assert(line@ =~= part@.drop_last());
            }
            r.push(line);
        } else {
            let line = copy_range(part.as_slice(), 0, m);
            proof {
                assert(line@ =~= part@);
            }
            r.push(line);
        }
        i = i + 1;
    }
    let ghost ended = Seq::new((p.len() - 1) as nat, |i: int| without_return(p[i]));
    proof {
        assert(views(r@) =~= ended);
        assert(p.last() == parts@[n - 1]@);
    }
    if parts[n - 1].len() > 0 {
        let line = copy_range(parts[n - 1].as_slice(), 0, parts[n - 1].len());
        proof {
            assert(line@ =~= p.last());
        }
        r.push(line);
        proof {
            assert(views(r@) =~= ended.push(p.last()));
        }
    }
    r
}

/// The stretches of a text between white space, the last one perhaps unfinished.
pub open spec fn stretches(s: Seq<char>) -> Seq<Seq<char>>
    decreases s.len(),
{
    if s.len() == 0 {
        seq![Seq::empty()]
    } else {
        let p = stretches(s.drop_last());
        if is_white(s.last()) {
            p.push(Seq::empty())
        } else {
            p.drop_last().push(p.last().push(s.last()))
        }
    }
}

/// Those of some stretches that hold anything.
pub open spec fn non_empty(p: Seq<Seq<char>>) -> Seq<Seq<char>>
    decreases p.len(),
{
    if p.len() == 0 {
        Seq::empty()
    } else if p.last().len() > 0 {
        non_empty(p.drop_last()).push(p.last())
    } else {
        non_empty(p.drop_last())
    }
}

/// The words of a text.
pub open spec fn words_of(s: Seq<char>) -> Seq<Seq<char>> {
    non_empty(stretches(s))
}

/// The words of a text.
pub fn words(s: &[char]) -> (r: Vec<Vec<char>>)
    ensures
        views(r@) == words_of(s@),
{
    let mut r: Vec<Vec<char>> = Vec::new();
    let mut word: Vec<char> = Vec::new();
    let ghost mut done: Seq<Seq<char>> = Seq::empty();
    let mut i: usize = 0;
    proof {
        assert(s@.take(0) =~= Seq::empty());
        assert(done.push(word@) =~= stretches(s@.take(0)));
        assert(views(r@) =~= non_empty(done));
    }
    while i < s.len()
        invariant
            i <= s@.len(),
            done.push(word@) == stretches(s@.take(i as int)),
            views(r@) == non_empty(done),
        decreases s.len() - i,
    {
        let c = s[i];
        let ghost so_far = word@;
        proof {
            let next = s@.take(i + 1);
            assert(next.drop_last() =~= s@.take(i as int));
            assert(next.last() == c);
            assert(done.push(so_far).drop_last() =~= done);
        }
        if white(c) {
            let ghost before = views(r@);
            proof {
                assert(done.push(so_far).drop_last() =~= done);
            }
            if word.len() > 0 {
                r.push(word);
                proof {
                    assert(views(r@) =~= before.push(so_far));
                }
            }
            word = Vec::new();
            proof {
                done = done.push(so_far);
                assert(word@ =~= Seq::<char>::empty());
            }
        } else {
            word.push(c);
        }
        i = i + 1;
    }
    let ghost so_far = word@;
    let ghost before = views(r@);
    proof {
        assert(s@.take(s@.len() as int) =~= s@);
        assert(done.push(so_far).drop_last() =~= done);
    }
    if word.len() > 0 {
        r.push(word);
        proof {
            assert(views(r@) =~= before.push(so_far));
        }
    }
    r
}

// ---------------------------------------------------------------- for the page
/// Text with its double quotes as single ones, so that it can stand in a JSON string.
pub open spec fn requoted(s: Seq<char>) -> Seq<char> {
    Seq::new(
        s.len(),
        |i: int|
            if s[i] == '"' {
                '\''
            } else {
                s[i]
            },
    )
}

/// Text with its double quotes as single ones.
pub fn requote(s: &str) -> (r: String)
    ensures
        r@ == requoted(s@),
{
    let chars = chars_of(s);
    let mut out: Vec<char> = Vec::new();
    let mut i: usize = 0;
    while i < chars.len()
        invariant
            i <= chars@.len(),
            out@.len() == i,
            forall|k: int| 0 <= k < i ==> out@[k] == requoted(chars@)[k],
        decreases chars.len() - i,
    {
        let c = chars[i];
        if c == '"' {
            out.push('\'');
        } else {
            out.push(c);
        }
        i = i + 1;
    }
    proof {
        assert(out@ =~= requoted(s@));
    }
    string_of(out.as_slice())
}

/// What was requoted cannot end the JSON string it stands in.
pub proof fn requoted_text_stays_in_its_quotes(s: Seq<char>)
    ensures
        !requoted(s).contains('"'),
        requoted(s).len() == s.len(),
{
}

/// A truth value as JSON writes it.
pub open spec fn truth(b: bool) -> Seq<char> {
    if b {
        "true"@
    } else {
        "false"@
    }
}

/// A truth value as JSON writes it.
pub fn truth_text(b: bool) -> (s: &'static str)
    ensures
        s@ == truth(b),
{
    if b {
        "true"
    } else {
        "false"
    }
}

/// Texts with a comma between each two.
pub open spec fn listed(parts: Seq<Seq<char>>) -> Seq<char> {
    joined(parts, ',')
}

/// Put one more text at the end of a list.
pub fn push_listed(list: &mut String, Ghost(parts): Ghost<Seq<Seq<char>>>, part: &str)
    requires
        old(list)@ == listed(parts),
        part@.len() > 0,
        forall|i: int| 0 <= i < parts.len() ==> (#[trigger] parts[i]).len() > 0,
    ensures
        final(list)@ == listed(parts.push(part@)),
{
    proof {
        assert(parts.push(part@).drop_last() =~= parts);
        joined_is_empty_iff_nothing(parts, ',');
    }
    if !list.as_str().is_empty() {
        list.append(",");
        proof {
            reveal_strlit(",");
            assert(listed(parts) + ","@ =~= listed(parts).push(','));
        }
    }
    let ghost before = list@;
    list.append(part);
    proof {
        if parts.len() == 0 {
            assert(list@ =~= part@);
        }
    }
}

/// A list is empty just where nothing is in it, as long as nothing in it is empty.
proof fn joined_is_empty_iff_nothing(parts: Seq<Seq<char>>, sep: char)
    requires
        forall|i: int| 0 <= i < parts.len() ==> (#[trigger] parts[i]).len() > 0,
    ensures
        joined(parts, sep).len() == 0 <==> parts.len() == 0,
{
}

// ---------------------------------------------------------------- writing lines
/// Lines, each with the line feed that ends it.
pub open spec fn written(ls: Seq<Seq<char>>) -> Seq<char>
    decreases ls.len(),
{
    if ls.len() == 0 {
        Seq::empty()
    } else {
        (written(ls.drop_last()) + ls.last()).push('\n')
    }
}

/// Whether a line can be written and read back: it holds no line feed, and no carriage
/// return stands at its end.
pub open spec fn is_line(s: Seq<char>) -> bool {
    !s.contains('\n') && (s.len() > 0 ==> s.last() != '\r')
}

proof fn written_is_joined(ls: Seq<Seq<char>>)
    requires
        ls.len() > 0,
    ensures
        written(ls) == joined(ls, '\n').push('\n'),
    decreases ls.len(),
{
    let front = ls.drop_last();
    if ls.len() == 1 {
        assert(front =~= Seq::empty());
        assert(written(front) + ls.last() =~= ls[0]);
    } else {
        written_is_joined(front);
        assert((joined(front, '\n').push('\n') + ls.last()) =~= joined(ls, '\n'));
    }
}

/// Written lines read back as they were.
pub proof fn lines_of_written(ls: Seq<Seq<char>>)
    requires
        forall|i: int| 0 <= i < ls.len() ==> is_line(#[trigger] ls[i]),
    ensures
        lines_of(written(ls)) == ls,
{
    let parts = ls.push(Seq::empty());
    if ls.len() == 0 {
        assert(pieces(Seq::empty(), '\n') =~= parts);
    } else {
        written_is_joined(ls);
        assert(parts.drop_last() =~= ls);
        assert(joined(parts, '\n') =~= written(ls));
        assert forall|i: int| 0 <= i < parts.len() implies !(#[trigger] parts[i]).contains('\n') by {
            if i < ls.len() {
                assert(is_line(ls[i]));
            }
        }
        pieces_of_joined(parts, '\n');
    }
    let ended = Seq::new((parts.len() - 1) as nat, |i: int| without_return(parts[i]));
    assert forall|i: int| 0 <= i < ls.len() implies ended[i] == ls[i] by {
        assert(is_line(ls[i]));
    }
    assert(lines_of(written(ls)) =~= ls);
}

// ---------------------------------------------------------------- letter case and quoting
/// A text in small letters, as Unicode defines them.
pub uninterp spec fn lowercase(s: Seq<char>) -> Seq<char>;

/// `str::to_lowercase`. What Unicode makes of a text depends on the text alone and is named
/// [`lowercase`].
#[verifier::external_body]
pub(crate) fn to_lowercase(s: &str) -> (r: String)
    ensures
        r@ == lowercase(s@),
{
    s.to_lowercase()
}

/// A text in quotes, with what cannot be printed escaped.
pub uninterp spec fn quoted(s: Seq<char>) -> Seq<char>;

/// The debug form of a string. It depends on the text alone and is named [`quoted`].
#[verifier::external_body]
pub(crate) fn quote(s: &str) -> (r: String)
    ensures
        r@ == quoted(s@),
{
    format!("{s:?}")
}

/// Whether no character of a text is white space.
pub open spec fn solid(s: Seq<char>) -> bool {
    forall|i: int| 0 <= i < s.len() ==> !is_white(#[trigger] s[i])
}

/// Trimming leaves a text alone that neither begins nor ends in white space.
pub proof fn trimmed_already(s: Seq<char>)
    requires
        s.len() > 0 ==> !is_white(s[0]) && !is_white(s.last()),
    ensures
        trimmed(s) == s,
{
}

/// A trimmed text begins and ends in something else than white space.
pub proof fn trimmed_ends(s: Seq<char>)
    requires
        s == trimmed(s),
        s.len() > 0,
    ensures
        !is_white(s[0]),
        !is_white(s.last()),
{
    trimming_never_grows(s);
    let t = trimmed_start(s);
    trimmed_end_never_grows(t);
    if is_white(s[0]) {
        trimming_never_grows(s.drop_first());
    }
    if is_white(s.last()) {
        if t.len() == s.len() {
            trimmed_end_never_grows(t.drop_last());
        }
    }
}

proof fn trimming_never_grows(s: Seq<char>)
    ensures
        trimmed_start(s).len() <= s.len(),
        trimmed_start(s).len() == s.len() ==> trimmed_start(s) == s,
    decreases s.len(),
{
    if s.len() > 0 && is_white(s[0]) {
        trimming_never_grows(s.drop_first());
    }
}

proof fn trimmed_end_never_grows(s: Seq<char>)
    ensures
        trimmed_end(s).len() <= s.len(),
    decreases s.len(),
{
    if s.len() > 0 && is_white(s.last()) {
        trimmed_end_never_grows(s.drop_last());
    }
}

/// Hexadecimal holds no white space, and nothing but digits and small letters.
pub proof fn hex_is_solid(bytes: Seq<u8>)
    ensures
        solid(hex_of(bytes)),
        hex_of(bytes).len() == 2 * bytes.len(),
        forall|i: int|
            0 <= i < hex_of(bytes).len() ==> '0' <= #[trigger] hex_of(bytes)[i] <= '9' || 'a'
                <= hex_of(bytes)[i] <= 'f',
{
    let h = hex_of(bytes);
    assert forall|i: int| 0 <= i < h.len() implies '0' <= #[trigger] h[i] <= '9' || 'a' <= h[i]
        <= 'f' by {
        assert(h[i] == hex_digit((bytes[i / 2] / 16) as nat) || h[i] == hex_digit(
            (bytes[i / 2] % 16) as nat,
        ));
    }
}

/// A solid text behind which a space and more follow is cut at that space.
pub proof fn cut_behind_solid(a: Seq<char>, rest: Seq<char>)
    requires
        solid(a),
    ensures
        cut_white(a.push(' ') + rest) == (a, rest),
        cut_white(a) == (a, Seq::<char>::empty()),
    decreases a.len(),
{
    let s = a.push(' ') + rest;
    if a.len() == 0 {
        assert(s.skip(1) =~= rest);
        assert(a =~= Seq::empty());
    } else {
        let tail = a.skip(1);
        assert forall|i: int| 0 <= i < tail.len() implies !is_white(#[trigger] tail[i]) by {
            assert(tail[i] == a[i + 1]);
        }
        cut_behind_solid(tail, rest);
        assert(s.skip(1) =~= tail.push(' ') + rest);
        assert(s[0] == a[0]);
        assert(seq![a[0]] + tail =~= a);
    }
}

// ---------------------------------------------------------------- what these do to a text
/// Each byte is spelled by two digits, the upper half first: `0` to `9`, then `a` to `f`.
pub proof fn hexadecimal_spells_each_byte(bytes: Seq<u8>, i: int)
    requires
        0 <= i < bytes.len(),
    ensures
        hex_of(bytes).len() == 2 * bytes.len(),
        ({
            let (hi, lo) = (bytes[i] as int / 16, bytes[i] as int % 16);
            &&& hi < 10 ==> hex_of(bytes)[2 * i] as int == 48 + hi
            &&& hi >= 10 ==> hex_of(bytes)[2 * i] as int == 97 + (hi - 10)
            &&& lo < 10 ==> hex_of(bytes)[2 * i + 1] as int == 48 + lo
            &&& lo >= 10 ==> hex_of(bytes)[2 * i + 1] as int == 97 + (lo - 10)
        }),
{
    assert((2 * i) / 2 == i && (2 * i) % 2 == 0 && (2 * i + 1) / 2 == i && (2 * i + 1) % 2 == 1);
}

/// Hexadecimal is read in capitals as in small letters, and nothing else is a digit.
pub proof fn hexadecimal_digits_have_their_values(c: char)
    ensures
        '0' <= c <= '9' ==> hex_value(c) == Some((c as int - '0' as int) as nat),
        'a' <= c <= 'f' ==> hex_value(c) == Some((c as int - 'a' as int + 10) as nat),
        'A' <= c <= 'F' ==> hex_value(c) == Some((c as int - 'A' as int + 10) as nat),
        hex_value(c) is Some ==> '0' <= c <= '9' || 'a' <= c <= 'f' || 'A' <= c <= 'F',
{
}

/// Among the ASCII characters white space is the space and the five control characters from
/// the tabulator to the carriage return.
pub proof fn ascii_white_space_is_this(c: char)
    requires
        (c as int) < 128,
    ensures
        is_white(c) <==> c == ' ' || '\t' <= c <= '\r',
{
}

/// Whether `t` stands in `s` at `i`, with nothing but white space before and behind it.
pub open spec fn alone_at(s: Seq<char>, t: Seq<char>, i: int) -> bool {
    &&& 0 <= i && i + t.len() <= s.len()
    &&& s.subrange(i, i + t.len()) == t
    &&& forall|k: int| 0 <= k < i || i + t.len() <= k < s.len() ==> is_white(#[trigger] s[k])
}

/// Trimming takes white space off the ends and nothing else: what is left stands in the text
/// as it is, there is only white space before and behind it, and it neither begins nor ends
/// in any.
pub proof fn trimming_takes_only_white_space(s: Seq<char>)
    ensures
        exists|i: int| alone_at(s, trimmed(s), i),
        trimmed(s).len() > 0 ==> !is_white(trimmed(s)[0]) && !is_white(trimmed(s).last()),
{
    let t = trimmed(s);
    let i = start_of(s);
    let mid = trimmed_start(s);
    let n = end_of(mid);
    assert(t == mid.take(n));
    assert(i + t.len() <= s.len());
    assert(s.subrange(i, i + t.len()) =~= t);
    assert forall|k: int| 0 <= k < i || i + t.len() <= k < s.len() implies is_white(
        #[trigger] s[k],
    ) by {
        if k >= i {
            assert(s[k] == mid[k - i]);
        }
    }
    assert(alone_at(s, t, i));
}

/// How much white space a text begins with.
proof fn start_of(s: Seq<char>) -> (i: int)
    ensures
        0 <= i <= s.len(),
        trimmed_start(s) == s.skip(i),
        forall|k: int| 0 <= k < i ==> is_white(#[trigger] s[k]),
        i < s.len() ==> !is_white(s[i]),
    decreases s.len(),
{
    if s.len() > 0 && is_white(s[0]) {
        let rest = s.drop_first();
        let i = start_of(rest);
        assert(rest.skip(i) =~= s.skip(i + 1));
        assert forall|k: int| 0 <= k < i + 1 implies is_white(#[trigger] s[k]) by {
            if k > 0 {
                assert(rest[k - 1] == s[k]);
            }
        }
        if i + 1 < s.len() {
            assert(rest[i] == s[i + 1]);
        }
        i + 1
    } else {
        assert(s.skip(0) =~= s);
        0
    }
}

/// Where the white space at the end of a text begins.
proof fn end_of(s: Seq<char>) -> (n: int)
    ensures
        0 <= n <= s.len(),
        trimmed_end(s) == s.take(n),
        forall|k: int| n <= k < s.len() ==> is_white(#[trigger] s[k]),
        n > 0 ==> !is_white(s[n - 1]),
    decreases s.len(),
{
    if s.len() > 0 && is_white(s.last()) {
        let front = s.drop_last();
        let n = end_of(front);
        assert(front.take(n) =~= s.take(n));
        assert forall|k: int| n <= k < s.len() implies is_white(#[trigger] s[k]) by {
            if k < front.len() {
                assert(front[k] == s[k]);
            }
        }
        if n > 0 {
            assert(front[n - 1] == s[n - 1]);
        }
        n
    } else {
        assert(s.take(s.len() as int) =~= s);
        s.len() as int
    }
}

/// What is found is the first occurrence, and nothing is found only where there is none.
pub proof fn what_is_found_is_the_first(s: Seq<char>, p: Seq<char>, from: int)
    requires
        0 <= from,
    ensures
        match found(s, p, from) {
            Some(i) => {
                &&& from <= i && i + p.len() <= s.len()
                &&& s.subrange(i, i + p.len()) == p
                &&& forall|j: int|
                    from <= j < i ==> !(#[trigger] s.subrange(j, j + p.len()) == p)
            },
            None => forall|j: int|
                from <= j && j + p.len() <= s.len() ==> !(#[trigger] s.subrange(j, j + p.len())
                    == p),
        },
    decreases s.len() + 1 - from,
{
    if from + p.len() <= s.len() && !stands_at(s, p, from) {
        what_is_found_is_the_first(s, p, from + 1);
    }
}

/// A text cut in two is its parts with the separator between them; cut at the first, the
/// separator stands nowhere before, and cut at the last, nowhere behind.
pub proof fn a_cut_loses_only_the_separator(s: Seq<char>, sep: Seq<char>, c: char)
    ensures
        cut(s, sep) matches Some((a, b)) ==> s == a + sep + b && forall|j: int|
            0 <= j < a.len() ==> !(#[trigger] s.subrange(j, j + sep.len()) == sep),
        cut(s, sep) is None ==> forall|j: int|
            0 <= j && j + sep.len() <= s.len() ==> !(#[trigger] s.subrange(j, j + sep.len()) == sep),
        cut_last(s, c) matches Some((a, b)) ==> s == a.push(c) + b && !b.contains(c),
        cut_last(s, c) is None ==> !s.contains(c),
    decreases s.len(),
{
    what_is_found_is_the_first(s, sep, 0);
    if let Some(i) = found(s, sep, 0) {
        assert(s =~= s.take(i) + sep + s.skip(i + sep.len())) by {
            assert forall|k: int| i <= k < i + sep.len() implies s[k] == sep[k - i] by {
                assert(s[k] == s.subrange(i, i + sep.len())[k - i]);
            }
        }
    }
    if s.len() > 0 {
        let front = s.drop_last();
        a_cut_loses_only_the_separator(front, sep, c);
        if s.last() == c {
            assert(s =~= front.push(c) + Seq::<char>::empty());
        } else {
            match cut_last(front, c) {
                Some((a, b)) => {
                    assert(front == a.push(c) + b);
                    assert(s =~= front.push(s.last()));
                    assert(front.push(s.last()) =~= a.push(c) + b.push(s.last()));
                    if b.push(s.last()).contains(c) {
                        let k = choose|k: int|
                            0 <= k < b.push(s.last()).len() && b.push(s.last())[k] == c;
                        assert(b[k] == c);
                    }
                },
                None => {
                    if s.contains(c) {
                        let k = choose|k: int| 0 <= k < s.len() && s[k] == c;
                        assert(front[k] == c);
                    }
                },
            }
        }
    }
}

/// Splitting loses only the separators: none is left in a piece, and the pieces joined by it
/// are the text.
pub proof fn a_split_loses_only_the_separators(s: Seq<char>, sep: char)
    ensures
        joined(pieces(s, sep), sep) == s,
        pieces(s, sep).len() > 0,
        forall|i: int| 0 <= i < pieces(s, sep).len() ==> !(#[trigger] pieces(s, sep)[i]).contains(
            sep,
        ),
    decreases s.len(),
{
    if s.len() == 0 {
        assert(pieces(s, sep)[0] =~= s);
    } else {
        let front = s.drop_last();
        a_split_loses_only_the_separators(front, sep);
        let p = pieces(front, sep);
        let q = pieces(s, sep);
        if s.last() == sep {
            assert(q.drop_last() =~= p);
            assert(joined(q, sep) =~= s);
        } else {
            assert(q.drop_last() =~= p.drop_last());
            assert(joined(q, sep) =~= joined(p, sep).push(s.last()));
            assert(joined(q, sep) =~= s);
            assert forall|i: int| 0 <= i < q.len() implies !(#[trigger] q[i]).contains(sep) by {
                if i < q.len() - 1 {
                    assert(q[i] == p[i]);
                } else {
                    assert(q[i] == p.last().push(s.last()));
                    assert(!p[p.len() - 1].contains(sep));
                    if q[i].contains(sep) {
                        let k = choose|k: int| 0 <= k < q[i].len() && q[i][k] == sep;
                        assert(p.last()[k] == sep);
                    }
                }
            }
        }
    }
}

/// Words are what stands between white space: white space at the end adds none, and a solid
/// text behind white space, or at the start, is the last word.
pub proof fn words_stand_between_white_space(s: Seq<char>, c: char, w: Seq<char>)
    requires
        solid(w),
        w.len() > 0,
        is_white(c),
    ensures
        words_of(Seq::empty()).len() == 0,
        words_of(w) == seq![w],
        words_of(s.push(c)) == words_of(s),
        words_of(s.push(c) + w) == words_of(s).push(w),
{
    stretches_are_some(s);
    let p = stretches(s);
    assert(s.push(c).drop_last() =~= s);
    assert(stretches(s.push(c)) == p.push(Seq::empty()));
    assert(p.push(Seq::empty()).drop_last() =~= p);
    solid_stretches(s.push(c), w);
    let q = stretches(s.push(c) + w);
    assert(Seq::<char>::empty() + w =~= w);
    assert(q == p.push(w));
    assert(q.drop_last() =~= p);
    solid_stretches(Seq::empty(), w);
    assert(Seq::<char>::empty() + w =~= w);
    assert(stretches(w).drop_last() =~= Seq::empty());
    let none = stretches(Seq::<char>::empty());
    assert(none.last() == Seq::<char>::empty());
    assert(none.drop_last() =~= Seq::empty());
    reveal_with_fuel(non_empty, 2);
    assert(words_of(w) =~= seq![w]);
}

proof fn stretches_are_some(s: Seq<char>)
    ensures
        stretches(s).len() > 0,
    decreases s.len(),
{
    if s.len() > 0 {
        stretches_are_some(s.drop_last());
    }
}

proof fn solid_stretches(s: Seq<char>, w: Seq<char>)
    requires
        solid(w),
    ensures
        stretches(s).len() > 0,
        stretches(s + w) == stretches(s).drop_last().push(stretches(s).last() + w),
    decreases w.len(),
{
    stretches_are_some(s);
    let p = stretches(s);
    if w.len() == 0 {
        assert(s + w =~= s);
        assert(p.last() + w =~= p.last());
        assert(p =~= p.drop_last().push(p.last()));
    } else {
        let front = w.drop_last();
        assert forall|i: int| 0 <= i < front.len() implies !is_white(#[trigger] front[i]) by {
            assert(front[i] == w[i]);
        }
        solid_stretches(s, front);
        assert((s + w).drop_last() =~= s + front);
        assert((s + w).last() == w[w.len() - 1]);
        let q = p.drop_last().push(p.last() + front);
        assert(q.drop_last() =~= p.drop_last());
        assert((p.last() + front).push(w.last()) =~= p.last() + w);
    }
}

/// A small letter stands for its capital, and everything else for itself.
pub proof fn only_capitals_are_lowered(s: Seq<char>, i: int)
    requires
        0 <= i < s.len(),
    ensures
        lowered(s).len() == s.len(),
        'A' <= s[i] <= 'Z' ==> lowered(s)[i] as int - 'a' as int == s[i] as int - 'A' as int,
        !('A' <= s[i] <= 'Z') ==> lowered(s)[i] == s[i],
{
}

/// Only double quotes are replaced, each by a single one.
pub proof fn only_quotes_are_replaced(s: Seq<char>, i: int)
    requires
        0 <= i < s.len(),
    ensures
        requoted(s).len() == s.len(),
        s[i] == '"' ==> requoted(s)[i] == '\'',
        s[i] != '"' ==> requoted(s)[i] == s[i],
{
}

/// A number is written so that its last digit is its remainder by ten and what stands before
/// is the rest; a negative one is its amount behind a minus.
pub proof fn decimals_are_written_so(n: nat)
    ensures
        n < 10 ==> decimal(n).len() == 1,
        n >= 10 ==> decimal(n).drop_last() == decimal(n / 10),
        decimal(n).len() >= 1,
        decimal(n).last() as int == 48 + n % 10,
        signed_decimal(n as int) == decimal(n),
        n > 0 ==> signed_decimal(-(n as int))[0] == '-' && signed_decimal(-(n as int)).skip(1)
            == decimal(n),
{
    if n >= 10 {
        assert(decimal(n).drop_last() =~= decimal(n / 10));
    }
    if n > 0 {
        assert(signed_decimal(-(n as int)).skip(1) =~= decimal(n));
    }
}

/// What was stripped of a prefix no longer begins with it, and is the end of the text; and
/// the same the other way round for a suffix.
pub proof fn stripping_takes_whole_repetitions(s: Seq<char>, p: Seq<char>)
    requires
        p.len() > 0,
    ensures
        unprefixed(s, p).len() <= s.len(),
        s.skip(s.len() - unprefixed(s, p).len()) == unprefixed(s, p),
        !begins(unprefixed(s, p), p),
        !begins(s, p) ==> unprefixed(s, p) == s,
        unprefixed(p + s, p) == unprefixed(s, p),
        unsuffixed(s, p).len() <= s.len(),
        s.take(unsuffixed(s, p).len() as int) == unsuffixed(s, p),
        !finishes(unsuffixed(s, p), p),
        !finishes(s, p) ==> unsuffixed(s, p) == s,
        unsuffixed(s + p, p) == unsuffixed(s, p),
    decreases s.len(),
{
    assert((p + s).take(p.len() as int) =~= p);
    assert((p + s).skip(p.len() as int) =~= s);
    assert((s + p).skip(s.len() as int) =~= p);
    assert((s + p).take(s.len() as int) =~= s);
    if begins(s, p) {
        let rest = s.skip(p.len() as int);
        stripping_takes_whole_repetitions(rest, p);
        let n = unprefixed(rest, p).len();
        assert(s.skip(s.len() - n) =~= rest.skip(rest.len() - n));
    } else {
        assert(s.skip(0) =~= s);
    }
    if finishes(s, p) {
        let rest = s.take(s.len() - p.len());
        stripping_takes_whole_repetitions(rest, p);
        let n = unsuffixed(rest, p).len() as int;
        assert(s.take(n) =~= rest.take(n));
    } else {
        assert(s.take(s.len() as int) =~= s);
    }
}

/// White space parts a text: its words are those before and then those behind.
pub proof fn white_space_parts_the_words(a: Seq<char>, c: char, b: Seq<char>)
    requires
        is_white(c),
    ensures
        words_of(a.push(c) + b) == words_of(a) + words_of(b),
{
    stretches_of_both(a, c, b);
    non_empty_of_both(stretches(a), stretches(b));
}

proof fn stretches_of_both(a: Seq<char>, c: char, b: Seq<char>)
    requires
        is_white(c),
    ensures
        stretches(a.push(c) + b) == stretches(a) + stretches(b),
    decreases b.len(),
{
    let s = a.push(c) + b;
    if b.len() == 0 {
        assert(s =~= a.push(c));
        assert(s.drop_last() =~= a);
        assert(stretches(a).push(Seq::empty()) =~= stretches(a) + stretches(b));
    } else {
        let front = b.drop_last();
        stretches_of_both(a, c, front);
        stretches_are_some(front);
        assert(s.drop_last() =~= a.push(c) + front);
        assert(s.last() == b.last());
        let (p, q) = (stretches(a), stretches(front));
        assert((p + q).last() == q.last());
        assert((p + q).drop_last() =~= p + q.drop_last());
        if is_white(b.last()) {
            assert((p + q).push(Seq::empty()) =~= p + q.push(Seq::empty()));
        } else {
            let w = q.last().push(b.last());
            assert((p + q.drop_last()).push(w) =~= p + q.drop_last().push(w));
        }
    }
}

proof fn non_empty_of_both(p: Seq<Seq<char>>, q: Seq<Seq<char>>)
    ensures
        non_empty(p + q) == non_empty(p) + non_empty(q),
    decreases q.len(),
{
    if q.len() == 0 {
        assert(p + q =~= p);
        assert(non_empty(p) + non_empty(q) =~= non_empty(p));
    } else {
        non_empty_of_both(p, q.drop_last());
        assert((p + q).drop_last() =~= p + q.drop_last());
        assert((p + q).last() == q.last());
        let (x, y) = (non_empty(p), non_empty(q.drop_last()));
        assert((x + y).push(q.last()) =~= x + y.push(q.last()));
    }
}

/// A text without the separator is one piece, and each separator begins another.
pub proof fn a_separator_begins_a_piece(a: Seq<char>, sep: char, b: Seq<char>)
    requires
        !b.contains(sep),
    ensures
        pieces(b, sep) == seq![b],
        pieces(a.push(sep) + b, sep) == pieces(a, sep).push(b),
    decreases b.len(),
{
    let s = a.push(sep) + b;
    if b.len() == 0 {
        assert(s =~= a.push(sep));
        assert(s.drop_last() =~= a);
        assert(b =~= Seq::empty());
    } else {
        let front = b.drop_last();
        assert(b[b.len() - 1] == b.last());
        assert(!front.contains(sep)) by {
            if front.contains(sep) {
                let k = choose|k: int| 0 <= k < front.len() && front[k] == sep;
                assert(b[k] == sep);
            }
        }
        a_separator_begins_a_piece(a, sep, front);
        assert(s.drop_last() =~= a.push(sep) + front);
        assert(s.last() == b.last());
        assert(front.push(b.last()) =~= b);
        let p = pieces(a, sep);
        assert(p.push(front).drop_last() =~= p);
        assert(seq![front].drop_last().push(b) =~= seq![b]);
    }
}

/// Whether `x` stands somewhere in `s`.
pub open spec fn within(s: Seq<char>, x: Seq<char>) -> bool {
    exists|i: int| stands_at(s, x, i)
}

/// What ends a start of a text stands in the text.
pub proof fn the_end_of_a_start_stands_within(s: Seq<char>, t: Seq<char>, a: Seq<char>, x: Seq<char>)
    requires
        begins(s, t),
        t == a + x,
    ensures
        within(s, x),
{
    let i = a.len() as int;
    assert(s.subrange(i, i + x.len()) =~= x) by {
        assert forall|k: int| i <= k < i + x.len() implies s[k] == x[k - i] by {
            assert(s.take(t.len() as int)[k] == s[k]);
        }
    }
    assert(stands_at(s, x, i));
}

/// A start of a start of a text is one of the text.
pub proof fn a_shorter_start_is_a_start(s: Seq<char>, t: Seq<char>, u: Seq<char>)
    requires
        begins(s, t + u),
    ensures
        begins(s, t),
{
    let n = t.len() as int;
    assert(s.take(n) =~= t) by {
        assert forall|k: int| 0 <= k < n implies s[k] == t[k] by {
            assert(s.take((t + u).len() as int)[k] == s[k]);
        }
    }
}

/// A text begins with itself.
pub proof fn a_text_begins_with_itself(s: Seq<char>)
    ensures
        begins(s, s),
{
    assert(s.take(s.len() as int) =~= s);
}

/// Three parts that follow each other in a start of a text stand together in it.
pub proof fn a_part_stands_within(
    s: Seq<char>,
    a: Seq<char>,
    x: Seq<char>,
    y: Seq<char>,
    z: Seq<char>,
)
    requires
        begins(s, a + x + y + z),
    ensures
        within(s, x + (y + z)),
{
    assert(a + x + y + z =~= a + (x + (y + z)));
    the_end_of_a_start_stands_within(s, a + x + y + z, a, x + (y + z));
}

/// Three parts that a text begins with stand together in it.
pub proof fn a_first_part_stands_within(s: Seq<char>, x: Seq<char>, y: Seq<char>, z: Seq<char>)
    requires
        begins(s, x + y + z),
    ensures
        within(s, x + (y + z)),
{
    let none = Seq::<char>::empty();
    assert(x + y + z =~= none + (x + (y + z)));
    the_end_of_a_start_stands_within(s, x + y + z, none, x + (y + z));
}

/// A truth value is written as the word for it.
pub proof fn truth_is_written_as_its_word()
    ensures
        truth(true) == "true"@,
        truth(false) == "false"@,
{
}

/// Hexadecimal is read pair by pair: as many bytes as there are pairs, each of its own two
/// digits, the upper half first; and not at all where a digit is missing or is none.
pub proof fn every_pair_of_digits_is_read(s: Seq<char>, i: int)
    ensures
        unhex_of(s) is Some ==> 2 * unhex_of(s)->0.len() == s.len(),
        unhex_of(s) is Some && 0 <= i < s.len() / 2 ==> hex_value(s[2 * i]) is Some && hex_value(
            s[2 * i + 1],
        ) is Some && unhex_of(s)->0[i] == 16 * hex_value(s[2 * i])->0 + hex_value(s[2 * i + 1])->0,
        0 <= i < s.len() && hex_value(s[i]) is None ==> unhex_of(s) is None,
{
    if unhex_of(s) is Some {
        if 0 <= i < s.len() / 2 {
            assert(pair_value(s[2 * i], s[2 * i + 1]) is Some);
        }
        if 0 <= i < s.len() {
            let k = i / 2;
            assert(pair_value(s[2 * k], s[2 * k + 1]) is Some);
            assert(i == 2 * k || i == 2 * k + 1);
        }
    }
}

} // verus!
