//! How the clipboard of a system names copied files.
use crate::{text, wire};
use vstd::prelude::*;
use vstd::string::*;
use vstd::utf8::*;

verus! {

// ---------------------------------------------------------------- file URLs
/// What a file URL begins with: `file://`.
pub open spec fn file_scheme() -> Seq<u8> {
    seq![102u8, 105, 108, 101, 58, 47, 47]
}

/// Bytes from their first slash on.
pub open spec fn from_slash(s: Seq<u8>) -> Option<Seq<u8>>
    decreases s.len(),
{
    if s.len() == 0 {
        None
    } else if s[0] == 47 {
        Some(s)
    } else {
        from_slash(s.skip(1))
    }
}

/// One byte put before some bytes, where there are any.
pub open spec fn before(b: u8, rest: Option<Seq<u8>>) -> Option<Seq<u8>> {
    match rest {
        Some(s) => Some(seq![b] + s),
        None => None,
    }
}

/// Bytes with their percent escapes resolved. An escape that is cut off at the end stands
/// for itself; one that is not hexadecimal makes the whole unreadable.
pub open spec fn unescaped(s: Seq<u8>) -> Option<Seq<u8>>
    decreases s.len(),
{
    if s.len() == 0 {
        Some(Seq::empty())
    } else if s[0] == 37 && s.len() > 2 {
        match text::pair_value(s[1] as char, s[2] as char) {
            Some(b) => before(b, unescaped(s.skip(3))),
            None => None,
        }
    } else {
        before(s[0], unescaped(s.skip(1)))
    }
}

/// The path that a file URL names.
pub open spec fn url_path(url: Seq<u8>) -> Option<Seq<char>> {
    if !text::begins(url, file_scheme()) {
        None
    } else {
        match from_slash(url.skip(7)) {
            None => None,
            Some(raw) => match unescaped(raw) {
                Some(bytes) => if valid_utf8(bytes) {
                    Some(decode_utf8(bytes))
                } else {
                    None
                },
                None => None,
            },
        }
    }
}

/// The value of an escape's two digits.
fn escape_value(a: u8, b: u8) -> (r: Option<u8>)
    ensures
        r == text::pair_value(a as char, b as char),
{
    let low = match text::hex_digit_value(b as char) {
        Some(v) => v,
        None => {
            return None;
        },
    };
    match text::hex_digit_value(a as char) {
        Some(high) => Some(16 * high + low),
        None => None,
    }
}

/// Read the path of a file URL. Anything else reads as nothing.
pub fn path_from_file_url(url: &[u8]) -> (r: Option<String>)
    ensures
        match url_path(url@) {
            Some(path) => r is Some && r->0@ == path,
            None => r is None,
        },
{
    let scheme: [u8; 7] = [102, 105, 108, 101, 58, 47, 47];
    let len: usize = url.len();
    if len < 7 {
        return None;
    }
    let mut i: usize = 0;
    while i < 7
        invariant
            i <= 7 <= len,
            len == url@.len(),
            scheme@ == file_scheme(),
            forall|k: int| 0 <= k < i ==> url@[k] == scheme@[k],
        decreases 7 - i,
    {
        if url[i] != scheme[i] {
            proof {
                assert(url@.take(7)[i as int] != file_scheme()[i as int]);
            }
            return None;
        }
        i = i + 1;
    }
    proof {
        assert(url@.take(7) =~= file_scheme());
    }
    let mut at: usize = 7;
    while at < len && url[at] != 47
        invariant
            7 <= at <= len,
            len == url@.len(),
            from_slash(url@.skip(7)) == from_slash(url@.skip(at as int)),
        decreases len - at,
    {
        proof {
            assert(url@.skip(at as int).skip(1) =~= url@.skip(at + 1));
        }
        at = at + 1;
    }
    if at == len {
        return None;
    }
    let ghost raw = url@.skip(at as int);
    let mut bytes: Vec<u8> = Vec::new();
    let mut i: usize = at;
    proof {
        assert(url@.skip(at as int) =~= raw);
        after_nothing(unescaped(raw));
        assert(bytes@ =~= Seq::<u8>::empty());
    }
    while i < len
        invariant
            7 <= at <= i <= len,
            len == url@.len(),
            text::begins(url@, file_scheme()),
            from_slash(url@.skip(7)) == Some(raw),
            unescaped(raw) == behind(bytes@, unescaped(url@.skip(i as int))),
        decreases len - i,
    {
        let ghost here = url@.skip(i as int);
        let ghost so_far = bytes@;
        if url[i] == 37 && len - i > 2 {
            proof {
                assert(here[1] == url@[i + 1] && here[2] == url@[i + 2]);
                assert(here.skip(3) =~= url@.skip(i + 3));
            }
            match escape_value(url[i + 1], url[i + 2]) {
                Some(b) => {
                    bytes.push(b);
                    proof {
                        pushing_is_prepending(so_far, b, unescaped(here.skip(3)));
                    }
                },
                None => {
                    return None;
                },
            }
            i = i + 3;
        } else {
            bytes.push(url[i]);
            proof {
                assert(here.skip(1) =~= url@.skip(i + 1));
                pushing_is_prepending(so_far, here[0], unescaped(here.skip(1)));
            }
            i = i + 1;
        }
    }
    proof {
        assert(url@.skip(i as int) =~= Seq::<u8>::empty());
        assert(bytes@ + Seq::<u8>::empty() =~= bytes@);
    }
    match wire::utf8_text(bytes.as_slice()) {
        Some(path) => {
            proof {
                encode_utf8_decode_utf8(path@);
            }
            Some(path.to_owned())
        },
        None => None,
    }
}

/// Some bytes put before others, where there are any.
pub open spec fn behind(a: Seq<u8>, rest: Option<Seq<u8>>) -> Option<Seq<u8>> {
    match rest {
        Some(s) => Some(a + s),
        None => None,
    }
}

proof fn after_nothing(rest: Option<Seq<u8>>)
    ensures
        behind(Seq::empty(), rest) == rest,
{
    match rest {
        Some(s) => {
            assert(Seq::<u8>::empty() + s =~= s);
        },
        None => {},
    }
}

proof fn pushing_is_prepending(a: Seq<u8>, b: u8, rest: Option<Seq<u8>>)
    ensures
        behind(a.push(b), rest) == behind(a, before(b, rest)),
{
    match rest {
        Some(s) => {
            assert(a.push(b) + s =~= a + (seq![b] + s));
        },
        None => {},
    }
}

/// A byte that stands for itself in a URL: a letter, a digit, or one of `-._~/`.
pub open spec fn unreserved(b: u8) -> bool {
    ||| 48 <= b <= 57
    ||| 65 <= b <= 90
    ||| 97 <= b <= 122
    ||| b == 45
    ||| b == 46
    ||| b == 95
    ||| b == 126
    ||| b == 47
}

/// A capital hexadecimal digit.
pub open spec fn capital_digit(d: int) -> u8 {
    if d < 10 {
        (48 + d) as u8
    } else {
        (55 + d) as u8
    }
}

/// How a byte is written in a URL.
pub open spec fn escape(b: u8) -> Seq<u8> {
    if unreserved(b) {
        seq![b]
    } else {
        seq![37u8, capital_digit(b as int / 16), capital_digit(b as int % 16)]
    }
}

/// How bytes are written in a URL.
pub open spec fn escaped(s: Seq<u8>) -> Seq<u8>
    decreases s.len(),
{
    if s.len() == 0 {
        Seq::empty()
    } else {
        escaped(s.drop_last()) + escape(s.last())
    }
}

fn capital(d: u8) -> (c: u8)
    requires
        d < 16,
    ensures
        c == capital_digit(d as int),
{
    if d < 10 {
        48 + d
    } else {
        55 + d
    }
}

/// The file URL of a path.
pub fn file_url_from_path(path: &str) -> (url: Vec<u8>)
    ensures
        url@ == file_scheme() + escaped(encode_utf8(path@)),
{
    let mut url: Vec<u8> = Vec::new();
    url.push(102);
    url.push(105);
    url.push(108);
    url.push(101);
    url.push(58);
    url.push(47);
    url.push(47);
    let bytes = path.as_bytes();
    let mut i: usize = 0;
    proof {
        assert(url@ =~= file_scheme() + escaped(bytes@.take(0)));
    }
    while i < bytes.len()
        invariant
            i <= bytes@.len(),
            url@ == file_scheme() + escaped(bytes@.take(i as int)),
        decreases bytes.len() - i,
    {
        let b = bytes[i];
        let ghost so_far = escaped(bytes@.take(i as int));
        proof {
            let next = bytes@.take(i + 1);
            assert(next.drop_last() =~= bytes@.take(i as int));
            assert(next.last() == b);
        }
        let plain = (48 <= b && b <= 57) || (65 <= b && b <= 90) || (97 <= b && b <= 122) || b == 45
            || b == 46 || b == 95 || b == 126 || b == 47;
        if plain {
            url.push(b);
        } else {
            url.push(37);
            url.push(capital(b / 16));
            url.push(capital(b % 16));
        }
        proof {
            assert(url@ =~= file_scheme() + (so_far + escape(b)));
        }
        i = i + 1;
    }
    proof {
        assert(bytes@.take(bytes@.len() as int) =~= bytes@);
    }
    url
}

/// An escaped byte resolves to itself, whatever follows.
proof fn an_escape_reads_back(b: u8, rest: Seq<u8>)
    ensures
        unescaped(escape(b) + rest) == before(b, unescaped(rest)),
{
    let all = escape(b) + rest;
    if unreserved(b) {
        assert(all.skip(1) =~= rest);
    } else {
        let h = b as int / 16;
        let l = b as int % 16;
        assert(all.skip(3) =~= rest);
        assert(text::hex_value(capital_digit(h) as char) == Some(h as nat));
        assert(text::hex_value(capital_digit(l) as char) == Some(l as nat));
    }
}

proof fn escaping_reads_back(s: Seq<u8>, rest: Seq<u8>)
    ensures
        unescaped(escaped(s) + rest) == behind(s, unescaped(rest)),
    decreases s.len(),
{
    if s.len() == 0 {
        assert(escaped(s) + rest =~= rest);
        assert(s =~= Seq::empty());
        after_nothing(unescaped(rest));
    } else {
        let front = s.drop_last();
        let b = s.last();
        escaping_reads_back(front, escape(b) + rest);
        an_escape_reads_back(b, rest);
        assert(escaped(s) + rest =~= escaped(front) + (escape(b) + rest));
        pushing_is_prepending(front, b, unescaped(rest));
        assert(front.push(b) =~= s);
    }
}

/// Copied files arrive under their own paths: the URL of an absolute path names that path.
pub proof fn a_file_url_names_its_path(path: Seq<char>)
    requires
        path.len() > 0,
        path[0] == '/',
    ensures
        url_path(file_scheme() + escaped(encode_utf8(path))) == Some(path),
{
    let bytes = encode_utf8(path);
    let raw = escaped(bytes);
    let url = file_scheme() + raw;
    let slash = seq!['/'];
    is_ascii_chars_encode_utf8(slash);
    assert(slash[0] == '/');
    reveal_with_fuel(encode_utf8, 2);
    assert(encode_utf8(slash) == encode_scalar('/' as u32) + encode_utf8(slash.drop_first()));
    assert(slash.drop_first() =~= Seq::<char>::empty());
    assert(encode_utf8(slash) =~= encode_scalar('/' as u32));
    assert(bytes == encode_scalar('/' as u32) + encode_utf8(path.drop_first()));
    assert(url.take(7) =~= file_scheme());
    assert(url.skip(7) =~= raw);
    first_byte_is_kept(bytes);
    assert(from_slash(raw) == Some(raw));
    escaping_reads_back(bytes, Seq::empty());
    assert(raw + Seq::<u8>::empty() =~= raw);
    assert(bytes + Seq::<u8>::empty() =~= bytes);
    encode_utf8_valid_utf8(path);
    encode_utf8_decode_utf8(path);
}

proof fn first_byte_is_kept(s: Seq<u8>)
    requires
        s.len() > 0,
        s[0] == 47,
    ensures
        escaped(s).len() > 0,
        escaped(s)[0] == 47,
    decreases s.len(),
{
    if s.len() == 1 {
        assert(escaped(s.drop_last()) =~= Seq::<u8>::empty());
    } else {
        first_byte_is_kept(s.drop_last());
    }
}

// ---------------------------------------------------------------- drop lists
/// Paths, each ended by a zero.
pub open spec fn ended_paths(paths: Seq<Vec<u16>>) -> Seq<u16>
    decreases paths.len(),
{
    if paths.len() == 0 {
        Seq::empty()
    } else {
        (ended_paths(paths.drop_last()) + paths.last()@).push(0)
    }
}

/// Units as little-endian bytes.
pub open spec fn le16(units: Seq<u16>) -> Seq<u8> {
    Seq::new(
        2 * units.len(),
        |j: int|
            (if j % 2 == 0 {
                units[j / 2] % 256
            } else {
                units[j / 2] / 256
            }) as u8,
    )
}

/// The header of a drop list: where the paths begin, no drop point, and that they are wide.
pub open spec fn drop_header() -> Seq<u8> {
    seq![20u8, 0, 0, 0, 0, 0, 0, 0, 0, 0, 0, 0, 0, 0, 0, 0, 1, 0, 0, 0]
}

/// The block that puts a list of files on the clipboard: the header, every path ended by a
/// zero, and one more zero to end the list.
pub fn drop_list(paths: &Vec<Vec<u16>>) -> (block: Vec<u8>)
    ensures
        block@ == drop_header() + le16(ended_paths(paths@).push(0)),
{
    let mut wide: Vec<u16> = Vec::new();
    let mut i: usize = 0;
    while i < paths.len()
        invariant
            i <= paths@.len(),
            wide@ == ended_paths(paths@.take(i as int)),
        decreases paths.len() - i,
    {
        proof {
            let next = paths@.take(i + 1);
            assert(next.drop_last() =~= paths@.take(i as int));
            assert(next.last() == paths@[i as int]);
        }
        wide.extend_from_slice(paths[i].as_slice());
        wide.push(0);
        proof {
            assert(wide@ =~= ended_paths(paths@.take(i + 1)));
        }
        i = i + 1;
    }
    wide.push(0);
    proof {
        assert(paths@.take(paths@.len() as int) =~= paths@);
    }
    let header: [u8; 20] = [20, 0, 0, 0, 0, 0, 0, 0, 0, 0, 0, 0, 0, 0, 0, 0, 1, 0, 0, 0];
    let mut block: Vec<u8> = Vec::new();
    let mut i: usize = 0;
    while i < 20
        invariant
            i <= 20,
            header@ == drop_header(),
            block@ == header@.take(i as int),
        decreases 20 - i,
    {
        block.push(header[i]);
        proof {
            assert(header@.take(i + 1) =~= header@.take(i as int).push(header@[i as int]));
        }
        i = i + 1;
    }
    let mut i: usize = 0;
    proof {
        assert(header@.take(20) =~= drop_header());
        assert(block@ =~= drop_header() + le16(wide@.take(0)));
    }
    while i < wide.len()
        invariant
            i <= wide@.len(),
            block@ == drop_header() + le16(wide@.take(i as int)),
        decreases wide.len() - i,
    {
        let u = wide[i];
        let ghost so_far = le16(wide@.take(i as int));
        block.push((u % 256) as u8);
        block.push((u / 256) as u8);
        proof {
            let next = wide@.take(i + 1);
            assert(le16(next) =~= so_far.push((u % 256) as u8).push((u / 256) as u8)) by {
                assert forall|j: int| 0 <= j < 2 * (i + 1) implies #[trigger] le16(next)[j]
                    == so_far.push((u % 256) as u8).push((u / 256) as u8)[j] by {
                    if j < 2 * i {
                        assert(wide@.take(i as int)[j / 2] == next[j / 2]);
                    } else {
                        assert(j / 2 == i as int);
                    }
                }
            }
            assert(block@ =~= drop_header() + le16(next));
        }
        i = i + 1;
    }
    proof {
        assert(wide@.take(wide@.len() as int) =~= wide@);
    }
    block
}

/// The header of a drop list is as long as it says, and says that the paths are wide.
pub proof fn a_drop_list_says_where_its_paths_begin()
    ensures
        drop_header().len() == 20,
        drop_header()[0] + 0x100 * drop_header()[1] + 0x1_0000 * drop_header()[2] + 0x100_0000
            * drop_header()[3] == drop_header().len(),
        drop_header()[16] == 1,
        forall|i: int| 4 <= i < 20 && i != 16 ==> #[trigger] drop_header()[i] == 0,
{
}

/// A unit is written with its lower byte first.
pub proof fn the_lower_byte_comes_first(units: Seq<u16>, i: int)
    requires
        0 <= i < units.len(),
    ensures
        le16(units).len() == 2 * units.len(),
        le16(units)[2 * i] + 0x100 * le16(units)[2 * i + 1] == units[i],
{
    assert((2 * i) / 2 == i && (2 * i) % 2 == 0 && (2 * i + 1) / 2 == i && (2 * i + 1) % 2 == 1);
}

/// Every path of a drop list is there, in its place, and is ended by a zero: those before it
/// come before, and those behind it behind.
pub proof fn every_path_is_on_the_list(a: Seq<Vec<u16>>, p: Vec<u16>, b: Seq<Vec<u16>>)
    ensures
        ended_paths(Seq::<Vec<u16>>::empty()).len() == 0,
        ended_paths(a.push(p) + b) == (ended_paths(a) + p@).push(0) + ended_paths(b),
    decreases b.len(),
{
    let s = a.push(p) + b;
    let here = (ended_paths(a) + p@).push(0);
    if b.len() == 0 {
        assert(s.drop_last() =~= a);
        assert(s.last() == p);
        assert(here + ended_paths(b) =~= here);
    } else {
        let front = b.drop_last();
        every_path_is_on_the_list(a, p, front);
        assert(s.drop_last() =~= a.push(p) + front);
        assert(s.last() == b.last());
        assert(ended_paths(s) =~= here + ended_paths(b));
    }
}

/// In a URL letters, digits and a few signs stand for themselves; every other byte is a
/// percent sign and its two capital hexadecimal digits, the upper half first.
pub proof fn bytes_are_escaped_so(b: u8)
    ensures
        48 <= b <= 57 || 65 <= b <= 90 || 97 <= b <= 122 || b == '-' as int || b == '.' as int || b
            == '_' as int || b == '~' as int || b == '/' as int ==> escape(b) == seq![b],
        b < 45 || b >= 127 || 58 <= b <= 64 || 91 <= b <= 94 || b == 96 || 123 <= b <= 125 ==> {
            let e = escape(b);
            &&& e.len() == 3
            &&& e[0] as int == '%' as int
            &&& text::pair_value(e[1] as char, e[2] as char) == Some(b)
            &&& forall|i: int| 0 < i < 3 ==> 48 <= #[trigger] e[i] <= 57 || 65 <= e[i] <= 70
        },
{
}

/// Every byte of a path is escaped on its own, in its place.
pub proof fn bytes_are_escaped_one_by_one(a: Seq<u8>, b: Seq<u8>)
    ensures
        escaped(Seq::<u8>::empty()).len() == 0,
        a.len() == 1 ==> escaped(a) == escape(a[0]),
        escaped(a + b) == escaped(a) + escaped(b),
    decreases b.len(),
{
    if a.len() == 1 {
        assert(escaped(a.drop_last()) =~= Seq::<u8>::empty());
        assert(a.last() == a[0]);
        assert(escaped(a) =~= escape(a[0]));
    }
    if b.len() == 0 {
        assert(a + b =~= a);
        assert(escaped(a) + escaped(b) =~= escaped(a));
    } else {
        bytes_are_escaped_one_by_one(a, b.drop_last());
        assert((a + b).drop_last() =~= a + b.drop_last());
        assert((a + b).last() == b.last());
        assert(escaped(a + b) =~= escaped(a) + escaped(b));
    }
}

/// A file URL begins with the word for it.
pub proof fn a_file_url_begins_so(i: int)
    ensures
        file_scheme().len() == "file://"@.len(),
        0 <= i < file_scheme().len() ==> file_scheme()[i] as int == "file://"@[i] as int,
{
    reveal_strlit("file://");
}

} // verus!
