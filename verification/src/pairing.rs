//! The 6-digit pairing code.
//!
//! Both peers derive a short code from their own connection's TLS exporter. A
//! man-in-the-middle must terminate two sessions, whose exporters differ, so the two
//! machines display different codes and the user sees the mismatch.
use crate::{identity, text, wire};
use vstd::prelude::*;
use vstd::string::*;

verus! {

/// Length of the exporter output the pairing code is derived from.
pub const EXPORTER_LEN: usize = 32;

/// The RFC 5705 exporter label: `seam-pair-v1`. Versioned so a future change to the
/// pairing scheme cannot be downgraded into by an old peer: the codes never match.
pub const EXPORTER_LABEL: [u8; 12] = [115, 101, 97, 109, 45, 112, 97, 105, 114, 45, 118, 49];

/// Number of digits shown to the user.
pub const CODE_DIGITS: u32 = 6;

/// One more than the largest code.
pub const CODE_MODULUS: u32 = 1_000_000;

/// A short authentication string, shown to the user on both machines.
#[derive(Clone, Copy, PartialEq, Eq, Debug, Structural)]
pub struct PairingCode(pub u32);

/// Separates the code's hash from any other: `seam-pairing-code-v1`.
pub open spec fn code_domain() -> Seq<u8> {
    seq![
        115u8, 101, 97, 109, 45, 112, 97, 105, 114, 105, 110, 103, 45, 99, 111, 100, 101, 45, 118,
        49,
    ]
}

/// A number below 1000 as three digits.
pub open spec fn three_digits(n: nat) -> Seq<char> {
    seq![text::digit(n / 100 % 10), text::digit(n / 10 % 10), text::digit(n % 10)]
}

pub(crate) fn push_three(out: &mut String, n: u32)
    requires
        n < 1000,
    ensures
        final(out)@ == old(out)@ + three_digits(n as nat),
{
    let ghost before = out@;
    text::push(out, text::digit_char((n / 100) as u8));
    text::push(out, text::digit_char((n / 10 % 10) as u8));
    text::push(out, text::digit_char((n % 10) as u8));
    proof {
        assert(out@ =~= before + three_digits(n as nat));
    }
}

impl PairingCode {
    /// The code a hash of at least four bytes gives.
    pub open spec fn of_hash(hash: Seq<u8>) -> nat {
        wire::be_value(hash.take(4)) % 1_000_000
    }

    /// The code of a hash: its first four bytes as a number, reduced to six digits.
    #[must_use]
    pub fn from_hash(hash: &[u8; 32]) -> (c: PairingCode)
        ensures
            c.0 == PairingCode::of_hash(hash@),
            c.0 < CODE_MODULUS,
    {
        PairingCode(wire::be_u32(hash.as_slice()) % CODE_MODULUS)
    }

    /// Derive from a connection's exporter output.
    ///
    /// Hashed rather than truncated, so that no raw key-schedule output is displayed.
    #[must_use]
    pub fn from_exporter(exporter: &[u8; 32]) -> (c: PairingCode)
        ensures
            c.0 == PairingCode::of_hash(identity::sha256(code_domain() + exporter@)),
            c.0 < CODE_MODULUS,
    {
        let mut input: Vec<u8> = Vec::new();
        let domain: [u8; 20] = [
            115, 101, 97, 109, 45, 112, 97, 105, 114, 105, 110, 103, 45, 99, 111, 100, 101, 45, 118,
            49,
        ];
        input.extend_from_slice(&domain);
        input.extend_from_slice(exporter);
        proof {
            assert(input@ =~= code_domain() + exporter@);
        }
        let hash = identity::sha256_of(input.as_slice());
        PairingCode::from_hash(&hash)
    }

    #[must_use]
    pub fn value(self) -> (v: u32)
        ensures
            v == self.0,
    {
        self.0
    }

    /// The code as shown: `123 456`.
    pub open spec fn shown(self) -> Seq<char> {
        three_digits(self.0 as nat / 1000) + seq![' '] + three_digits(self.0 as nat % 1000)
    }

    /// Zero-padded, grouped as `123 456`.
    ///
    /// Three-digit chunks are inside working-memory limits, so users compare two groups
    /// rather than six loose digits.
    #[must_use]
    pub fn to_display_string(self) -> (s: String)
        requires
            self.0 < CODE_MODULUS,
        ensures
            s@ == self.shown(),
    {
        let mut out = String::new();
        push_three(&mut out, self.0 / 1000);
        text::push(&mut out, ' ');
        push_three(&mut out, self.0 % 1000);
        proof {
            assert(out@ =~= self.shown());
        }
        out
    }

    /// The code for a log.
    #[must_use]
    pub fn describe(self) -> (s: String)
        requires
            self.0 < CODE_MODULUS,
        ensures
            s@ == "PairingCode("@ + self.shown() + ")"@,
    {
        let shown = self.to_display_string();
        text::plus(text::plus(String::from_str("PairingCode("), shown.as_str()), ")")
    }

    /// Compare against digits the user typed or read out, ignoring spaces and dashes.
    ///
    /// One comparison of the whole number, so it does not stop at the first digit that
    /// differs.
    #[must_use]
    pub fn matches_input(self, input: &str) -> (b: bool)
        ensures
            b == (entered(input@) == Some(self.0 as nat)),
    {
        match parse_code(input) {
            Some(parsed) => {
                let mine: u32 = self.0;
                assert((parsed ^ mine == 0) == (parsed == mine)) by (bit_vector);
                parsed ^ mine == 0
            },
            None => false,
        }
    }
}

/// A separator people naturally type between digits.
pub open spec fn is_separator(c: char) -> bool {
    c == ' ' || c == '-' || c == '_' || c == '\t'
}

/// The number the digits of `s` make, most significant first, separators left out; `None`
/// at the first character that is neither.
pub open spec fn digits_value(s: Seq<char>) -> Option<(nat, nat)>
    decreases s.len(),
{
    if s.len() == 0 {
        Some((0, 0))
    } else {
        match digits_value(s.drop_last()) {
            None => None,
            Some((value, count)) => {
                let c = s.last();
                if is_separator(c) {
                    Some((value, count))
                } else if '0' <= c <= '9' {
                    Some(((value * 10 + (c as nat - 48)) as nat, count + 1))
                } else {
                    None
                }
            },
        }
    }
}

/// The code a user entered: exactly six digits, with separators anywhere.
pub open spec fn entered(s: Seq<char>) -> Option<nat> {
    match digits_value(s) {
        Some((value, count)) => if count == 6 {
            Some(value)
        } else {
            None
        },
        None => None,
    }
}

/// Parse user-entered digits, tolerating the separators people naturally type.
pub fn parse_code(input: &str) -> (r: Option<u32>)
    ensures
        match entered(input@) {
            Some(v) => r is Some && r->0 == v,
            None => r is None,
        },
{
    let chars = text::chars_of(input);
    let mut value: u32 = 0;
    let mut digits: u32 = 0;
    let mut i: usize = 0;
    while i < chars.len()
        invariant
            i <= chars@.len(),
            chars@ == input@,
            digits <= 6,
            value < pow10(digits as nat),
            digits_value(chars@.take(i as int)) == Some((value as nat, digits as nat)),
        decreases chars.len() - i,
    {
        let c = chars[i];
        proof {
            assert(chars@.take(i + 1).drop_last() =~= chars@.take(i as int));
            reveal_with_fuel(pow10, 8);
        }
        if c == ' ' || c == '-' || c == '_' || c == '\t' {
        } else if '0' <= c && c <= '9' {
            if digits >= 6 {
                proof {
                    more_digits_never_fit(chars@, (i + 1) as int);
                }
                return None;
            }
            digits = digits + 1;
            value = value * 10 + (c as u32 - 48);
        } else {
            proof {
                bad_stays_bad(chars@, (i + 1) as int);
            }
            return None;
        }
        i = i + 1;
    }
    proof {
        assert(chars@.take(chars@.len() as int) =~= chars@);
    }
    if digits == 6 {
        Some(value)
    } else {
        None
    }
}

spec fn pow10(n: nat) -> nat
    decreases n,
{
    if n == 0 {
        1
    } else {
        10 * pow10((n - 1) as nat)
    }
}

/// Once a prefix is rejected, so is the whole.
proof fn bad_stays_bad(s: Seq<char>, n: int)
    requires
        0 <= n <= s.len(),
        digits_value(s.take(n)) is None,
    ensures
        digits_value(s) is None,
    decreases s.len() - n,
{
    if n < s.len() {
        assert(s.take(n + 1).drop_last() =~= s.take(n));
        bad_stays_bad(s, n + 1);
    } else {
        assert(s.take(n) =~= s);
    }
}

/// Once a prefix holds more than six digits, the whole is no code.
proof fn more_digits_never_fit(s: Seq<char>, n: int)
    requires
        0 <= n <= s.len(),
        digits_value(s.take(n)) matches Some((_, count)) && count > 6,
    ensures
        entered(s) is None,
    decreases s.len() - n,
{
    if n < s.len() {
        assert(s.take(n + 1).drop_last() =~= s.take(n));
        if digits_value(s.take(n + 1)) is None {
            bad_stays_bad(s, n + 1);
        } else {
            more_digits_never_fit(s, n + 1);
        }
    } else {
        assert(s.take(n) =~= s);
    }
}

// ---------------------------------------------------------------- laws
/// What is shown on one machine is accepted on the other: a code matches its own display,
/// leading zeros and all.
pub proof fn a_shown_code_matches_itself(c: PairingCode)
    requires
        c.0 < CODE_MODULUS,
    ensures
        entered(c.shown()) == Some(c.0 as nat),
        c.shown().len() == 7,
        c.shown()[3] == ' ',
{
    let (hi, lo) = (c.0 as nat / 1000, c.0 as nat % 1000);
    let s0 = Seq::<char>::empty();
    three_more(s0, hi, 0, 0);
    let s1 = s0 + three_digits(hi);
    let s2 = s1.push(' ');
    assert(s2.drop_last() =~= s1);
    assert(digits_value(s2) == digits_value(s1));
    three_more(s2, lo, hi, 3);
    assert(s2 + three_digits(lo) =~= c.shown());
}

/// Three more digits behind what was read.
proof fn three_more(s: Seq<char>, n: nat, value: nat, count: nat)
    requires
        n < 1000,
        digits_value(s) == Some((value, count)),
    ensures
        digits_value(s + three_digits(n)) == Some((value * 1000 + n, count + 3)),
{
    let (a, b, c) = (n / 100 % 10, n / 10 % 10, n % 10);
    one_more(s, a, value, count);
    let s1 = s.push(text::digit(a));
    one_more(s1, b, value * 10 + a, count + 1);
    let s2 = s1.push(text::digit(b));
    one_more(s2, c, (value * 10 + a) * 10 + b, count + 2);
    assert(s + three_digits(n) =~= s2.push(text::digit(c)));
    assert(n == a * 100 + b * 10 + c);
}

proof fn one_more(s: Seq<char>, d: nat, value: nat, count: nat)
    requires
        d < 10,
        digits_value(s) == Some((value, count)),
    ensures
        digits_value(s.push(text::digit(d))) == Some((value * 10 + d, count + 1)),
{
    assert(s.push(text::digit(d)).drop_last() =~= s);
}

/// Separators never change what was entered.
pub proof fn separators_are_ignored(a: Seq<char>, sep: char, b: Seq<char>)
    requires
        is_separator(sep),
    ensures
        entered(a + seq![sep] + b) == entered(a + b),
    decreases b.len(),
{
    separators_leave_digits(a, sep, b);
}

proof fn separators_leave_digits(a: Seq<char>, sep: char, b: Seq<char>)
    requires
        is_separator(sep),
    ensures
        digits_value(a + seq![sep] + b) == digits_value(a + b),
    decreases b.len(),
{
    let with = a + seq![sep] + b;
    if b.len() == 0 {
        assert(with.drop_last() =~= a);
        assert(a + b =~= a);
    } else {
        separators_leave_digits(a, sep, b.drop_last());
        assert(with.drop_last() =~= a + seq![sep] + b.drop_last());
        assert((a + b).drop_last() =~= a + b.drop_last());
    }
}

/// A digit as a number.
pub open spec fn digit_at(s: Seq<char>, i: int) -> int {
    s[i] as int - '0' as int
}

/// What is shown of a code is its six decimal digits, the one that counts most first, with a
/// space in the middle.
pub proof fn a_code_is_shown_digit_by_digit(c: PairingCode)
    requires
        c.0 < 1_000_000,
    ensures
        c.shown().len() == 7,
        c.shown()[3] == ' ',
        forall|i: int| 0 <= i < 7 && i != 3 ==> 0 <= #[trigger] digit_at(c.shown(), i) < 10,
        c.0 == digit_at(c.shown(), 0) * 100_000 + digit_at(c.shown(), 1) * 10_000 + digit_at(
            c.shown(),
            2,
        ) * 1_000 + digit_at(c.shown(), 4) * 100 + digit_at(c.shown(), 5) * 10 + digit_at(
            c.shown(),
            6,
        ),
{
    let (hi, lo) = (c.0 as nat / 1000, c.0 as nat % 1000);
    three_digits_spell(hi);
    three_digits_spell(lo);
    let (x, y, s) = (three_digits(hi), three_digits(lo), c.shown());
    assert(s[0] == x[0] && s[1] == x[1] && s[2] == x[2]);
    assert(s[4] == y[0] && s[5] == y[1] && s[6] == y[2]);
}

proof fn three_digits_spell(n: nat)
    requires
        n < 1000,
    ensures
        ({
            let s = three_digits(n);
            &&& s.len() == 3
            &&& forall|i: int| 0 <= i < 3 ==> 0 <= #[trigger] digit_at(s, i) < 10
            &&& n == digit_at(s, 0) * 100 + digit_at(s, 1) * 10 + digit_at(s, 2)
        }),
{
    let s = three_digits(n);
    let (a, b, c) = (n / 100 % 10, n / 10 % 10, n % 10);
    assert(digit_at(s, 0) == a && digit_at(s, 1) == b && digit_at(s, 2) == c);
    assert(n == a * 100 + b * 10 + c);
}

/// A code is what the first four bytes of a hash spell, the first counting most, without the
/// millions.
pub proof fn a_code_comes_from_the_first_four_bytes(hash: Seq<u8>)
    requires
        hash.len() >= 4,
    ensures
        PairingCode::of_hash(hash) < 1_000_000,
        PairingCode::of_hash(hash) == (hash[0] * 0x100_0000 + hash[1] * 0x1_0000 + hash[2] * 0x100
            + hash[3]) % 1_000_000,
{
    let s = hash.take(4);
    wire::what_is_read_is_spelled_so(s);
    assert(wire::four_at(s, 0) == (s[0] * 0x100 + s[1]) * 0x1_0000 + (s[2] * 0x100 + s[3]));
}

/// Six digits are the number they spell; fewer, more, or a character that is neither a digit
/// nor a separator are no code.
pub proof fn six_digits_are_the_number_they_spell(s: Seq<char>)
    ensures
        s.len() == 6 && (forall|i: int| 0 <= i < 6 ==> '0' <= #[trigger] s[i] <= '9') ==> entered(s)
            == Some(
            (digit_at(s, 0) * 100_000 + digit_at(s, 1) * 10_000 + digit_at(s, 2) * 1_000 + digit_at(
                s,
                3,
            ) * 100 + digit_at(s, 4) * 10 + digit_at(s, 5)) as nat,
        ),
        s.len() < 6 ==> entered(s) is None,
        s.len() > 6 && (forall|i: int| 0 <= i < s.len() ==> '0' <= #[trigger] s[i] <= '9')
            ==> entered(s) is None,
        (exists|i: int|
            0 <= i < s.len() && !('0' <= #[trigger] s[i] <= '9') && s[i] != ' ' && s[i] != '-'
                && s[i] != '_' && s[i] != '\t') ==> entered(s) is None,
{
    digits_are_counted(s);
    if exists|i: int|
        0 <= i < s.len() && !('0' <= #[trigger] s[i] <= '9') && s[i] != ' ' && s[i] != '-' && s[i]
            != '_' && s[i] != '\t' {
        let i = choose|i: int|
            0 <= i < s.len() && !('0' <= #[trigger] s[i] <= '9') && s[i] != ' ' && s[i] != '-'
                && s[i] != '_' && s[i] != '\t';
        assert(s.take(i + 1).last() == s[i]);
        bad_stays_bad(s, i + 1);
    }
    if s.len() == 6 && (forall|i: int| 0 <= i < 6 ==> '0' <= #[trigger] s[i] <= '9') {
        let s5 = s.drop_last();
        let s4 = s5.drop_last();
        let s3 = s4.drop_last();
        let s2 = s3.drop_last();
        let s1 = s2.drop_last();
        assert(s1.drop_last().len() == 0);
        assert(s1.last() == s[0]);
        assert(s2.last() == s[1]);
        assert(s3.last() == s[2]);
        assert(s4.last() == s[3]);
        assert(s5.last() == s[4]);
        assert(s.last() == s[5]);
        let d = |i: int| digit_at(s, i) as nat;
        assert(digits_value(s1.drop_last()) == Some((0nat, 0nat)));
        assert(digits_value(s1) == Some((d(0), 1nat)));
        assert(digits_value(s2) == Some((d(0) * 10 + d(1), 2nat)));
        assert(digits_value(s3) == Some(((d(0) * 10 + d(1)) * 10 + d(2), 3nat)));
        assert(digits_value(s4) == Some((((d(0) * 10 + d(1)) * 10 + d(2)) * 10 + d(3), 4nat)));
        assert(digits_value(s5) == Some(
            ((((d(0) * 10 + d(1)) * 10 + d(2)) * 10 + d(3)) * 10 + d(4), 5nat),
        ));
    }
}

proof fn digits_are_counted(s: Seq<char>)
    ensures
        digits_value(s) matches Some((_, count)) ==> count <= s.len() && ((forall|i: int|
            0 <= i < s.len() ==> '0' <= #[trigger] s[i] <= '9') ==> count == s.len()),
    decreases s.len(),
{
    if s.len() > 0 {
        let front = s.drop_last();
        digits_are_counted(front);
        if forall|i: int| 0 <= i < s.len() ==> '0' <= #[trigger] s[i] <= '9' {
            assert forall|i: int| 0 <= i < front.len() implies '0' <= #[trigger] front[i] <= '9' by {
                assert(front[i] == s[i]);
            }
            assert('0' <= s[s.len() - 1] <= '9');
        }
    }
}

/// The words that keep the code's hash apart, and the one that the connection's key material
/// is asked for by, are the ones they are documented by.
pub proof fn codes_are_kept_apart_by_these_words(i: int)
    ensures
        code_domain().len() == "seam-pairing-code-v1"@.len(),
        0 <= i < code_domain().len() ==> code_domain()[i] as int == "seam-pairing-code-v1"@[i]
            as int,
        EXPORTER_LABEL@.len() == "seam-pair-v1"@.len(),
        0 <= i < EXPORTER_LABEL@.len() ==> EXPORTER_LABEL@[i] as int == "seam-pair-v1"@[i] as int,
{
    reveal_strlit("seam-pairing-code-v1");
    reveal_strlit("seam-pair-v1");
}

} // verus!
