//! Checking a licence.
//!
//! A licence is a short token its owner signs with a private key. A build carries only the
//! matching public key, so it can check a licence and cannot make one. Everything needed
//! to check a licence is in the licence, so a machine that has never been online can.
//!
//! The form is `seam-<payload>-<signature>`, both in hexadecimal, where the payload is
//! `name|expiry`, the expiry a day number counted from the Unix epoch, or 0 for never.
use crate::{text, wire};
use vstd::prelude::*;
use vstd::string::*;
use vstd::utf8::*;

verus! {

/// Whether an Ed25519 signature of a message is one of this public key.
pub uninterp spec fn signed_by(key: Seq<u8>, message: Seq<u8>, signature: Seq<u8>) -> bool;

/// `ring::signature::UnparsedPublicKey::verify` under `ED25519`. The verdict depends on the
/// three arguments alone and is named [`signed_by`]. Only a key of 32 bytes and a signature
/// of 64 can ever pass.
#[verifier::external_body]
fn check_signature(key: &[u8], message: &[u8], signature: &[u8]) -> (valid: bool)
    ensures
        valid == signed_by(key@, message@, signature@),
        valid ==> key@.len() == 32 && signature@.len() == 64,
{
    ring::signature::UnparsedPublicKey::new(&ring::signature::ED25519, key)
        .verify(message, signature)
        .is_ok()
}

/// A licence that was checked.
#[derive(Debug, Clone, PartialEq, Eq)]
pub struct Licence {
    /// Who it was issued to.
    pub name: String,
    /// The day after which it stops working; 0 means never.
    pub expires_day: u64,
}

/// A licence as a value.
pub struct LicenceModel {
    pub name: Seq<char>,
    pub expires_day: u64,
}

impl View for Licence {
    type V = LicenceModel;

    open spec fn view(&self) -> LicenceModel {
        LicenceModel { name: self.name@, expires_day: self.expires_day }
    }
}

/// Why a licence is refused.
#[derive(Clone, Copy, PartialEq, Eq, Structural, Debug)]
pub enum Refusal {
    /// This build has no key to check with.
    NoKey,
    /// The text is not one of a licence.
    NotALicence,
    /// There is no signature.
    Incomplete,
    /// Something in it cannot be read.
    Damaged,
    /// This build's own key cannot be read.
    BadKey,
    /// The signature is not the owner's.
    Forged,
    /// The expiry is no day.
    BadDate,
    /// Its day has passed.
    Expired,
}

impl Refusal {
    /// What a person is told.
    pub open spec fn message(self) -> Seq<char> {
        match self {
            Refusal::NoKey =>
                "this build carries no licence key, so it cannot verify anything — it was not produced by the owner's release process"@,
            Refusal::NotALicence => "not a seam licence"@,
            Refusal::Incomplete => "this licence is incomplete"@,
            Refusal::Damaged => "this licence is damaged"@,
            Refusal::BadKey => "this build's licence key is damaged"@,
            Refusal::Forged => "this licence was not issued for seam"@,
            Refusal::BadDate => "this licence has an unreadable date"@,
            Refusal::Expired => "this licence has expired"@,
        }
    }

    /// What a person is told.
    pub fn describe(self) -> (s: &'static str)
        ensures
            s@ == self.message(),
    {
        match self {
            Refusal::NoKey =>
                "this build carries no licence key, so it cannot verify anything — it was not produced by the owner's release process",
            Refusal::NotALicence => "not a seam licence",
            Refusal::Incomplete => "this licence is incomplete",
            Refusal::Damaged => "this licence is damaged",
            Refusal::BadKey => "this build's licence key is damaged",
            Refusal::Forged => "this licence was not issued for seam",
            Refusal::BadDate => "this licence has an unreadable date",
            Refusal::Expired => "this licence has expired",
        }
    }
}

// ---------------------------------------------------------------- dates
/// Whether a licence still works on a day. Where the day is not known it does.
pub open spec fn current(expires_day: u64, today: Option<u64>) -> bool {
    expires_day == 0 || (today matches Some(day) ==> day <= expires_day)
}

/// The day, counted from the Unix epoch, that so many seconds after it fall in.
pub fn day_number(seconds: u64) -> (day: u64)
    ensures
        day == seconds / 86_400,
{
    seconds / 86_400
}

impl Licence {
    /// Is it still valid today?
    pub fn is_current(&self, today: Option<u64>) -> (b: bool)
        ensures
            b == current(self.expires_day, today),
    {
        if self.expires_day == 0 {
            return true;
        }
        match today {
            Some(day) => day <= self.expires_day,
            None => true,
        }
    }
}

/// A licence without an expiry works on every day, and one with works through its last day
/// and on no later one.
pub proof fn a_licence_works_through_its_last_day(expires_day: u64, today: u64)
    ensures
        current(0, Some(today)),
        expires_day != 0 ==> (current(expires_day, Some(today)) <==> today <= expires_day),
{
}

// ---------------------------------------------------------------- reading
/// Bytes written as pairs of hexadecimal digits.
pub open spec fn from_hex(s: Seq<char>) -> Option<Seq<u8>>
    decreases s.len(),
{
    if s.len() == 0 {
        Some(Seq::empty())
    } else if s.len() == 1 {
        None
    } else {
        let n = s.len() as int;
        match (from_hex(s.take(n - 2)), text::hex_value(s[n - 2]), text::hex_value(s[n - 1])) {
            (Some(bytes), Some(a), Some(b)) => Some(bytes.push((16 * a + b) as u8)),
            _ => None,
        }
    }
}

/// Once the start of some hexadecimal is unreadable, the whole is.
proof fn unreadable_stays_unreadable(s: Seq<char>, n: int)
    requires
        0 <= n <= s.len(),
        s.len() % 2 == 0,
        n % 2 == 0,
        from_hex(s.take(n)) is None,
    ensures
        from_hex(s) is None,
    decreases s.len() - n,
{
    if n < s.len() {
        let next = s.take(n + 2);
        assert(next.take(next.len() - 2) =~= s.take(n));
        unreadable_stays_unreadable(s, n + 2);
    } else {
        assert(s.take(n) =~= s);
    }
}

/// Hexadecimal of odd length reads as nothing.
proof fn odd_is_unreadable(s: Seq<char>)
    requires
        s.len() % 2 == 1,
    ensures
        from_hex(s) is None,
    decreases s.len(),
{
    if s.len() > 1 {
        odd_is_unreadable(s.take(s.len() - 2));
    }
}

/// Read bytes written as pairs of hexadecimal digits.
fn read_hex(s: &[char]) -> (r: Option<Vec<u8>>)
    ensures
        match from_hex(s@) {
            Some(bytes) => r is Some && r->0@ == bytes,
            None => r is None,
        },
{
    let len: usize = s.len();
    if len % 2 == 1 {
        proof {
            odd_is_unreadable(s@);
        }
        return None;
    }
    let mut out: Vec<u8> = Vec::new();
    let mut i: usize = 0;
    proof {
        assert(from_hex(s@.take(0)) == Some(Seq::<u8>::empty()));
        assert(out@ =~= Seq::<u8>::empty());
    }
    while i < len
        invariant
            i <= len,
            len == s@.len(),
            len % 2 == 0,
            i % 2 == 0,
            from_hex(s@.take(i as int)) == Some(out@),
        decreases len - i,
    {
        proof {
            let next = s@.take(i + 2);
            assert(next.take(next.len() - 2) =~= s@.take(i as int));
            assert(next[i as int] == s@[i as int]);
            assert(next[i + 1] == s@[i + 1]);
        }
        match (text::hex_digit_value(s[i]), text::hex_digit_value(s[i + 1])) {
            (Some(a), Some(b)) => {
                out.push(16 * a + b);
            },
            _ => {
                proof {
                    unreadable_stays_unreadable(s@, i + 2);
                }
                return None;
            },
        }
        i = i + 2;
    }
    proof {
        assert(s@.take(len as int) =~= s@);
    }
    Some(out)
}

/// What a signed payload says.
pub open spec fn payload_says(payload: Seq<u8>) -> Result<LicenceModel, Refusal> {
    if !valid_utf8(payload) {
        Err(Refusal::Damaged)
    } else {
        match text::cut(decode_utf8(payload), "|"@) {
            None => Err(Refusal::Damaged),
            Some((name, expiry)) => match text::number(expiry) {
                Some(day) => if day <= u64::MAX {
                    Ok(LicenceModel { name, expires_day: day as u64 })
                } else {
                    Err(Refusal::BadDate)
                },
                None => Err(Refusal::BadDate),
            },
        }
    }
}

/// What a licence says, if the key signed it.
pub open spec fn licence_says(key_hex: Seq<char>, s: Seq<char>) -> Result<LicenceModel, Refusal> {
    let line = text::trimmed(s);
    if key_hex.len() == 0 {
        Err(Refusal::NoKey)
    } else if !text::begins(line, "seam-"@) {
        Err(Refusal::NotALicence)
    } else {
        match text::cut_last(line.skip("seam-"@.len() as int), '-') {
            None => Err(Refusal::Incomplete),
            Some((payload_hex, signature_hex)) => match (
                from_hex(payload_hex),
                from_hex(signature_hex),
            ) {
                (Some(payload), Some(signature)) => match from_hex(key_hex) {
                    None => Err(Refusal::BadKey),
                    Some(key) => if signed_by(key, payload, signature) {
                        payload_says(payload)
                    } else {
                        Err(Refusal::Forged)
                    },
                },
                _ => Err(Refusal::Damaged),
            },
        }
    }
}

/// Read a payload whose signature was checked.
pub fn read_payload(payload: &[u8]) -> (r: Result<Licence, Refusal>)
    ensures
        match payload_says(payload@) {
            Ok(m) => r is Ok && r->Ok_0@ == m,
            Err(e) => r == Err::<Licence, Refusal>(e),
        },
{
    let whole = match wire::utf8_text(payload) {
        Some(s) => s,
        None => {
            return Err(Refusal::Damaged);
        },
    };
    proof {
        encode_utf8_decode_utf8(whole@);
    }
    let chars = text::chars_of(whole);
    match text::cut_once(chars.as_slice(), "|") {
        None => Err(Refusal::Damaged),
        Some((name, expiry)) => match text::parse_number(expiry.as_slice(), u64::MAX) {
            Some(day) => Ok(
                Licence { name: text::string_of(name.as_slice()), expires_day: day },
            ),
            None => Err(Refusal::BadDate),
        },
    }
}

/// Check a licence against this build's key: it comes back only if the signature holds.
///
/// A build without a key refuses every licence, which is the safe direction to fail.
pub fn verify(key_hex: &str, licence: &str) -> (r: Result<Licence, Refusal>)
    ensures
        match licence_says(key_hex@, licence@) {
            Ok(m) => r is Ok && r->Ok_0@ == m,
            Err(e) => r == Err::<Licence, Refusal>(e),
        },
{
    if key_hex.is_empty() {
        return Err(Refusal::NoKey);
    }
    let chars = text::chars_of(licence);
    let line = text::trim(chars.as_slice());
    proof {
        assert(key_hex@.len() != 0);
    }
    if !text::starts(line.as_slice(), "seam-") {
        return Err(Refusal::NotALicence);
    }
    let skip: usize = text::chars_of("seam-").len();
    let body = text::copy_range(line.as_slice(), skip, line.len());
    proof {
        assert(body@ =~= line@.skip(skip as int));
    }
    let (payload_hex, signature_hex) = match text::cut_at_last(body.as_slice(), '-') {
        None => {
            return Err(Refusal::Incomplete);
        },
        Some(parts) => parts,
    };
    let payload = match read_hex(payload_hex.as_slice()) {
        Some(bytes) => bytes,
        None => {
            return Err(Refusal::Damaged);
        },
    };
    let signature = match read_hex(signature_hex.as_slice()) {
        Some(bytes) => bytes,
        None => {
            return Err(Refusal::Damaged);
        },
    };
    let key_chars = text::chars_of(key_hex);
    let key = match read_hex(key_chars.as_slice()) {
        Some(bytes) => bytes,
        None => {
            return Err(Refusal::BadKey);
        },
    };
    if !check_signature(key.as_slice(), payload.as_slice(), signature.as_slice()) {
        return Err(Refusal::Forged);
    }
    read_payload(payload.as_slice())
}

/// Whether a stored licence lets this machine run: it is the owner's, and its day has not
/// passed.
pub fn stored(key_hex: &str, file: &str, today: Option<u64>) -> (r: Option<Licence>)
    ensures
        match licence_says(key_hex@, file@) {
            Ok(m) => if current(m.expires_day, today) {
                r is Some && r->0@ == m
            } else {
                r is None
            },
            Err(_) => r is None,
        },
{
    match verify(key_hex, file) {
        Ok(licence) => if licence.is_current(today) {
            Some(licence)
        } else {
            None
        },
        Err(_) => None,
    }
}

/// What the first of some stored licences that lets this machine run says.
pub open spec fn first_current(
    key_hex: Seq<char>,
    files: Seq<String>,
    today: Option<u64>,
) -> Option<LicenceModel>
    decreases files.len(),
{
    if files.len() == 0 {
        None
    } else {
        match first_current(key_hex, files.drop_last(), today) {
            Some(m) => Some(m),
            None => match licence_says(key_hex, files.last()@) {
                Ok(m) => if current(m.expires_day, today) {
                    Some(m)
                } else {
                    None
                },
                Err(_) => None,
            },
        }
    }
}

proof fn first_current_stays(key_hex: Seq<char>, files: Seq<String>, today: Option<u64>, n: int)
    requires
        0 <= n <= files.len(),
        first_current(key_hex, files.take(n), today) is Some,
    ensures
        first_current(key_hex, files, today) == first_current(key_hex, files.take(n), today),
    decreases files.len() - n,
{
    if n < files.len() {
        assert(files.take(n + 1).drop_last() =~= files.take(n));
        first_current_stays(key_hex, files, today, n + 1);
    } else {
        assert(files.take(n) =~= files);
    }
}

/// The first of the stored licences that lets this machine run: a licence may be kept in
/// more than one place.
pub fn first_stored(key_hex: &str, files: &Vec<String>, today: Option<u64>) -> (r: Option<Licence>)
    ensures
        match first_current(key_hex@, files@, today) {
            Some(m) => r is Some && r->0@ == m,
            None => r is None,
        },
{
    let mut i: usize = 0;
    while i < files.len()
        invariant
            i <= files@.len(),
            first_current(key_hex@, files@.take(i as int), today) is None,
        decreases files.len() - i,
    {
        proof {
            let next = files@.take(i + 1);
            assert(next.drop_last() =~= files@.take(i as int));
            assert(next.last() == files@[i as int]);
        }
        if let Some(licence) = stored(key_hex, files[i].as_str(), today) {
            proof {
                first_current_stays(key_hex@, files@, today, i + 1);
            }
            return Some(licence);
        }
        i = i + 1;
    }
    proof {
        assert(files@.take(files@.len() as int) =~= files@);
    }
    None
}

/// Check a licence as it is entered, so that an invalid one is refused now and not at the
/// next start. Says what to store.
pub fn activate(key_hex: &str, licence: &str, today: Option<u64>) -> (r: Result<
    (Licence, String),
    Refusal,
>)
    ensures
        match licence_says(key_hex@, licence@) {
            Ok(m) => if current(m.expires_day, today) {
                r matches Ok((l, keep)) && l@ == m && keep@ == text::trimmed(licence@)
            } else {
                r == Err::<(Licence, String), Refusal>(Refusal::Expired)
            },
            Err(e) => r == Err::<(Licence, String), Refusal>(e),
        },
{
    let found = match verify(key_hex, licence) {
        Ok(found) => found,
        Err(e) => {
            return Err(e);
        },
    };
    if !found.is_current(today) {
        return Err(Refusal::Expired);
    }
    let chars = text::chars_of(licence);
    let line = text::trim(chars.as_slice());
    Ok((found, text::string_of(line.as_slice())))
}

/// A build without a key refuses everything.
pub proof fn without_a_key_nothing_passes(s: Seq<char>)
    ensures
        licence_says(Seq::empty(), s) == Err::<LicenceModel, Refusal>(Refusal::NoKey),
{
}

/// Nothing passes that the owner's key did not sign: a licence says something only where
/// the signature in it is the key's own over the payload in it, and it says what that
/// payload says.
pub proof fn nothing_unsigned_passes(key_hex: Seq<char>, s: Seq<char>)
    requires
        licence_says(key_hex, s) is Ok,
    ensures
        exists|
            key: Seq<u8>,
            payload: Seq<u8>,
            signature: Seq<u8>,
            payload_hex: Seq<char>,
            signature_hex: Seq<char>,
        |
            {
                &&& text::begins(text::trimmed(s), "seam-"@)
                &&& text::cut_last(text::trimmed(s).skip("seam-"@.len() as int), '-') == Some(
                    (payload_hex, signature_hex),
                )
                &&& #[trigger] from_hex(payload_hex) == Some(payload)
                &&& #[trigger] from_hex(signature_hex) == Some(signature)
                &&& from_hex(key_hex) == Some(key)
                &&& #[trigger] signed_by(key, payload, signature)
                &&& licence_says(key_hex, s) == payload_says(payload)
            },
{
    let line = text::trimmed(s);
    let (payload_hex, signature_hex) = text::cut_last(line.skip("seam-"@.len() as int), '-')->0;
    let payload = from_hex(payload_hex)->0;
    let signature = from_hex(signature_hex)->0;
    let key = from_hex(key_hex)->0;
    assert(from_hex(payload_hex) == Some(payload) && from_hex(signature_hex) == Some(signature));
    assert(signed_by(key, payload, signature));
}

/// The licence as the page shows it: whom it is for, and when it stops.
pub open spec fn licence_shown(l: Option<LicenceModel>) -> Seq<char> {
    match l {
        None => "null"@,
        Some(m) => "{\"name\":\""@ + text::requoted(m.name) + "\",\"expires\":"@ + text::decimal(
            m.expires_day as nat,
        ) + "}"@,
    }
}

/// The licence as the page shows it.
pub fn licence_json(l: &Option<Licence>) -> (s: String)
    ensures
        s@ == licence_shown(
            match *l {
                Some(x) => Some(x@),
                None => None,
            },
        ),
{
    match l {
        None => String::from_str("null"),
        Some(l) => {
            let mut s = String::from_str("{\"name\":\"");
            s.append(text::requote(l.name.as_str()).as_str());
            s.append("\",\"expires\":");
            s.append(text::decimal_text(l.expires_day).as_str());
            s.append("}");
            s
        },
    }
}

/// A signed payload names the holder and the last day: what stands before the first bar is
/// the name, and the number behind it the day.
pub proof fn a_payload_names_holder_and_day(name: Seq<char>, day: u64)
    requires
        !name.contains('|'),
    ensures
        payload_says(encode_utf8(name.push('|') + text::decimal(day as nat))) == Ok::<
            LicenceModel,
            Refusal,
        >(LicenceModel { name, expires_day: day }),
{
    let whole = name.push('|') + text::decimal(day as nat);
    encode_utf8_valid_utf8(whole);
    encode_utf8_decode_utf8(whole);
    reveal_strlit("|");
    let bar = "|"@;
    text::what_is_found_is_the_first(whole, bar, 0);
    let n = name.len() as int;
    assert(whole.subrange(n, n + bar.len()) =~= bar);
    let i = text::found(whole, bar, 0)->0;
    assert(i <= n);
    if i < n {
        assert(whole.subrange(i, i + bar.len())[0] == whole[i]);
        assert(name[i] == '|');
    }
    assert(whole.take(n) =~= name);
    assert(whole.skip(n + 1) =~= text::decimal(day as nat));
    text::number_of_decimal(day as nat);
}

/// Hexadecimal is read two digits a byte, the upper half first, and not at all where a digit
/// is missing or is none.
pub proof fn hexadecimal_is_read_by_pairs(s: Seq<char>, i: int)
    ensures
        from_hex(s) is Some ==> from_hex(s)->0.len() * 2 == s.len(),
        from_hex(s) is Some && 0 <= i < s.len() / 2 ==> text::hex_value(s[2 * i]) is Some
            && text::hex_value(s[2 * i + 1]) is Some && from_hex(s)->0[i] == 16 * text::hex_value(
            s[2 * i],
        )->0 + text::hex_value(s[2 * i + 1])->0,
        0 <= i < s.len() && text::hex_value(s[i]) is None ==> from_hex(s) is None,
        s.len() % 2 == 1 ==> from_hex(s) is None,
    decreases s.len(),
{
    if s.len() >= 2 {
        let n = s.len() as int;
        let front = s.take(n - 2);
        hexadecimal_is_read_by_pairs(front, i);
        if 0 <= i < front.len() {
            assert(front[i] == s[i]);
        }
        if 0 <= i < front.len() / 2 {
            assert(front[2 * i] == s[2 * i] && front[2 * i + 1] == s[2 * i + 1]);
        }
    }
}

/// Of the stored licences the first that still works is the one that counts.
pub proof fn the_first_licence_that_works_counts(
    key_hex: Seq<char>,
    files: Seq<String>,
    today: Option<u64>,
    i: int,
)
    requires
        0 <= i <= files.len(),
        forall|k: int|
            0 <= k < i ==> (licence_says(key_hex, (#[trigger] files[k])@) matches Ok(m) ==> !current(
                m.expires_day,
                today,
            )),
    ensures
        i == files.len() ==> first_current(key_hex, files, today) is None,
        i < files.len() ==> (licence_says(key_hex, files[i]@) matches Ok(m) ==> (current(
            m.expires_day,
            today,
        ) ==> first_current(key_hex, files, today) == Some(m))),
    decreases files.len(),
{
    if files.len() > 0 {
        let front = files.drop_last();
        let n = if i < front.len() {
            i
        } else {
            front.len() as int
        };
        assert forall|k: int| 0 <= k < n implies (licence_says(key_hex, (#[trigger] front[k])@) matches Ok(
            m,
        ) ==> !current(m.expires_day, today)) by {
            assert(front[k] == files[k]);
        }
        the_first_licence_that_works_counts(key_hex, front, today, n);
        if i < front.len() {
            assert(front[i] == files[i]);
        } else if i == files.len() {
            assert(files.last() == files[files.len() - 1]);
        }
    }
}

/// A licence is told as it is, and shown with its holder and its last day.
pub proof fn a_licence_is_told_as_it_is(l: Licence)
    ensures
        l@.name == l.name@,
        l@.expires_day == l.expires_day,
        text::begins(licence_shown(Some(l@)), "{\"name\":\""@ + text::requoted(l.name@)),
        text::finishes(
            licence_shown(Some(l@)),
            "\",\"expires\":"@ + text::decimal(l.expires_day as nat) + "}"@,
        ),
{
    let s = licence_shown(Some(l@));
    let start = "{\"name\":\""@ + text::requoted(l.name@);
    let tail = "\",\"expires\":"@ + text::decimal(l.expires_day as nat) + "}"@;
    assert(s =~= start + tail);
    assert(s.take(start.len() as int) =~= start);
    assert(s.skip(s.len() - tail.len()) =~= tail);
}

} // verus!
