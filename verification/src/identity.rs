//! Peer identity and trust.
//!
//! A machine is its key pair: the peer id is derived from the public key, so names are
//! cosmetic and there is nothing to configure. Trust is a pinned public key, established
//! by pairing.
use crate::frame::PeerId;
use crate::text;
use crate::{transport, wire};
use vstd::prelude::*;
use vstd::string::*;

verus! {

// ---------------------------------------------------------------- outside calls
/// What SHA-256 gives for some bytes.
pub uninterp spec fn sha256(bytes: Seq<u8>) -> Seq<u8>;

/// `sha2::Sha256::digest`: the hash depends on the bytes alone, and is named
/// [`sha256`].
#[verifier::external_body]
pub(crate) fn sha256_of(bytes: &[u8]) -> (h: [u8; 32])
    ensures
        h@ == sha256(bytes@),
{
    <sha2::Sha256 as sha2::Digest>::digest(bytes).into()
}

/// The public half of a DER-encoded private key, as a `SubjectPublicKeyInfo`.
pub uninterp spec fn public_half(key_der: Seq<u8>) -> Seq<u8>;

/// `rcgen::KeyPair::try_from` and the public key of what it loaded. Which public key belongs
/// to a private key depends on the bytes alone, and is named [`public_half`]. Whether a key
/// loads is left unsaid: loading an elliptic curve key draws from the system's random source
/// and fails where that does.
#[verifier::external_body]
fn load_key(key_der: &[u8]) -> (r: Result<Vec<u8>, String>)
    ensures
        r matches Ok(spki) ==> spki@ == public_half(key_der@),
{
    match rcgen::KeyPair::try_from(key_der) {
        Ok(key) => Ok(rcgen::PublicKeyData::subject_public_key_info(&key)),
        Err(e) => Err(e.to_string()),
    }
}

/// The `SubjectPublicKeyInfo` inside a DER-encoded certificate, if it parses as one.
pub uninterp spec fn certificate_spki(cert_der: Seq<u8>) -> Option<Seq<u8>>;

/// `rustls::server::ParsedCertificate`: the public key a certificate carries depends on
/// its bytes alone, and is named [`certificate_spki`].
#[verifier::external_body]
fn spki_in_certificate(cert_der: &[u8]) -> (r: Option<Vec<u8>>)
    ensures
        match certificate_spki(cert_der@) {
            Some(spki) => r is Some && r->0@ == spki,
            None => r is None,
        },
{
    let cert = rustls::pki_types::CertificateDer::from(cert_der);
    let parsed = rustls::server::ParsedCertificate::try_from(&cert).ok()?;
    Some(parsed.subject_public_key_info().as_ref().to_vec())
}

/// The name certificates are issued under. It is never checked, since verification is by
/// pinned public key, so it is a fixed placeholder and says nothing about the machine.
pub open spec fn placeholder() -> Seq<char> {
    "seam.invalid"@
}

/// The name certificates are issued under.
pub fn certificate_name() -> (s: String)
    ensures
        s@ == placeholder(),
{
    String::from_str("seam.invalid")
}

/// `rcgen::generate_simple_self_signed`: a fresh key pair and a certificate for it under the
/// name, as DER, and the public key. Which key comes out is random. The certificate carries
/// that public key, and it is the one of the private key. Whether a key comes out is left
/// unsaid: it rests on the system's random source, and where that fails right after it gave
/// a key the outside function panics.
#[verifier::external_body]
fn fresh_credentials(name: String) -> (r: Result<(Vec<u8>, Vec<u8>, Vec<u8>), String>)
    requires
        name@ == placeholder(),
    ensures
        r matches Ok((cert, key, spki)) ==> certificate_spki(cert@) == Some(spki@)
            && public_half(key@) == spki@,
{
    match rcgen::generate_simple_self_signed(vec![name]) {
        Ok(made) => {
            let spki = rcgen::PublicKeyData::subject_public_key_info(&made.signing_key);
            Ok((made.cert.der().to_vec(), made.signing_key.serialize_der(), spki))
        },
        Err(e) => Err(e.to_string()),
    }
}

// ---------------------------------------------------------------- fingerprints
/// SHA-256 of a peer's DER-encoded `SubjectPublicKeyInfo`.
///
/// This is the value pinned after pairing. Comparing full fingerprints is a machine's
/// job; humans compare the 6-digit code in [`crate::pairing`] instead.
#[derive(Clone, Copy, PartialEq, Eq, PartialOrd, Ord, Hash, Debug)]
pub struct Fingerprint([u8; 32]);

impl View for Fingerprint {
    type V = Seq<u8>;

    closed spec fn view(&self) -> Seq<u8> {
        self.0@
    }
}

/// Fingerprints with the same bytes are the same.
pub broadcast proof fn fingerprints_are_their_bytes(a: Fingerprint, b: Fingerprint)
    requires
        #[trigger] a@ == #[trigger] b@,
    ensures
        a == b,
{
    assert(a.0 =~= b.0);
}

/// A fingerprint has 32 bytes.
pub proof fn fingerprint_len(f: Fingerprint)
    ensures
        f@.len() == 32,
{
}

/// Separates this hash from a hash of the same bytes computed for another purpose:
/// `seam-peer-spki-v1`.
pub open spec fn spki_domain() -> Seq<u8> {
    seq![
        115u8, 101, 97, 109, 45, 112, 101, 101, 114, 45, 115, 112, 107, 105, 45, 118, 49,
    ]
}

impl Fingerprint {
    /// Hash a DER-encoded `SubjectPublicKeyInfo`.
    #[must_use]
    pub fn of_spki(spki_der: &[u8]) -> (f: Fingerprint)
        ensures
            f@ == sha256(spki_domain() + spki_der@),
    {
        let mut input: Vec<u8> = Vec::new();
        let domain: [u8; 17] = [
            115, 101, 97, 109, 45, 112, 101, 101, 114, 45, 115, 112, 107, 105, 45, 118, 49,
        ];
        input.extend_from_slice(&domain);
        input.extend_from_slice(spki_der);
        proof {
            assert(input@ =~= spki_domain() + spki_der@);
        }
        Fingerprint(sha256_of(input.as_slice()))
    }

    /// The fingerprint of the key a certificate carries, if the certificate parses.
    #[must_use]
    pub fn of_certificate(cert_der: &[u8]) -> (f: Option<Fingerprint>)
        ensures
            match certificate_spki(cert_der@) {
                Some(spki) => f is Some && f->0@ == sha256(spki_domain() + spki),
                None => f is None,
            },
    {
        match spki_in_certificate(cert_der) {
            Some(spki) => Some(Fingerprint::of_spki(spki.as_slice())),
            None => None,
        }
    }

    /// A fingerprint from its stored or advertised bytes.
    #[must_use]
    pub fn from_bytes(raw: [u8; 32]) -> (f: Fingerprint)
        ensures
            f@ == raw@,
    {
        Fingerprint(raw)
    }

    #[must_use]
    pub fn as_bytes(&self) -> (b: &[u8; 32])
        ensures
            b@ == self@,
    {
        &self.0
    }

    /// Whether two fingerprints are the same.
    #[must_use]
    pub fn same(&self, other: &Fingerprint) -> (b: bool)
        ensures
            b == (self == other),
    {
        let mut i: usize = 0;
        while i < 32
            invariant
                i <= 32,
                forall|k: int| 0 <= k < i ==> self.0@[k] == other.0@[k],
            decreases 32 - i,
        {
            if self.0[i] != other.0[i] {
                return false;
            }
            i = i + 1;
        }
        proof {
            assert(self.0 =~= other.0);
        }
        true
    }

    /// The identifier a fingerprint yields: its first 16 bytes.
    pub open spec fn id(self) -> Seq<u8> {
        self@.take(16)
    }

    /// The [`PeerId`] this fingerprint yields.
    #[must_use]
    pub fn peer_id(&self) -> (p: PeerId)
        ensures
            p.0@ == self.id(),
    {
        let mut id: [u8; 16] = [0u8; 16];
        let mut i: usize = 0;
        while i < 16
            invariant
                i <= 16,
                forall|k: int| 0 <= k < i ==> id@[k] == self.0@[k],
            decreases 16 - i,
        {
            id[i] = self.0[i];
            i = i + 1;
        }
        proof {
            assert(id@ =~= self.id());
        }
        PeerId(id)
    }

    /// How a fingerprint is written to a log.
    pub open spec fn logged(bytes: Seq<u8>) -> Seq<char> {
        "Fingerprint("@ + text::hex_of(bytes.take(4)) + "…)"@
    }

    /// The fingerprint for a log: its start, which is enough to tell machines apart there.
    #[must_use]
    pub fn describe(&self) -> (s: String)
        ensures
            s@ == Fingerprint::logged(self@),
    {
        let (start, _) = self.0.as_slice().split_at(4);
        proof {
            assert(start@ =~= self@.take(4));
        }
        let start = text::hex(start);
        text::plus(text::plus(String::from_str("Fingerprint("), start.as_str()), "…)")
    }

    /// Bytes in hexadecimal with a space between each two.
    pub open spec fn grouped(bytes: Seq<u8>) -> Seq<char>
        decreases bytes.len(),
    {
        if bytes.len() == 0 {
            Seq::empty()
        } else {
            let before = Fingerprint::grouped(bytes.drop_last());
            let n = bytes.len() - 1;
            (if n > 0 && n % 2 == 0 {
                before.push(' ')
            } else {
                before
            }) + text::hex_byte(bytes.last())
        }
    }

    /// Lowercase hex, grouped in fours for the rare case a human must read it.
    #[must_use]
    pub fn to_grouped_hex(&self) -> (s: String)
        ensures
            s@ == Fingerprint::grouped(self@),
    {
        let mut out = String::new();
        let mut i: usize = 0;
        while i < 32
            invariant
                i <= 32,
                out@ == Fingerprint::grouped(self.0@.take(i as int)),
            decreases 32 - i,
        {
            if i > 0 && i % 2 == 0 {
                text::push(&mut out, ' ');
            }
            text::push_hex(&mut out, self.0[i]);
            proof {
                assert(self.0@.take(i + 1).drop_last() =~= self.0@.take(i as int));
            }
            i = i + 1;
        }
        proof {
            assert(self.0@.take(32) =~= self.0@);
        }
        out
    }
}

// ---------------------------------------------------------------- this machine
/// This machine's long-lived key pair and self-signed certificate.
///
/// Generated once on first run and persisted. There is no CA, no enrolment and no expiry
/// to renew: peers authenticate each other by pinned public key.
pub struct Identity {
    cert_der: Vec<u8>,
    key_der: Vec<u8>,
    spki_der: Vec<u8>,
    fingerprint: Fingerprint,
}

impl Identity {
    /// The certificate, as DER.
    pub closed spec fn certificate(self) -> Seq<u8> {
        self.cert_der@
    }

    /// The private key, as DER.
    pub closed spec fn private_key(self) -> Seq<u8> {
        self.key_der@
    }

    /// The public key, as a DER-encoded `SubjectPublicKeyInfo`.
    pub closed spec fn public_key(self) -> Seq<u8> {
        self.spki_der@
    }

    /// The fingerprint.
    pub closed spec fn print(self) -> Fingerprint {
        self.fingerprint
    }

    /// The fingerprint is that of the public key.
    #[verifier::type_invariant]
    pub closed spec fn wf(self) -> bool {
        self.fingerprint@ == sha256(spki_domain() + self.spki_der@)
    }

    /// The identity made of a certificate, a private key and a public key.
    pub open spec fn holds(
        self,
        cert_der: Seq<u8>,
        key_der: Seq<u8>,
        spki_der: Seq<u8>,
    ) -> bool {
        &&& self.certificate() == cert_der
        &&& self.private_key() == key_der
        &&& self.public_key() == spki_der
        &&& self.print()@ == sha256(spki_domain() + spki_der)
    }

    /// Generate a fresh identity.
    ///
    /// Which key comes out is random, and so is whether the system has randomness to
    /// give. The certificate and the private key have the same public key, so that reading
    /// them back from disk gives the same identity.
    pub fn generate() -> (r: Result<Identity, transport::Error>)
        ensures
            r matches Ok(id) ==> {
                &&& id.holds(id.certificate(), id.private_key(), public_half(id.private_key()))
                &&& certificate_spki(id.certificate()) == Some(id.public_key())
                &&& public_key_of(id.certificate(), public_half(id.private_key()))
                    == id.public_key()
            },
            r matches Err(e) ==> e is Identity,
    {
        Identity::made(fresh_credentials(certificate_name()))
    }

    /// The identity of freshly made credentials: a certificate, its private key and their
    /// public key. Where none were made, the reason is passed on.
    pub fn made(outcome: Result<(Vec<u8>, Vec<u8>, Vec<u8>), String>) -> (r: Result<
        Identity,
        transport::Error,
    >)
        ensures
            match outcome {
                Ok((cert, key, spki)) => r matches Ok(id) && id.holds(cert@, key@, spki@),
                Err(reason) => r matches Err(transport::Error::Identity(why)) && why@ == reason@,
            },
    {
        match outcome {
            Ok((cert_der, key_der, spki_der)) => {
                let fingerprint = Fingerprint::of_spki(spki_der.as_slice());
                Ok(Identity { cert_der, key_der, spki_der, fingerprint })
            },
            Err(reason) => Err(transport::Error::Identity(reason)),
        }
    }

    /// Reconstruct from persisted DER bytes.
    ///
    /// The identity is the one the certificate claims; whether the private key proves it
    /// is for the handshake to say.
    pub fn from_der(cert_der: Vec<u8>, key_der: Vec<u8>) -> (r: Result<Identity, transport::Error>)
        ensures
            r matches Ok(id) ==> id.holds(
                cert_der@,
                key_der@,
                public_key_of(cert_der@, public_half(key_der@)),
            ),
            r matches Err(e) ==> e matches transport::Error::Identity(why) && exists|reason: Seq<char>|
                why@ == #[trigger] unusable(reason),
    {
        let loaded = load_key(key_der.as_slice());
        Identity::restored(cert_der, key_der, loaded)
    }

    /// The identity of stored credentials, given what loading the private key gave: its
    /// public key, or why it is unusable.
    pub fn restored(
        cert_der: Vec<u8>,
        key_der: Vec<u8>,
        loaded: Result<Vec<u8>, String>,
    ) -> (r: Result<Identity, transport::Error>)
        ensures
            match loaded {
                Ok(own) => r matches Ok(id) && id.holds(
                    cert_der@,
                    key_der@,
                    public_key_of(cert_der@, own@),
                ),
                Err(reason) => r matches Err(transport::Error::Identity(why)) && why@ == unusable(
                    reason@,
                ),
            },
    {
        let own_spki = match loaded {
            Ok(spki) => spki,
            Err(reason) => {
                let why = String::from_str("stored private key is unusable: ");
                return Err(transport::Error::Identity(text::plus(why, reason.as_str())));
            },
        };
        let spki_der = match spki_in_certificate(cert_der.as_slice()) {
            Some(spki) => spki,
            None => own_spki,
        };
        let fingerprint = Fingerprint::of_spki(spki_der.as_slice());
        Ok(Identity { cert_der, key_der, spki_der, fingerprint })
    }

    #[must_use]
    pub fn certificate_der(&self) -> (b: &[u8])
        ensures
            b@ == self.certificate(),
    {
        self.cert_der.as_slice()
    }

    #[must_use]
    pub fn private_key_der(&self) -> (b: &[u8])
        ensures
            b@ == self.private_key(),
    {
        self.key_der.as_slice()
    }

    #[must_use]
    pub fn spki_der(&self) -> (b: &[u8])
        ensures
            b@ == self.public_key(),
            self.print()@ == sha256(spki_domain() + b@),
    {
        proof {
            use_type_invariant(self);
        }
        self.spki_der.as_slice()
    }

    #[must_use]
    pub fn fingerprint(&self) -> (f: Fingerprint)
        ensures
            f == self.print(),
            f@ == sha256(spki_domain() + self.public_key()),
    {
        proof {
            use_type_invariant(self);
        }
        self.fingerprint
    }

    #[must_use]
    pub fn peer_id(&self) -> (p: PeerId)
        ensures
            p.0@ == self.print().id(),
    {
        self.fingerprint.peer_id()
    }

    /// The identity for a log: the start of its fingerprint, and never the private key.
    #[must_use]
    pub fn describe(&self) -> (s: String)
        ensures
            s@ == "Identity { fingerprint: "@ + Fingerprint::logged(self.print()@) + ", .. }"@,
    {
        let out = String::from_str("Identity { fingerprint: ");
        text::plus(text::plus(out, self.fingerprint.describe().as_str()), ", .. }")
    }
}

/// The public key of stored credentials: the certificate's, or the private key's own where
/// the certificate does not parse.
pub open spec fn public_key_of(cert_der: Seq<u8>, own: Seq<u8>) -> Seq<u8> {
    match certificate_spki(cert_der) {
        Some(spki) => spki,
        None => own,
    }
}

/// What is said of a stored private key that does not load.
pub open spec fn unusable(reason: Seq<char>) -> Seq<char> {
    "stored private key is unusable: "@ + reason
}

// ---------------------------------------------------------------- trust
/// A peer we have paired with.
#[derive(Clone, PartialEq, Eq, Debug)]
pub struct TrustedPeer {
    pub fingerprint: Fingerprint,
    /// Last known display name. Cosmetic only: it is never used to identify or authorise
    /// a peer, so renaming a machine can never break a pairing.
    pub name: String,
}

/// What the store knows of a peer.
pub struct TrustModel {
    pub fingerprint: Fingerprint,
    pub name: Seq<char>,
}

impl View for TrustedPeer {
    type V = TrustModel;

    open spec fn view(&self) -> TrustModel {
        TrustModel { fingerprint: self.fingerprint, name: self.name@ }
    }
}

/// The result of checking a presented key against the trust store.
#[derive(Clone, Copy, PartialEq, Eq, Debug, Structural)]
pub enum Trust {
    /// Paired, and the key matches. Connect silently.
    Trusted,
    /// Never seen. Offer pairing: this is the only path to `Trusted`.
    Unknown,
    /// The id is known but the key does not match. Either the peer reinstalled, or someone
    /// is impersonating it. Never auto-accept.
    Conflict,
}

/// The number a 16-byte identifier denotes, by which identifiers are ordered.
pub open spec fn id_rank(id: Seq<u8>) -> nat {
    wire::be_value(id)
}

/// Identifiers of the same rank are the same.
proof fn rank_tells_ids_apart(a: Seq<u8>, b: Seq<u8>)
    requires
        a.len() == b.len(),
        id_rank(a) == id_rank(b),
    ensures
        a == b,
{
    wire::be_bytes_of_be_value(a);
    wire::be_bytes_of_be_value(b);
}

fn rank_of(id: &PeerId) -> (n: u128)
    ensures
        n == id_rank(id.0@),
{
    let mut n: u128 = 0;
    let mut i: usize = 0;
    proof {
        reveal(wire::be_value);
        assert(wire::be_limit(0) == 1);
    }
    while i < 16
        invariant
            i <= 16,
            n == wire::be_value(id.0@.take(i as int)),
            n < wire::be_limit(i as nat),
        decreases 16 - i,
    {
        proof {
            reveal(wire::be_value);
            assert(id.0@.take(i + 1).drop_last() =~= id.0@.take(i as int));
            limit_fits(i as nat);
        }
        n = n * 256 + id.0[i] as u128;
        i = i + 1;
    }
    proof {
        assert(id.0@.take(16) =~= id.0@);
    }
    n
}

proof fn limit_fits(n: nat)
    requires
        n < 16,
    ensures
        wire::be_limit(n) <= 0x100_0000_0000_0000_0000_0000_0000_0000,
        wire::be_limit((n + 1) as nat) == 256 * wire::be_limit(n),
{
    limit_grows(n, 15);
    reveal_with_fuel(wire::be_limit, 16);
}

proof fn limit_grows(m: nat, n: nat)
    requires
        m <= n,
    ensures
        wire::be_limit(m) <= wire::be_limit(n),
    decreases n,
{
    if m < n {
        limit_grows(m, (n - 1) as nat);
    }
}

/// The set of peers this machine has paired with.
///
/// Pairing is the only way in. There is no "accept unknown peers" mode, no shared
/// password, and no unauthenticated fallback. Held in order of peer id, one entry each.
#[derive(Clone, Debug)]
pub struct TrustStore {
    peers: Vec<TrustedPeer>,
}

/// Whether entries stand in ascending order of id, so that none occurs twice.
pub open spec fn ordered_by_id(s: Seq<TrustedPeer>) -> bool {
    forall|i: int, j: int|
        0 <= i < j < s.len() ==> id_rank(s[i].fingerprint.id()) < id_rank(s[j].fingerprint.id())
}

/// What a list of entries says of each id.
pub open spec fn trust_map(s: Seq<TrustedPeer>) -> Map<Seq<u8>, TrustModel> {
    Map::new(
        |id: Seq<u8>| exists|i: int| 0 <= i < s.len() && #[trigger] s[i].fingerprint.id() == id,
        |id: Seq<u8>|
            s[choose|i: int| 0 <= i < s.len() && #[trigger] s[i].fingerprint.id() == id]@,
    )
}

proof fn ids_are_long(f: Fingerprint)
    ensures
        f.id().len() == 16,
{
    fingerprint_len(f);
}

/// In an ordered list, the entry at `i` is what the map says of its id.
pub proof fn entry_is_found(s: Seq<TrustedPeer>, i: int)
    requires
        ordered_by_id(s),
        0 <= i < s.len(),
    ensures
        trust_map(s).dom().contains(s[i].fingerprint.id()),
        trust_map(s)[s[i].fingerprint.id()] == s[i]@,
{
    let id = s[i].fingerprint.id();
    let j = choose|j: int| 0 <= j < s.len() && #[trigger] s[j].fingerprint.id() == id;
    if i < j {
        assert(id_rank(s[i].fingerprint.id()) < id_rank(s[j].fingerprint.id()));
    } else if j < i {
        assert(id_rank(s[j].fingerprint.id()) < id_rank(s[i].fingerprint.id()));
    }
}

impl View for TrustStore {
    type V = Map<Seq<u8>, TrustModel>;

    /// What is trusted, by peer id.
    closed spec fn view(&self) -> Map<Seq<u8>, TrustModel> {
        trust_map(self.peers@)
    }
}

impl Default for TrustStore {
    fn default() -> (s: TrustStore)
        ensures
            s.wf(),
            s@ == Map::<Seq<u8>, TrustModel>::empty(),
    {
        TrustStore::new()
    }
}

/// How a presented key stands against a store.
pub open spec fn trust_of(store: Map<Seq<u8>, TrustModel>, f: Fingerprint) -> Trust {
    if !store.dom().contains(f.id()) {
        Trust::Unknown
    } else if store[f.id()].fingerprint == f {
        Trust::Trusted
    } else {
        Trust::Conflict
    }
}

impl TrustStore {
    /// Entries are ordered by id, one each.
    pub closed spec fn wf(self) -> bool {
        ordered_by_id(self.peers@)
    }

    /// The entries, in order of id.
    pub closed spec fn entries(self) -> Seq<TrustedPeer> {
        self.peers@
    }

    #[must_use]
    pub fn new() -> (s: TrustStore)
        ensures
            s.wf(),
            s@ == Map::<Seq<u8>, TrustModel>::empty(),
            s.entries() == Seq::<TrustedPeer>::empty(),
    {
        let s = TrustStore { peers: Vec::new() };
        proof {
            assert(s@ =~= Map::<Seq<u8>, TrustModel>::empty());
        }
        s
    }

    /// Where an id stands, or would stand.
    fn position(&self, id: &PeerId) -> (r: (usize, bool))
        requires
            self.wf(),
        ensures
            r.0 <= self.peers@.len(),
            forall|k: int|
                0 <= k < r.0 ==> id_rank((#[trigger] self.peers@[k]).fingerprint.id()) < id_rank(
                    id.0@,
                ),
            r.1 ==> r.0 < self.peers@.len() && self.peers@[r.0 as int].fingerprint.id() == id.0@,
            !r.1 ==> forall|k: int|
                r.0 <= k < self.peers@.len() ==> id_rank(
                    (#[trigger] self.peers@[k]).fingerprint.id(),
                ) > id_rank(id.0@),
    {
        let rank: u128 = rank_of(id);
        let mut i: usize = 0;
        while i < self.peers.len()
            invariant
                self.wf(),
                i <= self.peers@.len(),
                rank == id_rank(id.0@),
                forall|k: int|
                    0 <= k < i ==> id_rank((#[trigger] self.peers@[k]).fingerprint.id()) < rank,
            decreases self.peers.len() - i,
        {
            let here: u128 = rank_of(&self.peers[i].fingerprint.peer_id());
            if here == rank {
                proof {
                    ids_are_long(self.peers@[i as int].fingerprint);
                    rank_tells_ids_apart(self.peers@[i as int].fingerprint.id(), id.0@);
                }
                return (i, true);
            }
            if here > rank {
                return (i, false);
            }
            i = i + 1;
        }
        (i, false)
    }

    /// Record a peer as trusted. Returns the entry it replaced, if any.
    pub fn trust(&mut self, fingerprint: Fingerprint, name: &str) -> (replaced: Option<TrustedPeer>)
        requires
            old(self).wf(),
        ensures
            final(self).wf(),
            final(self)@ == old(self)@.insert(
                fingerprint.id(),
                TrustModel { fingerprint, name: name@ },
            ),
            match replaced {
                Some(p) => old(self)@.dom().contains(fingerprint.id()) && p@
                    == old(self)@[fingerprint.id()],
                None => !old(self)@.dom().contains(fingerprint.id()),
            },
    {
        let id = fingerprint.peer_id();
        let (at, found) = self.position(&id);
        let entry = TrustedPeer { fingerprint, name: name.to_owned() };
        let ghost before = self.peers@;
        let ghost want = trust_map(before).insert(
            fingerprint.id(),
            TrustModel { fingerprint, name: name@ },
        );
        if found {
            proof {
                entry_is_found(before, at as int);
            }
            let old_entry = self.peers.remove(at);
            self.peers.insert(at, entry);
            proof {
                assert(self.peers@ =~= before.update(at as int, entry));
                updating_keeps_order(before, at as int, entry);
                assert(trust_map(self.peers@) =~= want);
            }
            Some(old_entry)
        } else {
            self.peers.insert(at, entry);
            proof {
                inserting_keeps_order(before, at as int, entry);
                assert(trust_map(self.peers@) =~= want);
            }
            None
        }
    }

    pub fn forget(&mut self, id: PeerId) -> (gone: Option<TrustedPeer>)
        requires
            old(self).wf(),
        ensures
            final(self).wf(),
            final(self)@ == old(self)@.remove(id.0@),
            match gone {
                Some(p) => old(self)@.dom().contains(id.0@) && p@ == old(self)@[id.0@],
                None => !old(self)@.dom().contains(id.0@),
            },
    {
        let (at, found) = self.position(&id);
        let ghost before = self.peers@;
        if found {
            proof {
                entry_is_found(before, at as int);
            }
            let old_entry = self.peers.remove(at);
            proof {
                removing_keeps_order(before, at as int);
                assert(self@ =~= trust_map(before).remove(id.0@));
            }
            Some(old_entry)
        } else {
            proof {
                absent(before, id.0@, at as int);
                assert(self@ =~= trust_map(before).remove(id.0@));
            }
            None
        }
    }

    #[must_use]
    pub fn get(&self, id: PeerId) -> (r: Option<&TrustedPeer>)
        requires
            self.wf(),
        ensures
            match r {
                Some(p) => self@.dom().contains(id.0@) && p@ == self@[id.0@],
                None => !self@.dom().contains(id.0@),
            },
    {
        let (at, found) = self.position(&id);
        if found {
            proof {
                entry_is_found(self.peers@, at as int);
            }
            Some(&self.peers[at])
        } else {
            proof {
                absent(self.peers@, id.0@, at as int);
            }
            None
        }
    }

    /// Whether this exact public key is trusted.
    ///
    /// Checks the fingerprint, not just the id. A peer presenting a known id with a
    /// different key is an impostor, and must be rejected rather than silently re-pinned.
    #[must_use]
    pub fn is_trusted(&self, fingerprint: Fingerprint) -> (b: bool)
        requires
            self.wf(),
        ensures
            b == (trust_of(self@, fingerprint) == Trust::Trusted),
    {
        match self.get(fingerprint.peer_id()) {
            Some(p) => p.fingerprint.same(&fingerprint),
            None => false,
        }
    }

    /// Classify a presented key. The three outcomes need different handling, and
    /// collapsing them is how tools end up accepting impostors.
    #[must_use]
    pub fn classify(&self, fingerprint: Fingerprint) -> (t: Trust)
        requires
            self.wf(),
        ensures
            t == trust_of(self@, fingerprint),
    {
        match self.get(fingerprint.peer_id()) {
            None => Trust::Unknown,
            Some(p) => if p.fingerprint.same(&fingerprint) {
                Trust::Trusted
            } else {
                Trust::Conflict
            },
        }
    }

    /// Every entry, in order of peer id.
    pub fn iter(&self) -> (r: &Vec<TrustedPeer>)
        requires
            self.wf(),
        ensures
            r@ == self.entries(),
            ordered_by_id(r@),
            self@ == trust_map(r@),
    {
        &self.peers
    }

    #[must_use]
    pub fn len(&self) -> (n: usize)
        requires
            self.wf(),
        ensures
            n == self@.dom().len(),
            self@.dom().finite(),
    {
        proof {
            dom_size(self.peers@);
        }
        self.peers.len()
    }

    #[must_use]
    pub fn is_empty(&self) -> (b: bool)
        requires
            self.wf(),
        ensures
            b == (self@ == Map::<Seq<u8>, TrustModel>::empty()),
    {
        proof {
            if self.peers@.len() > 0 {
                entry_is_found(self.peers@, 0);
            } else {
                assert(self@ =~= Map::<Seq<u8>, TrustModel>::empty());
            }
        }
        self.peers.len() == 0
    }
}

proof fn absent(s: Seq<TrustedPeer>, id: Seq<u8>, at: int)
    requires
        0 <= at <= s.len(),
        forall|k: int|
            0 <= k < at ==> id_rank((#[trigger] s[k]).fingerprint.id()) < id_rank(id),
        forall|k: int|
            at <= k < s.len() ==> id_rank((#[trigger] s[k]).fingerprint.id()) > id_rank(id),
    ensures
        !trust_map(s).dom().contains(id),
{
    if trust_map(s).dom().contains(id) {
        let i = choose|i: int| 0 <= i < s.len() && #[trigger] s[i].fingerprint.id() == id;
        assert(id_rank(s[i].fingerprint.id()) == id_rank(id));
    }
}

proof fn updating_keeps_order(s: Seq<TrustedPeer>, at: int, e: TrustedPeer)
    requires
        ordered_by_id(s),
        0 <= at < s.len(),
        s[at].fingerprint.id() == e.fingerprint.id(),
    ensures
        ordered_by_id(s.update(at, e)),
        trust_map(s.update(at, e)) == trust_map(s).insert(e.fingerprint.id(), e@),
{
    let t = s.update(at, e);
    assert(ordered_by_id(t));
    same_entries(s, t, e.fingerprint.id(), at);
    entry_is_found(t, at);
    assert forall|id: Seq<u8>| trust_map(t).dom().contains(id) == trust_map(s).insert(
        e.fingerprint.id(),
        e@,
    ).dom().contains(id) by {
        if trust_map(s).dom().contains(id) {
            let i = choose|i: int| 0 <= i < s.len() && #[trigger] s[i].fingerprint.id() == id;
            assert(t[i].fingerprint.id() == id);
        }
        if trust_map(t).dom().contains(id) {
            let i = choose|i: int| 0 <= i < t.len() && #[trigger] t[i].fingerprint.id() == id;
            assert(s[i].fingerprint.id() == id);
        }
    }
    assert forall|id: Seq<u8>| trust_map(t).dom().contains(id) && id != e.fingerprint.id() implies #[trigger] trust_map(
    t)[id] == trust_map(s)[id] by {
        let i = choose|i: int| 0 <= i < t.len() && #[trigger] t[i].fingerprint.id() == id;
        entry_is_found(t, i);
        entry_is_found(s, i);
    }
    assert(trust_map(t) =~= trust_map(s).insert(e.fingerprint.id(), e@));
}

proof fn same_entries(s: Seq<TrustedPeer>, t: Seq<TrustedPeer>, id: Seq<u8>, at: int)
    requires
        0 <= at < s.len(),
        t.len() == s.len(),
        s[at].fingerprint.id() == id,
        t[at].fingerprint.id() == id,
        forall|i: int| 0 <= i < s.len() && i != at ==> s[i] == t[i],
    ensures
        forall|i: int|
            0 <= i < s.len() ==> (#[trigger] s[i]).fingerprint.id() == t[i].fingerprint.id(),
{
}

proof fn inserting_keeps_order(s: Seq<TrustedPeer>, at: int, e: TrustedPeer)
    requires
        ordered_by_id(s),
        0 <= at <= s.len(),
        forall|k: int|
            0 <= k < at ==> id_rank((#[trigger] s[k]).fingerprint.id()) < id_rank(
                e.fingerprint.id(),
            ),
        forall|k: int|
            at <= k < s.len() ==> id_rank((#[trigger] s[k]).fingerprint.id()) > id_rank(
                e.fingerprint.id(),
            ),
    ensures
        ordered_by_id(s.insert(at, e)),
        trust_map(s.insert(at, e)) == trust_map(s).insert(e.fingerprint.id(), e@),
        !trust_map(s).dom().contains(e.fingerprint.id()),
{
    let t = s.insert(at, e);
    let eid = e.fingerprint.id();
    absent(s, eid, at);
    assert forall|i: int, j: int| 0 <= i < j < t.len() implies id_rank(t[i].fingerprint.id())
        < id_rank(t[j].fingerprint.id()) by {
        let a = if i < at {
            s[i]
        } else if i == at {
            e
        } else {
            s[i - 1]
        };
        let b = if j < at {
            s[j]
        } else if j == at {
            e
        } else {
            s[j - 1]
        };
        assert(t[i] == a && t[j] == b);
    }
    entry_is_found(t, at);
    assert forall|id: Seq<u8>| trust_map(t).dom().contains(id) == trust_map(s).insert(
        eid,
        e@,
    ).dom().contains(id) by {
        if trust_map(s).dom().contains(id) {
            let i = choose|i: int| 0 <= i < s.len() && #[trigger] s[i].fingerprint.id() == id;
            let j = if i < at {
                i
            } else {
                i + 1
            };
            assert(t[j] == s[i]);
        }
        if trust_map(t).dom().contains(id) && id != eid {
            let j = choose|j: int| 0 <= j < t.len() && #[trigger] t[j].fingerprint.id() == id;
            let i = if j < at {
                j
            } else {
                j - 1
            };
            assert(t[j] == s[i]);
        }
    }
    assert forall|id: Seq<u8>| trust_map(t).dom().contains(id) && id != eid implies #[trigger] trust_map(
    t)[id] == trust_map(s)[id] by {
        let j = choose|j: int| 0 <= j < t.len() && #[trigger] t[j].fingerprint.id() == id;
        let i = if j < at {
            j
        } else {
            j - 1
        };
        assert(t[j] == s[i]);
        entry_is_found(t, j);
        entry_is_found(s, i);
    }
    assert(trust_map(t) =~= trust_map(s).insert(eid, e@));
}

proof fn removing_keeps_order(s: Seq<TrustedPeer>, at: int)
    requires
        ordered_by_id(s),
        0 <= at < s.len(),
    ensures
        ordered_by_id(s.remove(at)),
        trust_map(s.remove(at)) == trust_map(s).remove(s[at].fingerprint.id()),
{
    let t = s.remove(at);
    let gone = s[at].fingerprint.id();
    assert forall|i: int, j: int| 0 <= i < j < t.len() implies id_rank(t[i].fingerprint.id())
        < id_rank(t[j].fingerprint.id()) by {
        let a = if i < at {
            i
        } else {
            i + 1
        };
        let b = if j < at {
            j
        } else {
            j + 1
        };
        assert(t[i] == s[a] && t[j] == s[b]);
    }
    assert forall|id: Seq<u8>| trust_map(t).dom().contains(id) == trust_map(s).remove(
        gone,
    ).dom().contains(id) by {
        if trust_map(t).dom().contains(id) {
            let j = choose|j: int| 0 <= j < t.len() && #[trigger] t[j].fingerprint.id() == id;
            let i = if j < at {
                j
            } else {
                j + 1
            };
            assert(t[j] == s[i]);
            assert(id_rank(s[i].fingerprint.id()) != id_rank(gone)) by {
                if i < at {
                    assert(id_rank(s[i].fingerprint.id()) < id_rank(s[at].fingerprint.id()));
                } else {
                    assert(id_rank(s[at].fingerprint.id()) < id_rank(s[i].fingerprint.id()));
                }
            }
        }
        if trust_map(s).dom().contains(id) && id != gone {
            let i = choose|i: int| 0 <= i < s.len() && #[trigger] s[i].fingerprint.id() == id;
            let j = if i < at {
                i
            } else {
                i - 1
            };
            assert(t[j] == s[i]);
        }
    }
    assert forall|id: Seq<u8>| trust_map(t).dom().contains(id) implies #[trigger] trust_map(t)[id]
        == trust_map(s)[id] by {
        let j = choose|j: int| 0 <= j < t.len() && #[trigger] t[j].fingerprint.id() == id;
        let i = if j < at {
            j
        } else {
            j + 1
        };
        assert(t[j] == s[i]);
        entry_is_found(t, j);
        entry_is_found(s, i);
    }
    assert(trust_map(t) =~= trust_map(s).remove(gone));
}

proof fn dom_size(s: Seq<TrustedPeer>)
    requires
        ordered_by_id(s),
    ensures
        trust_map(s).dom().finite(),
        trust_map(s).dom().len() == s.len(),
    decreases s.len(),
{
    if s.len() == 0 {
        assert(trust_map(s).dom() =~= Set::<Seq<u8>>::empty());
    } else {
        let last = s.len() - 1;
        removing_keeps_order(s, last);
        assert(s.remove(last) =~= s.drop_last());
        dom_size(s.drop_last());
        entry_is_found(s, last);
        let id = s[last].fingerprint.id();
        assert(trust_map(s).dom() =~= trust_map(s.drop_last()).dom().insert(id));
    }
}

// ---------------------------------------------------------------- laws of trust
/// Pairing is the only way in, and it lets in exactly the key that was paired: after
/// trusting a fingerprint, that key is trusted, and no other key that shares its id is.
pub proof fn pairing_trusts_exactly_that_key(
    store: Map<Seq<u8>, TrustModel>,
    f: Fingerprint,
    name: Seq<char>,
    other: Fingerprint,
)
    ensures
        trust_of(store.insert(f.id(), TrustModel { fingerprint: f, name }), f) == Trust::Trusted,
        other != f && other.id() == f.id() ==> trust_of(
            store.insert(f.id(), TrustModel { fingerprint: f, name }),
            other,
        ) == Trust::Conflict,
        other.id() != f.id() ==> trust_of(
            store.insert(f.id(), TrustModel { fingerprint: f, name }),
            other,
        ) == trust_of(store, other),
{
}

/// Names are cosmetic: trusting a key again under another name changes how no key is
/// classified, and adds no entry.
pub proof fn renaming_never_breaks_a_pairing(
    store: Map<Seq<u8>, TrustModel>,
    f: Fingerprint,
    name: Seq<char>,
    other: Fingerprint,
)
    requires
        trust_of(store, f) == Trust::Trusted,
    ensures
        trust_of(store.insert(f.id(), TrustModel { fingerprint: f, name }), other) == trust_of(
            store,
            other,
        ),
        store.insert(f.id(), TrustModel { fingerprint: f, name }).dom() == store.dom(),
{
    assert(store.insert(f.id(), TrustModel { fingerprint: f, name }).dom() =~= store.dom());
}

/// Forgetting a peer revokes it: no key with its id is trusted any more, and every other
/// key stands as it did.
pub proof fn forgetting_revokes(
    store: Map<Seq<u8>, TrustModel>,
    id: Seq<u8>,
    f: Fingerprint,
)
    ensures
        f.id() == id ==> trust_of(store.remove(id), f) == Trust::Unknown,
        f.id() != id ==> trust_of(store.remove(id), f) == trust_of(store, f),
{
}

/// An id is the first sixteen bytes of its fingerprint.
pub proof fn an_id_begins_its_fingerprint(f: Fingerprint, i: int)
    ensures
        f.id().len() == 16,
        0 <= i < 16 ==> f.id()[i] == f@[i],
{
    fingerprint_len(f);
}

/// Ids are ordered by the first byte in which they differ.
pub proof fn ids_are_ordered_byte_by_byte(a: Seq<u8>, b: Seq<u8>, i: int)
    requires
        a.len() == b.len(),
        0 <= i < a.len(),
        a.take(i) == b.take(i),
        a[i] < b[i],
    ensures
        id_rank(a) < id_rank(b),
    decreases a.len(),
{
    reveal(wire::be_value);
    let (x, y) = (a.drop_last(), b.drop_last());
    if i == a.len() - 1 {
        assert(x =~= a.take(i));
        assert(y =~= b.take(i));
    } else {
        assert(x.take(i) =~= a.take(i));
        assert(y.take(i) =~= b.take(i));
        ids_are_ordered_byte_by_byte(x, y, i);
    }
}

/// A fingerprint for people to read is its hexadecimal digits in groups of four with a space
/// between each two.
pub proof fn digits_are_grouped_by_four(bytes: Seq<u8>, i: int)
    requires
        0 <= i < bytes.len(),
    ensures
        Fingerprint::grouped(bytes).len() == 2 * bytes.len() + (bytes.len() - 1) / 2,
        ({
            let at = 5 * (i / 2) + 2 * (i % 2);
            let s = Fingerprint::grouped(bytes);
            &&& s[at] == text::hex_of(bytes)[2 * i]
            &&& s[at + 1] == text::hex_of(bytes)[2 * i + 1]
            &&& i % 2 == 1 && i + 1 < bytes.len() ==> s[at + 2] == ' '
        }),
    decreases bytes.len(),
{
    let front = bytes.drop_last();
    let n = bytes.len() - 1;
    let before = Fingerprint::grouped(front);
    let s = Fingerprint::grouped(bytes);
    assert((2 * i) / 2 == i && (2 * i) % 2 == 0 && (2 * i + 1) / 2 == i && (2 * i + 1) % 2 == 1);
    if n == 0 {
        assert(before.len() == 0);
        assert(s =~= text::hex_byte(bytes[0]));
    } else {
        let k = if i < n {
            i
        } else {
            n - 1
        };
        digits_are_grouped_by_four(front, k);
        assert(before.len() == 2 * n + (n - 1) / 2);
        assert(s.len() == before.len() + 2 + (if n % 2 == 0 {
            1int
        } else {
            0
        }));
        if i < n {
            let at = 5 * (i / 2) + 2 * (i % 2);
            assert(at + 1 < before.len());
            assert(s[at] == before[at]);
            assert(s[at + 1] == before[at + 1]);
            assert(text::hex_of(front)[2 * i] == text::hex_of(bytes)[2 * i]);
            assert(text::hex_of(front)[2 * i + 1] == text::hex_of(bytes)[2 * i + 1]);
            if i % 2 == 1 && i + 1 < bytes.len() {
                if i + 1 < n {
                    assert(s[at + 2] == before[at + 2]);
                } else {
                    assert(before.len() == at + 2);
                }
            }
        } else {
            let at = 5 * (i / 2) + 2 * (i % 2);
            assert(s.len() == at + 2);
        }
    }
}

/// The words that keep the hashes apart are the ones they are documented by.
pub proof fn hashes_are_kept_apart_by_these_words(i: int)
    ensures
        spki_domain().len() == "seam-peer-spki-v1"@.len(),
        0 <= i < spki_domain().len() ==> spki_domain()[i] as int == "seam-peer-spki-v1"@[i] as int,
{
    reveal_strlit("seam-peer-spki-v1");
}

/// A paired peer is told as it is.
pub proof fn a_peer_is_told_as_it_is(p: TrustedPeer)
    ensures
        p@.fingerprint == p.fingerprint,
        p@.name == p.name@,
{
}

/// In a log a fingerprint is told by its first four bytes, and by no more.
pub proof fn a_log_tells_the_start_of_a_fingerprint(bytes: Seq<u8>)
    requires
        bytes.len() >= 4,
    ensures
        Fingerprint::logged(bytes).len() == "Fingerprint("@.len() + 8 + "…)"@.len(),
        text::begins(Fingerprint::logged(bytes), "Fingerprint("@ + text::hex_of(bytes.take(4))),
{
    let s = Fingerprint::logged(bytes);
    let start = "Fingerprint("@ + text::hex_of(bytes.take(4));
    assert(s.take(start.len() as int) =~= start);
}

} // verus!
