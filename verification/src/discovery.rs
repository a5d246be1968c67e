//! Finding peers on the local network.
//!
//! Everything an advertisement says is an unverified claim: a hint for the display and
//! for whom to dial, never a reason to trust.
use crate::frame::PeerId;
use crate::identity::Fingerprint;
use crate::{identity, text};
use vstd::prelude::*;
use vstd::string::*;

verus! {

/// An address of a network interface.
#[derive(Clone, Copy, PartialEq, Eq, Debug)]
pub enum Ip {
    /// The four octets of an IPv4 address.
    V4([u8; 4]),
    /// The eight segments of an IPv6 address.
    V6([u16; 8]),
}

impl Ip {
    /// Whether the address is an IPv6 one.
    pub open spec fn is_v6(self) -> bool {
        self is V6
    }

    /// Whether an address is worth advertising or dialling: not loopback, not link-local
    /// and not unspecified.
    pub open spec fn routable(self) -> bool {
        match self {
            Ip::V4(o) => !(o@[0] == 127) && !(o@[0] == 169 && o@[1] == 254) && !(o@[0] == 0 && o@[1]
                == 0 && o@[2] == 0 && o@[3] == 0),
            Ip::V6(s) => !(0xfe80 <= s@[0] < 0xfec0) && !(s@[0] == 0 && s@[1] == 0 && s@[2] == 0
                && s@[3] == 0 && s@[4] == 0 && s@[5] == 0 && s@[6] == 0 && s@[7] <= 1),
        }
    }

    /// Whether two addresses are the same.
    #[must_use]
    pub fn same(&self, other: &Ip) -> (b: bool)
        ensures
            b == (self == other),
    {
        match (self, other) {
            (Ip::V4(x), Ip::V4(y)) => {
                let b = x[0] == y[0] && x[1] == y[1] && x[2] == y[2] && x[3] == y[3];
                proof {
                    if b {
                        assert(x =~= y);
                    }
                }
                b
            },
            (Ip::V6(x), Ip::V6(y)) => {
                let b = x[0] == y[0] && x[1] == y[1] && x[2] == y[2] && x[3] == y[3] && x[4] == y[4]
                    && x[5] == y[5] && x[6] == y[6] && x[7] == y[7];
                proof {
                    if b {
                        assert(x =~= y);
                    }
                }
                b
            },
            _ => false,
        }
    }
}

/// Whether an address is worth advertising or dialling.
///
/// Loopback is useless to a peer, and link-local needs a scope id that does not survive
/// the trip through an advertisement.
#[must_use]
pub fn is_routable(ip: Ip) -> (b: bool)
    ensures
        b == ip.routable(),
{
    match ip {
        Ip::V4(o) => !(o[0] == 127) && !(o[0] == 169 && o[1] == 254) && !(o[0] == 0 && o[1] == 0
            && o[2] == 0 && o[3] == 0),
        Ip::V6(s) => !(0xfe80 <= s[0] && s[0] < 0xfec0) && !(s[0] == 0 && s[1] == 0 && s[2] == 0
            && s[3] == 0 && s[4] == 0 && s[5] == 0 && s[6] == 0 && s[7] <= 1),
    }
}

/// An address to dial, with its printed form.
#[derive(Clone, PartialEq, Eq, Debug)]
pub struct Address {
    pub ip: Ip,
    /// The address and port as printed.
    pub text: String,
}

/// A peer seen on the network. Everything here is an unverified claim.
#[derive(Clone, PartialEq, Eq, Debug)]
pub struct DiscoveredPeer {
    /// The id the peer claims. Confirmed only by a successful handshake.
    pub advertised_peer_id: Option<PeerId>,
    /// The fingerprint the peer claims. Never used to decide trust.
    pub advertised_fingerprint: Option<Fingerprint>,
    /// Display name. Cosmetic.
    pub name: String,
    /// Every address it can be reached on. A machine with Wi-Fi and Ethernet advertises
    /// several; the dialler tries them all.
    pub addresses: Vec<Address>,
    /// The protocol version it claims to speak, if it said.
    pub advertised_protocol: Option<u16>,
    /// The service instance name, used to correlate a later removal event.
    pub instance: String,
}

impl DiscoveredPeer {
    /// Whether this peer plausibly matches a fingerprint we already trust.
    ///
    /// A hint for the display and for deciding whether to dial. It is not an
    /// authorisation check.
    #[must_use]
    pub fn claims_to_be(&self, known: Fingerprint) -> (b: bool)
        ensures
            b == (self.advertised_fingerprint == Some(known)),
    {
        match self.advertised_fingerprint {
            Some(f) => f.same(&known),
            None => false,
        }
    }
}

/// An advertisement as it came off the network.
#[derive(PartialEq, Eq, Debug)]
pub struct Advert {
    /// The addresses it names.
    pub addresses: Vec<Address>,
    pub id: Option<String>,
    pub fingerprint: Option<String>,
    pub protocol: Option<String>,
    pub name: Option<String>,
    pub fullname: String,
}

// ---------------------------------------------------------------- claimed values
/// The identifier a text claims: up to 16 bytes in hexadecimal, the rest zero.
pub open spec fn claimed_id(s: Seq<char>) -> Option<Seq<u8>> {
    match text::unhex_of(s) {
        Some(bytes) => if bytes.len() <= 16 {
            Some(bytes + Seq::new((16 - bytes.len()) as nat, |i: int| 0u8))
        } else {
            None
        },
        None => None,
    }
}

/// The fingerprint a text claims: exactly 32 bytes in hexadecimal.
pub open spec fn claimed_fingerprint(s: Seq<char>) -> Option<Seq<u8>> {
    match text::unhex_of(s) {
        Some(bytes) => if bytes.len() == 32 {
            Some(bytes)
        } else {
            None
        },
        None => None,
    }
}

/// The advertised id is the short display form, so it only pins the first bytes. That is
/// enough to correlate a record with a known peer for display.
pub fn parse_peer_id_prefix(text: &str) -> (r: Option<PeerId>)
    ensures
        match claimed_id(text@) {
            Some(id) => r matches Some(p) && p.0@ == id,
            None => r is None,
        },
{
    let bytes = text::unhex(text)?;
    if bytes.len() > 16 {
        return None;
    }
    let mut id: [u8; 16] = [0u8; 16];
    let mut i: usize = 0;
    while i < bytes.len()
        invariant
            i <= bytes@.len() <= 16,
            forall|k: int| 0 <= k < i ==> id@[k] == bytes@[k],
            forall|k: int| i <= k < 16 ==> #[trigger] id@[k] == 0,
        decreases bytes.len() - i,
    {
        id[i] = bytes[i];
        i = i + 1;
    }
    proof {
        assert(id@ =~= claimed_id(text@)->0);
    }
    Some(PeerId(id))
}

pub fn parse_fingerprint(text: &str) -> (r: Option<Fingerprint>)
    ensures
        match claimed_fingerprint(text@) {
            Some(raw) => r is Some && r->0@ == raw,
            None => r is None,
        },
{
    let bytes = text::unhex(text)?;
    if bytes.len() != 32 {
        return None;
    }
    let mut raw: [u8; 32] = [0u8; 32];
    let mut i: usize = 0;
    while i < 32
        invariant
            i <= 32,
            bytes@.len() == 32,
            forall|k: int| 0 <= k < i ==> raw@[k] == bytes@[k],
        decreases 32 - i,
    {
        raw[i] = bytes[i];
        i = i + 1;
    }
    proof {
        assert(raw@ =~= bytes@);
    }
    Some(Fingerprint::from_bytes(raw))
}

/// An advertised fingerprint reads back as the fingerprint, and claims no other.
pub proof fn advertised_fingerprint_round_trips(f: Fingerprint)
    ensures
        claimed_fingerprint(text::hex_of(f@)) == Some(f@),
{
    text::unhex_of_hex(f@);
    crate::identity::fingerprint_len(f);
}

// ---------------------------------------------------------------- reading an advertisement
/// Whether one text comes before another, or is the same, character by character.
pub open spec fn not_after(a: Seq<char>, b: Seq<char>) -> bool
    decreases a.len(),
{
    if a.len() == 0 {
        true
    } else if b.len() == 0 {
        false
    } else if a[0] != b[0] {
        a[0] < b[0]
    } else {
        not_after(a.skip(1), b.skip(1))
    }
}

/// Text order is an order: what comes before what comes before a third comes before it.
proof fn not_after_chains(a: Seq<char>, b: Seq<char>, c: Seq<char>)
    requires
        not_after(a, b),
        not_after(b, c),
    ensures
        not_after(a, c),
    decreases a.len(),
{
    if a.len() > 0 && b.len() > 0 && c.len() > 0 && a[0] == b[0] && b[0] == c[0] {
        not_after_chains(a.skip(1), b.skip(1), c.skip(1));
    }
}

/// Text order leaves no two texts apart.
proof fn not_after_is_total(a: Seq<char>, b: Seq<char>)
    ensures
        not_after(a, b) || not_after(b, a),
    decreases a.len(),
{
    if a.len() > 0 && b.len() > 0 && a[0] == b[0] {
        not_after_is_total(a.skip(1), b.skip(1));
    }
}

/// Whether one text comes before another, or is the same.
fn text_not_after(a: &str, b: &str) -> (r: bool)
    ensures
        r == not_after(a@, b@),
{
    let x = text::chars_of(a);
    let y = text::chars_of(b);
    let mut i: usize = 0;
    proof {
        assert(x@.skip(0) =~= x@);
        assert(y@.skip(0) =~= y@);
    }
    while i < x.len() && i < y.len() && x[i] == y[i]
        invariant
            i <= x@.len(),
            i <= y@.len(),
            not_after(x@, y@) == not_after(x@.skip(i as int), y@.skip(i as int)),
        decreases x.len() - i,
    {
        proof {
            assert(x@.skip(i as int).skip(1) =~= x@.skip(i + 1));
            assert(y@.skip(i as int).skip(1) =~= y@.skip(i + 1));
        }
        i = i + 1;
    }
    if i == x.len() {
        true
    } else if i == y.len() {
        false
    } else {
        x[i] < y[i]
    }
}

/// The order in which addresses are tried: IPv4 first, then as printed.
pub open spec fn tried_before(a: Address, b: Address) -> bool {
    if a.ip.is_v6() != b.ip.is_v6() {
        b.ip.is_v6()
    } else {
        not_after(a.text@, b.text@)
    }
}

fn is_tried_before(a: &Address, b: &Address) -> (r: bool)
    ensures
        r == tried_before(*a, *b),
{
    let a6 = match a.ip {
        Ip::V6(_) => true,
        Ip::V4(_) => false,
    };
    let b6 = match b.ip {
        Ip::V6(_) => true,
        Ip::V4(_) => false,
    };
    if a6 != b6 {
        b6
    } else {
        text_not_after(a.text.as_str(), b.text.as_str())
    }
}

/// Whether some addresses hold this one.
pub open spec fn has_ip(s: Seq<Address>, ip: Ip) -> bool {
    exists|i: int| 0 <= i < s.len() && (#[trigger] s[i]).ip == ip
}

/// Whether `kept` are the addresses of `given` to try, in the order to try them: the
/// routable ones, each once, IPv4 first and then as printed.
pub open spec fn dialable(given: Seq<Address>, kept: Seq<Address>) -> bool {
    &&& forall|i: int|
        0 <= i < kept.len() ==> (#[trigger] kept[i]).ip.routable() && given.contains(kept[i])
    &&& forall|i: int|
        0 <= i < given.len() && (#[trigger] given[i]).ip.routable() ==> has_ip(kept, given[i].ip)
    &&& forall|i: int, j: int|
        0 <= i < j < kept.len() ==> (#[trigger] kept[i]).ip != (#[trigger] kept[j]).ip
    &&& forall|i: int, j: int|
        0 <= i < j < kept.len() ==> tried_before(#[trigger] kept[i], #[trigger] kept[j])
}

fn holds_ip(v: &Vec<Address>, ip: Ip) -> (b: bool)
    ensures
        b == has_ip(v@, ip),
{
    let mut i: usize = 0;
    while i < v.len()
        invariant
            i <= v@.len(),
            forall|k: int| 0 <= k < i ==> (#[trigger] v@[k]).ip != ip,
        decreases v.len() - i,
    {
        if v[i].ip.same(&ip) {
            return true;
        }
        i = i + 1;
    }
    false
}

/// A copy of an address.
fn copy_address(a: &Address) -> (r: Address)
    ensures
        r.ip == a.ip,
        r.text@ == a.text@,
        r == a,
{
    Address { ip: a.ip, text: a.text.clone() }
}

/// The addresses worth trying, in the order to try them.
fn sorted_addresses(given: &Vec<Address>) -> (kept: Vec<Address>)
    ensures
        dialable(given@, kept@),
{
    let mut kept: Vec<Address> = Vec::new();
    let mut n: usize = 0;
    while n < given.len()
        invariant
            n <= given@.len(),
            dialable(given@.take(n as int), kept@),
        decreases given.len() - n,
    {
        let a = &given[n];
        let ghost seen = given@.take(n as int);
        let ghost next = given@.take(n + 1);
        proof {
            assert(next =~= seen.push(*a));
            assert forall|x: Address| seen.contains(x) implies next.contains(x) by {
                let k = choose|k: int| 0 <= k < seen.len() && seen[k] == x;
                assert(next[k] == x);
            }
            assert(next[n as int] == *a);
        }
        if is_routable(a.ip) && !holds_ip(&kept, a.ip) {
            let mut at: usize = kept.len();
            while at > 0 && !is_tried_before(&kept[at - 1], a)
                invariant
                    at <= kept@.len(),
                    dialable(seen, kept@),
                    forall|j: int| at <= j < kept@.len() ==> !tried_before(#[trigger] kept@[j], *a),
                decreases at,
            {
                at = at - 1;
            }
            let ghost before = kept@;
            let copy = copy_address(a);
            kept.insert(at, copy);
            proof {
                placing_keeps_order(seen, before, *a, at as int);
                assert(kept@ == before.insert(at as int, *a));
                assert(dialable(next, kept@));
            }
        } else {
            proof {
                assert forall|i: int| 0 <= i < next.len() && (
                #[trigger] next[i]).ip.routable() implies has_ip(kept@, next[i].ip) by {
                    if i < n {
                        assert(seen[i] == next[i]);
                    }
                }
            }
        }
        n = n + 1;
    }
    proof {
        assert(given@.take(given@.len() as int) =~= given@);
    }
    kept
}

/// Putting a new address between those tried before it and those tried after it keeps the
/// addresses in order.
proof fn placing_keeps_order(seen: Seq<Address>, kept: Seq<Address>, a: Address, at: int)
    requires
        dialable(seen, kept),
        0 <= at <= kept.len(),
        a.ip.routable(),
        !has_ip(kept, a.ip),
        forall|j: int| at <= j < kept.len() ==> !tried_before(#[trigger] kept[j], a),
        at > 0 ==> tried_before(kept[at - 1], a),
    ensures
        dialable(seen.push(a), kept.insert(at, a)),
{
    let all = seen.push(a);
    let new = kept.insert(at, a);
    assert(new[at] == a);
    assert forall|i: int| 0 <= i < new.len() implies (#[trigger] new[i]).ip.routable()
        && all.contains(new[i]) by {
        assert(all[seen.len() as int] == a);
        if i != at {
            let k = if i < at {
                i
            } else {
                i - 1
            };
            assert(new[i] == kept[k]);
            let m = choose|m: int| 0 <= m < seen.len() && seen[m] == kept[k];
            assert(all[m] == kept[k]);
        }
    }
    assert forall|i: int| 0 <= i < all.len() && (#[trigger] all[i]).ip.routable() implies has_ip(
        new,
        all[i].ip,
    ) by {
        if i < seen.len() {
            assert(seen[i] == all[i]);
            assert(has_ip(kept, seen[i].ip));
            let k = choose|k: int| 0 <= k < kept.len() && (#[trigger] kept[k]).ip == seen[i].ip;
            if k < at {
                assert(new[k] == kept[k]);
            } else {
                assert(new[k + 1] == kept[k]);
            }
        }
    }
    assert forall|j: int| at <= j < kept.len() implies tried_before(a, #[trigger] kept[j]) by {
        not_after_is_total(a.text@, kept[j].text@);
    }
    assert forall|j: int| 0 <= j < at implies tried_before(#[trigger] kept[j], a) by {
        if j < at - 1 {
            assert(tried_before(kept[j], kept[at - 1]));
            if kept[j].ip.is_v6() == a.ip.is_v6() {
                not_after_chains(kept[j].text@, kept[at - 1].text@, a.text@);
            }
        }
    }
    assert forall|i: int, j: int| 0 <= i < j < new.len() implies (#[trigger] new[i]).ip != (
    #[trigger] new[j]).ip && tried_before(new[i], new[j]) by {
        let ki = if i < at {
            i
        } else {
            i - 1
        };
        let kj = if j < at {
            j
        } else {
            j - 1
        };
        if i != at {
            assert(new[i] == kept[ki]);
        }
        if j != at {
            assert(new[j] == kept[kj]);
        }
    }
}

/// The protocol version an advertisement claims.
pub open spec fn claimed_protocol(s: Seq<char>) -> Option<u16> {
    match text::number(s) {
        Some(n) => if n <= u16::MAX {
            Some(n as u16)
        } else {
            None
        },
        None => None,
    }
}

/// Whether `peer` is what an advertisement says, and no more.
pub open spec fn resolved(advert: Advert, peer: DiscoveredPeer) -> bool {
    &&& match advert.id {
        Some(s) => match claimed_id(s@) {
            Some(raw) => peer.advertised_peer_id matches Some(id) && id.0@ == raw,
            None => peer.advertised_peer_id is None,
        },
        None => peer.advertised_peer_id is None,
    }
    &&& match advert.fingerprint {
        Some(s) => match claimed_fingerprint(s@) {
            Some(raw) => peer.advertised_fingerprint is Some && peer.advertised_fingerprint->0@
                == raw,
            None => peer.advertised_fingerprint is None,
        },
        None => peer.advertised_fingerprint is None,
    }
    &&& peer.advertised_protocol == match advert.protocol {
        Some(s) => claimed_protocol(s@),
        None => None,
    }
    &&& peer.name@ == match advert.name {
        Some(s) => s@,
        None => advert.fullname@,
    }
    &&& dialable(advert.addresses@, peer.addresses@)
    &&& peer.instance@ == advert.fullname@
}

/// Read an advertisement.
pub fn resolve(advert: Advert) -> (peer: DiscoveredPeer)
    ensures
        resolved(advert, peer),
{
    let advertised_peer_id = match &advert.id {
        Some(s) => parse_peer_id_prefix(s.as_str()),
        None => None,
    };
    let advertised_fingerprint = match &advert.fingerprint {
        Some(s) => parse_fingerprint(s.as_str()),
        None => None,
    };
    let advertised_protocol: Option<u16> = match &advert.protocol {
        Some(s) => {
            let chars = text::chars_of(s.as_str());
            match text::parse_number(chars.as_slice(), 65535) {
                Some(n) => Some(n as u16),
                None => None,
            }
        },
        None => None,
    };
    let instance = advert.fullname.as_str().to_owned();
    let name = match &advert.name {
        Some(s) => s.as_str().to_owned(),
        None => advert.fullname.as_str().to_owned(),
    };
    let addresses = sorted_addresses(&advert.addresses);
    DiscoveredPeer {
        advertised_peer_id,
        advertised_fingerprint,
        name,
        addresses,
        advertised_protocol,
        instance,
    }
}

// ---------------------------------------------------------------- advertising
/// The service type advertised and browsed for.
pub const SERVICE_TYPE: &'static str = "_seam._udp.local.";

/// What this machine advertises.
#[derive(PartialEq, Eq, Debug)]
pub struct Announcement {
    /// The service instance. Named after the peer id and not after the host: machines that
    /// share a host name must not collide, and renaming one must not look like a new peer.
    pub instance: String,
    /// The host name it is advertised under.
    pub host: String,
    /// The properties id, fp, proto and name.
    pub id: String,
    pub fingerprint: String,
    pub protocol: String,
    pub name: String,
}

/// Advertises this machine and watches for others.
pub struct Discovery {
    /// The full name this machine is advertised under, once it is.
    pub advertised: Option<String>,
}

/// Something changed on the network.
#[derive(PartialEq, Eq, Debug)]
pub enum DiscoveryEvent {
    /// A peer appeared, or its record was updated.
    Found(DiscoveredPeer),
    /// A peer's record went away.
    Lost { instance: String },
}

/// What the network reports.
#[derive(PartialEq, Eq, Debug)]
pub enum Service {
    Resolved(Advert),
    Removed(String),
    /// A progress notification with nothing resolved yet.
    Progress,
}

/// The name a machine goes by.
pub open spec fn display_name(host: Option<Seq<char>>, id: PeerId) -> Seq<char> {
    let plain = match host {
        Some(h) => text::unsuffixed(h, ".local"@),
        None => Seq::empty(),
    };
    if plain.len() > 0 {
        plain
    } else {
        "seam-"@ + id.short()
    }
}

/// Whether `e` is what a report from the network says to whoever watches on a machine that
/// is advertised as `own`.
pub open spec fn told(
    own: Option<Seq<char>>,
    service: Service,
    e: Option<DiscoveryEvent>,
) -> bool {
    match service {
        Service::Resolved(advert) => if Some(advert.fullname@) == own {
            e is None
        } else {
            e matches Some(DiscoveryEvent::Found(peer)) && resolved(advert, peer)
        },
        Service::Removed(name) => if Some(name@) == own {
            e is None
        } else {
            e matches Some(DiscoveryEvent::Lost { instance }) && instance@ == name@
        },
        Service::Progress => e is None,
    }
}

impl Discovery {
    /// Nothing advertised yet.
    pub fn new() -> (d: Discovery)
        ensures
            d.advertised is None,
    {
        Discovery { advertised: None }
    }

    /// The machine's own name, used purely for display: its host name where there is one,
    /// or else a short form of its id. A machine with an awkward name is a cosmetic
    /// problem; stopping to ask a question would be a real one.
    #[must_use]
    pub fn default_display_name(host: Option<&str>, peer_id: PeerId) -> (name: String)
        ensures
            name@ == display_name(
                match host {
                    Some(h) => Some(h@),
                    None => None,
                },
                peer_id,
            ),
    {
        match host {
            Some(h) => {
                let chars = text::chars_of(h);
                let plain = text::without_suffix(chars.as_slice(), ".local");
                if plain.len() > 0 {
                    return text::string_of(plain.as_slice());
                }
            },
            None => {},
        }
        text::plus(String::from_str("seam-"), peer_id.to_short_string().as_str())
    }

    /// What to advertise.
    pub fn advertise(name: &str, peer_id: PeerId, fingerprint: Fingerprint) -> (a: Announcement)
        ensures
            a.instance@ == "seam-"@ + peer_id.short(),
            a.host@ == "seam-"@ + peer_id.short() + ".local."@,
            a.id@ == peer_id.short(),
            a.fingerprint@ == text::hex_of(fingerprint@),
            a.protocol@ == text::decimal(crate::PROTOCOL_VERSION as nat),
            a.name@ == name@,
    {
        let id = peer_id.to_short_string();
        let instance = text::plus(String::from_str("seam-"), id.as_str());
        let host = text::plus(instance.as_str().to_owned(), ".local.");
        Announcement {
            instance,
            host,
            id,
            fingerprint: text::hex(fingerprint.as_bytes()),
            protocol: text::decimal_text(crate::PROTOCOL_VERSION as u64),
            name: name.to_owned(),
        }
    }

    /// What a report from the network says to whoever watches. This machine's own
    /// advertisement says nothing: forgetting to leave it out is how a peer ends up
    /// connecting to itself.
    pub fn event(&self, service: Service) -> (e: Option<DiscoveryEvent>)
        ensures
            told(
                match self.advertised {
                    Some(s) => Some(s@),
                    None => None,
                },
                service,
                e,
            ),
    {
        match service {
            Service::Resolved(advert) => {
                if self.is_own(advert.fullname.as_str()) {
                    None
                } else {
                    Some(DiscoveryEvent::Found(resolve(advert)))
                }
            },
            Service::Removed(name) => {
                if self.is_own(name.as_str()) {
                    None
                } else {
                    Some(DiscoveryEvent::Lost { instance: name })
                }
            },
            Service::Progress => None,
        }
    }

    fn is_own(&self, name: &str) -> (b: bool)
        ensures
            b == (self.advertised is Some && self.advertised->0@ == name@),
    {
        match &self.advertised {
            Some(own) => text::same(own.as_str(), name),
            None => false,
        }
    }
}

// ---------------------------------------------------------------- watching for a while
/// Whether an advertisement claims an id. It carries the short form only, so that is what
/// can be compared.
pub open spec fn claims_id(peer: DiscoveredPeer, id: PeerId) -> bool {
    peer.advertised_peer_id is Some && peer.advertised_peer_id->0.short() == id.short()
}

/// Peers without those of one instance.
pub open spec fn without_instance(seen: Seq<DiscoveredPeer>, instance: Seq<char>) -> Seq<DiscoveredPeer>
    decreases seen.len(),
{
    if seen.len() == 0 {
        Seq::empty()
    } else {
        let rest = without_instance(seen.drop_last(), instance);
        if seen.last().instance@ == instance {
            rest
        } else {
            rest.push(seen.last())
        }
    }
}

/// Whether a peer of this instance has been seen.
pub open spec fn seen_instance(seen: Seq<DiscoveredPeer>, instance: Seq<char>) -> bool {
    exists|i: int| 0 <= i < seen.len() && (#[trigger] seen[i]).instance@ == instance
}

/// The peers seen, after one more event. This machine's own advertisement is left out, and
/// so is an update of a peer that is there already.
pub open spec fn collected(seen: Seq<DiscoveredPeer>, event: DiscoveryEvent, own: PeerId) -> Seq<
    DiscoveredPeer,
> {
    match event {
        DiscoveryEvent::Found(peer) => if claims_id(peer, own) || seen_instance(
            seen,
            peer.instance@,
        ) {
            seen
        } else {
            seen.push(peer)
        },
        DiscoveryEvent::Lost { instance } => without_instance(seen, instance@),
    }
}

/// Take note of an event while watching for peers; says whether a peer was added.
pub fn collect(seen: &mut Vec<DiscoveredPeer>, event: DiscoveryEvent, own: PeerId) -> (new: bool)
    ensures
        final(seen)@ == collected(old(seen)@, event, own),
        new == (final(seen)@.len() > old(seen)@.len()),
{
    match event {
        DiscoveryEvent::Found(peer) => {
            let mine = match &peer.advertised_peer_id {
                Some(id) => {
                    let claimed = id.to_short_string();
                    let short = own.to_short_string();
                    text::same(claimed.as_str(), short.as_str())
                },
                None => false,
            };
            if mine {
                return false;
            }
            let mut i: usize = 0;
            while i < seen.len()
                invariant
                    i <= seen@.len(),
                    seen@ == old(seen)@,
                    event == DiscoveryEvent::Found(peer),
                    forall|k: int| 0 <= k < i ==> (#[trigger] seen@[k]).instance@ != peer.instance@,
                decreases seen.len() - i,
            {
                if text::same(seen[i].instance.as_str(), peer.instance.as_str()) {
                    proof {
                        assert(seen@[i as int].instance@ == peer.instance@);
                        assert(seen_instance(seen@, peer.instance@));
                    }
                    return false;
                }
                i = i + 1;
            }
            seen.push(peer);
            true
        },
        DiscoveryEvent::Lost { instance } => {
            let mut i: usize = 0;
            let ghost all = seen@;
            let ghost mut read: int = 0;
            proof {
                assert(without_instance(all.take(0), instance@) =~= seen@.take(0));
                assert(all.skip(0) =~= seen@.skip(0));
            }
            while i < seen.len()
                invariant
                    i <= seen@.len(),
                    0 <= read <= all.len(),
                    seen@.take(i as int) == without_instance(all.take(read), instance@),
                    seen@.skip(i as int) == all.skip(read),
                    seen@.len() <= all.len(),
                    all == old(seen)@,
                decreases seen.len() - i,
            {
                let ghost here = seen@;
                proof {
                    assert(here.skip(i as int).len() == all.skip(read).len());
                    assert(here[i as int] == here.skip(i as int)[0]);
                    assert(all[read] == all.skip(read)[0]);
                    assert(all.take(read + 1).drop_last() =~= all.take(read));
                    assert(all.take(read + 1).last() == here[i as int]);
                    assert(all.skip(read).skip(1) =~= all.skip(read + 1));
                }
                if text::same(seen[i].instance.as_str(), instance.as_str()) {
                    seen.remove(i);
                    proof {
                        assert(seen@.take(i as int) =~= here.take(i as int));
                        assert(seen@.skip(i as int) =~= here.skip(i as int).skip(1));
                    }
                } else {
                    i = i + 1;
                    proof {
                        assert(seen@.take(i as int) =~= here.take(i - 1).push(here[i - 1]));
                        assert(seen@.skip(i as int) =~= here.skip(i - 1).skip(1));
                    }
                }
                proof {
                    read = read + 1;
                }
            }
            proof {
                assert(all.skip(read).len() == 0);
                assert(all.take(read) =~= all);
                assert(seen@.take(i as int) =~= seen@);
            }
            false
        },
    }
}

// ---------------------------------------------------------------- this machine's addresses
/// Addresses, with one more where it is not there yet.
pub open spec fn with_address(found: Seq<Ip>, ip: Ip) -> Seq<Ip> {
    if found.contains(ip) {
        found
    } else {
        found.push(ip)
    }
}

/// Take note of an address this machine has, once.
pub fn note_address(found: &mut Vec<Ip>, ip: Ip)
    ensures
        final(found)@ == with_address(old(found)@, ip),
{
    let mut i: usize = 0;
    while i < found.len()
        invariant
            i <= found@.len(),
            found@ == old(found)@,
            forall|k: int| 0 <= k < i ==> found@[k] != ip,
        decreases found.len() - i,
    {
        if found[i].same(&ip) {
            return ;
        }
        i = i + 1;
    }
    found.push(ip);
}

/// Take note of an address this machine can be reached on, once. Announcing what the routing
/// table says is reachable is the only version that a peer can act on.
pub fn note_reachable(found: &mut Vec<Ip>, ip: Ip)
    ensures
        final(found)@ == if ip.routable() {
            with_address(old(found)@, ip)
        } else {
            old(found)@
        },
{
    if is_routable(ip) {
        note_address(found, ip);
    }
}

/// Whether an address is one to show to another machine: not loopback and not unspecified.
pub open spec fn worth_showing(ip: Ip) -> bool {
    match ip {
        Ip::V4(o) => o@[0] != 127 && !(o@[0] == 0 && o@[1] == 0 && o@[2] == 0 && o@[3] == 0),
        Ip::V6(s) => !(s@[0] == 0 && s@[1] == 0 && s@[2] == 0 && s@[3] == 0 && s@[4] == 0 && s@[5]
            == 0 && s@[6] == 0 && s@[7] <= 1),
    }
}

/// Whether an address is one to show to another machine.
pub fn is_shown(ip: Ip) -> (b: bool)
    ensures
        b == worth_showing(ip),
{
    match ip {
        Ip::V4(o) => o[0] != 127 && !(o[0] == 0 && o[1] == 0 && o[2] == 0 && o[3] == 0),
        Ip::V6(s) => !(s[0] == 0 && s[1] == 0 && s[2] == 0 && s[3] == 0 && s[4] == 0 && s[5] == 0
            && s[6] == 0 && s[7] <= 1),
    }
}

// ---------------------------------------------------------------- what these mean
/// Loopback, link-local and unspecified addresses are not dialled; any other is. What is
/// dialled is also shown, and of the rest only link-local ones are.
pub proof fn what_is_dialled_can_be_reached(ip: Ip)
    ensures
        match ip {
            Ip::V4(o) => {
                &&& o@[0] == 127 ==> !ip.routable() && !worth_showing(ip)
                &&& o@[0] == 169 && o@[1] == 254 ==> !ip.routable() && worth_showing(ip)
                &&& (o@ == seq![0u8, 0, 0, 0]) ==> !ip.routable() && !worth_showing(ip)
                &&& o@[0] != 127 && o@[0] != 169 && o@[0] != 0 ==> ip.routable()
                &&& o@[0] == 169 && o@[1] != 254 ==> ip.routable()
            },
            Ip::V6(s) => {
                &&& 0xfe80 <= s@[0] <= 0xfebf ==> !ip.routable() && worth_showing(ip)
                &&& s@ == seq![0u16, 0, 0, 0, 0, 0, 0, 0] ==> !ip.routable() && !worth_showing(ip)
                &&& s@ == seq![0u16, 0, 0, 0, 0, 0, 0, 1] ==> !ip.routable() && !worth_showing(ip)
                &&& 0 < s@[0] < 0xfe80 || s@[0] > 0xfebf ==> ip.routable()
            },
        },
        ip.routable() ==> worth_showing(ip),
{
}

/// Texts are ordered by the first character in which they differ, and one that ends before
/// any does comes first.
pub proof fn texts_differ_where_they_first_do(a: Seq<char>, b: Seq<char>, i: int)
    requires
        0 <= i <= a.len(),
        i <= b.len(),
        a.take(i) == b.take(i),
    ensures
        i < a.len() && i < b.len() && a[i] != b[i] ==> not_after(a, b) == (a[i] < b[i]),
        i == a.len() ==> not_after(a, b),
        i == b.len() && i < a.len() ==> !not_after(a, b),
    decreases i,
{
    if i > 0 {
        assert(a[0] == a.take(i)[0] && b[0] == b.take(i)[0]);
        assert(a.skip(1).take(i - 1) =~= a.take(i).skip(1));
        assert(b.skip(1).take(i - 1) =~= b.take(i).skip(1));
        texts_differ_where_they_first_do(a.skip(1), b.skip(1), i - 1);
    }
}

/// The addresses to try: each routable one once and no other, no IPv6 address before an IPv4
/// one, and those of one family in the order of their texts.
pub proof fn addresses_are_tried_so(given: Seq<Address>, kept: Seq<Address>, i: int, j: int)
    requires
        dialable(given, kept),
        0 <= i < j < kept.len(),
    ensures
        kept[i].ip != kept[j].ip,
        kept[j].ip is V4 ==> kept[i].ip is V4,
        (kept[i].ip is V4) == (kept[j].ip is V4) ==> not_after(kept[i].text@, kept[j].text@),
{
}

/// An address is among those to try just where it is routable and was given.
pub proof fn no_routable_address_is_lost(given: Seq<Address>, kept: Seq<Address>, ip: Ip)
    requires
        dialable(given, kept),
    ensures
        has_ip(kept, ip) <==> ip.routable() && has_ip(given, ip),
{
    if has_ip(kept, ip) {
        let i = choose|i: int| 0 <= i < kept.len() && (#[trigger] kept[i]).ip == ip;
        assert(given.contains(kept[i]));
        let k = choose|k: int| 0 <= k < given.len() && given[k] == kept[i];
        assert(given[k].ip == ip);
    }
    if ip.routable() && has_ip(given, ip) {
        let i = choose|i: int| 0 <= i < given.len() && (#[trigger] given[i]).ip == ip;
        assert(given[i].ip.routable());
    }
}

/// An advertisement is read part by part: the peer has its name, or without one the full
/// name; the full name tells it apart; and what is not claimed, or not in its form, is not
/// taken.
pub proof fn an_advertisement_is_read_part_by_part(advert: Advert, peer: DiscoveredPeer)
    requires
        resolved(advert, peer),
    ensures
        peer.instance@ == advert.fullname@,
        advert.name matches Some(n) ==> peer.name@ == n@,
        advert.name is None ==> peer.name@ == advert.fullname@,
        advert.id is None ==> peer.advertised_peer_id is None,
        advert.fingerprint is None ==> peer.advertised_fingerprint is None,
        advert.protocol is None ==> peer.advertised_protocol is None,
        peer.advertised_fingerprint is Some ==> advert.fingerprint is Some && text::unhex_of(
            advert.fingerprint->0@,
        ) == Some(peer.advertised_fingerprint->0@),
        peer.advertised_protocol is Some ==> advert.protocol is Some && text::number(
            advert.protocol->0@,
        ) == Some(peer.advertised_protocol->0 as nat),
{
}

/// What a machine announces is understood: the advertisement that carries its short id, its
/// fingerprint, the version and a name is read as claiming that id, that fingerprint, that
/// version and that name.
pub proof fn what_is_announced_is_understood(
    advert: Advert,
    peer: DiscoveredPeer,
    id: PeerId,
    fingerprint: Fingerprint,
    protocol: u16,
)
    requires
        resolved(advert, peer),
        advert.id is Some && advert.id->0@ == id.short(),
        advert.fingerprint is Some && advert.fingerprint->0@ == text::hex_of(fingerprint@),
        advert.protocol is Some && advert.protocol->0@ == text::decimal(protocol as nat),
    ensures
        peer.advertised_peer_id is Some && peer.advertised_peer_id->0.short() == id.short(),
        claims_id(peer, id),
        peer.advertised_fingerprint is Some && peer.advertised_fingerprint->0@ == fingerprint@,
        peer.advertised_protocol == Some(protocol),
{
    let start = id.0@.take(4);
    text::unhex_of_hex(start);
    let claimed = peer.advertised_peer_id->0;
    assert(claimed.0@.take(4) =~= start);
    advertised_fingerprint_round_trips(fingerprint);
    text::number_of_decimal(protocol as nat);
}

/// A machine never hears of itself: its own advertisement says nothing, coming or going, and
/// any other says who came or went.
pub proof fn a_machine_never_hears_of_itself(
    own: Option<Seq<char>>,
    advert: Advert,
    name: String,
    e: Option<DiscoveryEvent>,
)
    ensures
        own == Some(advert.fullname@) && told(own, Service::Resolved(advert), e) ==> e is None,
        own == Some(name@) && told(own, Service::Removed(name), e) ==> e is None,
        own != Some(advert.fullname@) && told(own, Service::Resolved(advert), e) ==> (e is Some
            && e->0 is Found && e->0->Found_0.instance@ == advert.fullname@),
        own != Some(name@) && told(own, Service::Removed(name), e) ==> (e is Some && e->0 is Lost
            && e->0->Lost_instance@ == name@),
        told(own, Service::Progress, e) ==> e is None,
{
}

/// A peer that is found is listed, once, unless it is this machine; one that is lost is
/// listed no longer; and nobody else comes or goes.
pub proof fn watching_lists_who_is_there(
    seen: Seq<DiscoveredPeer>,
    event: DiscoveryEvent,
    own: PeerId,
    instance: Seq<char>,
)
    ensures
        match event {
            DiscoveryEvent::Found(peer) => {
                let after = collected(seen, event, own);
                &&& claims_id(peer, own) ==> after == seen
                &&& !claims_id(peer, own) ==> seen_instance(after, peer.instance@)
                &&& instance != peer.instance@ ==> seen_instance(after, instance) == seen_instance(
                    seen,
                    instance,
                )
                &&& seen_instance(seen, peer.instance@) ==> after == seen
            },
            DiscoveryEvent::Lost { instance: gone } => {
                let after = collected(seen, event, own);
                &&& !seen_instance(after, gone@)
                &&& instance != gone@ ==> seen_instance(after, instance) == seen_instance(
                    seen,
                    instance,
                )
            },
        },
{
    match event {
        DiscoveryEvent::Found(peer) => {
            let all = seen.push(peer);
            assert(all[seen.len() as int].instance@ == peer.instance@);
            if seen_instance(seen, instance) {
                let k = choose|k: int|
                    0 <= k < seen.len() && (#[trigger] seen[k]).instance@ == instance;
                assert(all[k].instance@ == instance);
            }
            if seen_instance(all, instance) && instance != peer.instance@ {
                let k = choose|k: int|
                    0 <= k < all.len() && (#[trigger] all[k]).instance@ == instance;
                assert(seen[k].instance@ == instance);
            }
        },
        DiscoveryEvent::Lost { instance: gone } => {
            those_left(seen, gone@, instance);
            those_left(seen, gone@, gone@);
        },
    }
}

proof fn those_left(seen: Seq<DiscoveredPeer>, gone: Seq<char>, instance: Seq<char>)
    ensures
        seen_instance(without_instance(seen, gone), instance) <==> instance != gone
            && seen_instance(seen, instance),
    decreases seen.len(),
{
    if seen.len() > 0 {
        let front = seen.drop_last();
        let rest = without_instance(front, gone);
        let all = rest.push(seen.last());
        those_left(front, gone, instance);
        assert(seen[seen.len() - 1] == seen.last());
        if seen_instance(front, instance) {
            let k = choose|k: int|
                0 <= k < front.len() && (#[trigger] front[k]).instance@ == instance;
            assert(seen[k].instance@ == instance);
        }
        if seen_instance(seen, instance) && seen.last().instance@ != instance {
            let k = choose|k: int| 0 <= k < seen.len() && (#[trigger] seen[k]).instance@ == instance;
            assert(front[k].instance@ == instance);
        }
        assert(all[rest.len() as int] == seen.last());
        if seen_instance(rest, instance) {
            let k = choose|k: int| 0 <= k < rest.len() && (#[trigger] rest[k]).instance@ == instance;
            assert(all[k].instance@ == instance);
        }
        if seen_instance(all, instance) && seen.last().instance@ != instance {
            let k = choose|k: int| 0 <= k < all.len() && (#[trigger] all[k]).instance@ == instance;
            assert(rest[k].instance@ == instance);
        }
    }
}

/// A machine goes by its host name, without the domain of the local network; only where that
/// leaves nothing does it go by its id.
pub proof fn a_machine_goes_by_its_host_name(host: Seq<char>, id: PeerId)
    ensures
        host.len() > 0 && !text::finishes(host, ".local"@) ==> display_name(Some(host), id) == host,
        display_name(Some(host + ".local"@), id) == display_name(Some(host), id),
        display_name(Some(Seq::empty()), id) == "seam-"@ + id.short(),
        display_name(None, id) == "seam-"@ + id.short(),
{
    reveal_strlit(".local");
    text::stripping_takes_whole_repetitions(host, ".local"@);
    text::stripping_takes_whole_repetitions(Seq::empty(), ".local"@);
}

} // verus!
