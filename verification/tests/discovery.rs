use seam::discovery::{
    collect, is_routable, is_shown, note_address, note_reachable, parse_fingerprint,
    parse_peer_id_prefix, resolve, Address, Advert, DiscoveredPeer, Discovery, DiscoveryEvent, Ip,
    Service,
};
use seam::frame::PeerId;
use seam::identity::Identity;
use seam::text::{hex, unhex};
use seam::PROTOCOL_VERSION;

#[test]
fn hex_roundtrips() {
    let id = Identity::generate().unwrap();
    let text = hex(id.fingerprint().as_bytes());
    assert_eq!(text.len(), 64);
    assert_eq!(unhex(&text).unwrap(), id.fingerprint().as_bytes());
}

#[test]
fn malformed_hex_is_rejected_rather_than_guessed() {
    // These arrive from any device on the LAN, so they are untrusted input.
    for bad in ["abc", "zz", "ab cd", "0x1234", ""] {
        let parsed = unhex(bad);
        assert!(parsed.is_none() || bad.is_empty(), "{bad:?} should not parse");
    }
}

#[test]
fn an_advertised_fingerprint_roundtrips_but_is_only_a_claim() {
    let id = Identity::generate().unwrap();
    let advertised = parse_fingerprint(&hex(id.fingerprint().as_bytes())).unwrap();
    assert_eq!(advertised, id.fingerprint());

    let peer = DiscoveredPeer {
        advertised_peer_id: Some(id.peer_id()),
        advertised_fingerprint: Some(advertised),
        name: "claims to be us".into(),
        addresses: vec![],
        advertised_protocol: Some(PROTOCOL_VERSION),
        instance: "seam-x._seam._udp.local.".into(),
    };
    // It matches — and that still grants nothing. Trust comes from `Link::authorize`.
    assert!(peer.claims_to_be(id.fingerprint()));
    assert!(!peer.claims_to_be(Identity::generate().unwrap().fingerprint()));
}

#[test]
fn a_fingerprint_of_the_wrong_length_is_rejected() {
    assert!(parse_fingerprint(&hex(&[0u8; 31])).is_none());
    assert!(parse_fingerprint(&hex(&[0u8; 33])).is_none());
    assert!(parse_fingerprint(&hex(&[0u8; 32])).is_some());
}

#[test]
fn link_local_and_loopback_are_not_advertised_or_dialled() {
    // Observed for real: the first working build advertised only `fe80::` addresses,
    // so the record looked healthy and no peer could ever connect.
    assert!(!is_routable(Ip::V4([127, 0, 0, 1])));
    assert!(!is_routable(Ip::V6([0, 0, 0, 0, 0, 0, 0, 1])));
    assert!(!is_routable(Ip::V4([169, 254, 10, 1])));
    assert!(!is_routable(Ip::V6([0xfe80, 0, 0, 0, 0, 0, 0, 1])));
    assert!(!is_routable(Ip::V4([0, 0, 0, 0])));

    assert!(is_routable(Ip::V4([192, 168, 2, 69])));
    assert!(is_routable(Ip::V4([10, 0, 0, 5])));
    assert!(is_routable(Ip::V6([0x2001, 0xdb8, 0, 0, 0, 0, 0, 1])));
}

#[test]
fn display_name_falls_back_without_asking() {
    // An unreadable hostname must never turn into a prompt.
    let name = Discovery::default_display_name(None, PeerId([0xAB; 16]));
    assert!(!name.is_empty());
}

fn address(ip: Ip, text: &str) -> Address {
    Address { ip, text: text.into() }
}

fn advert(addresses: Vec<Address>) -> Advert {
    Advert {
        addresses,
        id: Some("abababababababab".into()),
        fingerprint: Some(hex(&[0xAB; 32])),
        protocol: Some("2".into()),
        name: Some("desk".into()),
        fullname: "seam-desk._seam._udp.local.".into(),
    }
}

#[test]
fn addresses_to_dial_are_routable_unique_and_ipv4_first() {
    let v6 = Ip::V6([0x2001, 0xdb8, 0, 0, 0, 0, 0, 1]);
    let peer = resolve(advert(vec![
        address(v6, "[2001:db8::1]:5"),
        address(Ip::V4([192, 168, 2, 9]), "192.168.2.9:5"),
        address(Ip::V4([127, 0, 0, 1]), "127.0.0.1:5"),
        address(Ip::V4([10, 0, 0, 5]), "10.0.0.5:5"),
        address(Ip::V4([192, 168, 2, 9]), "192.168.2.9:5"),
    ]));
    let order: Vec<&str> = peer.addresses.iter().map(|a| a.text.as_str()).collect();
    assert_eq!(order, ["10.0.0.5:5", "192.168.2.9:5", "[2001:db8::1]:5"]);
    assert_eq!(peer.advertised_protocol, Some(2));
    assert_eq!(peer.name, "desk");
    assert_eq!(peer.advertised_fingerprint, parse_fingerprint(&hex(&[0xAB; 32])));
    assert_eq!(peer.instance, "seam-desk._seam._udp.local.");
}

#[test]
fn an_advertisement_that_says_nothing_claims_nothing() {
    let peer = resolve(Advert {
        addresses: vec![],
        id: Some("not hex".into()),
        fingerprint: None,
        protocol: Some("70000".into()),
        name: None,
        fullname: "x".into(),
    });
    assert_eq!(peer.advertised_peer_id, None);
    assert_eq!(peer.advertised_fingerprint, None);
    assert_eq!(peer.advertised_protocol, None);
    assert!(peer.addresses.is_empty());
}

#[test]
fn what_is_advertised_reads_back() {
    let id = Identity::generate().unwrap();
    let a = Discovery::advertise("desk", id.peer_id(), id.fingerprint());
    assert_eq!(parse_fingerprint(&a.fingerprint), Some(id.fingerprint()));
    let short = parse_peer_id_prefix(&a.id).unwrap();
    assert_eq!(short.to_short_string(), id.peer_id().to_short_string());
    assert_eq!(a.protocol, PROTOCOL_VERSION.to_string());
    assert_eq!(a.name, "desk");
}

#[test]
fn a_machine_does_not_find_itself() {
    let own = PeerId([0xAB; 16]);
    let mut seen = Vec::new();
    let found = |id: u8, instance: &str| {
        let mut peer = resolve(advert(vec![]));
        peer.advertised_peer_id = Some(PeerId([id; 16]));
        peer.instance = instance.into();
        DiscoveryEvent::Found(peer)
    };
    assert!(!collect(&mut seen, found(0xAB, "me"), own));
    assert!(seen.is_empty());
    assert!(collect(&mut seen, found(0x11, "one"), own));
    assert!(!collect(&mut seen, found(0x11, "one"), own), "an update is not a second machine");
    assert!(collect(&mut seen, found(0x22, "two"), own));
    assert_eq!(seen.len(), 2);
    assert!(!collect(&mut seen, DiscoveryEvent::Lost { instance: "one".into() }, own));
    assert_eq!(seen.len(), 1);
    assert_eq!(seen[0].instance, "two");
}

#[test]
fn only_services_that_say_something_become_events() {
    let d = Discovery::new();
    assert_eq!(d.event(Service::Progress), None);
    assert_eq!(
        d.event(Service::Removed("gone".into())),
        Some(DiscoveryEvent::Lost { instance: "gone".into() })
    );
    let found = d.event(Service::Resolved(advert(vec![])));
    assert_eq!(found, Some(DiscoveryEvent::Found(resolve(advert(vec![])))));
}

#[test]
fn own_addresses_are_noted_once_and_shown_when_useful() {
    let mut found = Vec::new();
    note_reachable(&mut found, Ip::V4([10, 0, 0, 5]));
    note_reachable(&mut found, Ip::V4([10, 0, 0, 5]));
    note_reachable(&mut found, Ip::V4([127, 0, 0, 1]));
    assert_eq!(found, [Ip::V4([10, 0, 0, 5])]);
    note_address(&mut found, Ip::V4([127, 0, 0, 1]));
    note_address(&mut found, Ip::V4([127, 0, 0, 1]));
    assert_eq!(found.len(), 2);
    assert!(!is_shown(Ip::V4([127, 0, 0, 1])));
    assert!(!is_shown(Ip::V6([0; 8])));
    assert!(is_shown(Ip::V4([192, 168, 0, 2])));
}

#[test]
fn a_host_name_becomes_the_display_name() {
    let id = PeerId([0xAB; 16]);
    assert_eq!(Discovery::default_display_name(Some("desk.local"), id), "desk");
    assert_eq!(Discovery::default_display_name(Some("desk"), id), "desk");
    assert_eq!(
        Discovery::default_display_name(None, id),
        format!("seam-{}", id.to_short_string())
    );
}
