use seam::event::{Button, ButtonEvent, KeyEvent, Motion, Point, Press};
use seam::frame::Frame;
use seam::identity::{Identity, TrustStore};
use seam::keys::{LogicalText, Modifiers, PhysicalKey};
use seam::transport::{
    is_address_in_use, recv_datagram, recv_reliable, send_datagram, send_reliable, Error, Link,
};

fn link_to(identity: &Identity) -> Link {
    Link::from_certificate(Some(identity.certificate_der())).expect("a real certificate")
}

#[test]
fn two_peers_handshake_and_learn_each_others_identity() {
    // The identity comes from the certificate the peer proved it holds.
    let listener = Identity::generate().unwrap();
    let dialler = Identity::generate().unwrap();
    let inbound = link_to(&dialler);
    let outbound = link_to(&listener);
    assert_eq!(inbound.peer_fingerprint(), dialler.fingerprint());
    assert_eq!(outbound.peer_fingerprint(), listener.fingerprint());
    assert_eq!(inbound.peer_id(), dialler.peer_id());
    assert_eq!(outbound.peer_id(), listener.peer_id());
}

#[test]
fn both_sides_derive_the_same_pairing_code() {
    let here = Link::pairing_code(Some([9; 32])).expect("derive code on listener");
    let there = Link::pairing_code(Some([9; 32])).expect("derive code on dialler");
    assert_eq!(here, there, "a direct connection must show the same code on both machines");
    assert!(here.value() < 1_000_000);
    assert_eq!(here.to_display_string().replace(' ', "").len(), 6);
}

#[test]
fn an_unpaired_peer_is_refused_with_an_actionable_reason() {
    let inbound = link_to(&Identity::generate().unwrap());

    let empty = TrustStore::new();
    let refused = inbound.authorize(&empty).expect_err("an unpaired peer must be refused");

    assert!(matches!(refused, Error::NotPaired));
    // The message must name the cause and the fix, not say "connection failed".
    let text = refused.describe();
    assert!(text.contains("not paired"), "unhelpful message: {text}");
    assert!(text.contains("6-digit code"), "message must say what to do: {text}");
}

#[test]
fn a_paired_peer_is_accepted() {
    let listener = Identity::generate().unwrap();
    let dialler = Identity::generate().unwrap();

    let mut on_listener = TrustStore::new();
    on_listener.trust(dialler.fingerprint(), "dialler");
    let mut on_dialler = TrustStore::new();
    on_dialler.trust(listener.fingerprint(), "listener");

    assert!(link_to(&dialler).authorize(&on_listener).is_ok());
    assert!(link_to(&listener).authorize(&on_dialler).is_ok());
}

#[test]
fn a_peer_whose_key_changed_is_a_conflict_not_a_silent_repin() {
    let dialler = Identity::generate().unwrap();
    let inbound = link_to(&dialler);

    let mut store = TrustStore::new();
    store.trust(dialler.fingerprint(), "dialler");
    assert!(inbound.authorize(&store).is_ok());

    // Now forget and re-trust an unrelated identity, so the presented key is unknown.
    store.forget(dialler.peer_id());
    let stranger = Identity::generate().unwrap();
    store.trust(stranger.fingerprint(), "someone else");
    assert!(matches!(inbound.authorize(&store), Err(Error::NotPaired)));
}

#[test]
fn a_mismatched_pair_loads_as_who_its_certificate_says() {
    let victim = Identity::generate().unwrap();
    let impostor_key = Identity::generate().unwrap();

    let forged = Identity::from_der(
        victim.certificate_der().to_vec(),
        impostor_key.private_key_der().to_vec(),
    )
    .expect("a mismatched pair is well-formed enough to load");

    // It even *claims* the victim's identity, because the fingerprint is over the
    // certificate; only the handshake signature can tell the two apart.
    assert_eq!(forged.fingerprint(), victim.fingerprint());
    assert_ne!(forged.private_key_der(), victim.private_key_der());
}

#[test]
fn motion_travels_as_an_unreliable_datagram() {
    let sent = Frame::Motion(Motion {
        seq: 7,
        cursor: Point::from_px(1280, 540),
        travel_x: -42,
        travel_y: 99,
    });
    let bytes = send_datagram(&sent).expect("send motion");
    let received = recv_datagram(&bytes).expect("decode motion");
    assert_eq!(received, sent);
}

#[test]
fn non_motion_frames_are_refused_on_the_datagram_path() {
    // Enforced, not merely documented: sending a key event unreliably means a dropped
    // key-up, which is a stuck modifier.
    for frame in [
        Frame::Key(KeyEvent {
            seq: 1,
            physical: PhysicalKey::a(),
            logical: LogicalText::from_char('a'),
            press: Press::Up,
            modifiers: Modifiers::none(),
        }),
        Frame::Button(ButtonEvent {
            seq: 2,
            button: Button::Left,
            press: Press::Up,
            modifiers: Modifiers::none(),
        }),
        Frame::Leave { seq: 3 },
        Frame::ReleaseAll { seq: 4 },
    ] {
        let refused = send_datagram(&frame).expect_err("must be refused");
        assert!(matches!(refused, Error::NotDatagramSafe), "{frame:?} was allowed");
    }
}

#[test]
fn key_events_travel_reliably_and_round_trip_exactly() {
    // A Persian character with AltGr held: the case that motivates carrying both key
    // identities, and one that must survive the wire byte for byte.
    let sent = Frame::Key(KeyEvent {
        seq: 11,
        physical: PhysicalKey(0x07),
        logical: LogicalText::new("ی").unwrap(),
        press: Press::Down,
        modifiers: Modifiers::right_alt(),
    });
    let bytes = send_reliable(&sent).expect("send key");
    let received = recv_reliable(&bytes).expect("decode key event");
    assert_eq!(received, sent);
}

#[test]
fn a_peer_without_a_readable_certificate_is_nobody() {
    assert!(matches!(Link::from_certificate(None), Err(Error::NoPeerCertificate)));
    assert!(Link::from_certificate(Some(b"junk")).is_err());
}

#[test]
fn a_known_machine_with_another_key_is_a_conflict() {
    let real = Identity::generate().unwrap();
    let mut store = TrustStore::new();
    store.trust(real.fingerprint(), "desk");
    let mut raw = *real.fingerprint().as_bytes();
    raw[31] ^= 1;
    let forged = Link::to(seam::identity::Fingerprint::from_bytes(raw));
    assert!(matches!(forged.authorize(&store), Err(Error::IdentityConflict)));
}

#[test]
fn a_connection_without_keying_material_has_no_code() {
    let text = Link::pairing_code(None).unwrap_err().describe();
    assert_eq!(
        text,
        "could not set up the encrypted connection: connection is not ready to derive a pairing code"
    );
}

#[test]
fn a_datagram_that_is_too_large_or_garbled_is_refused() {
    let text = recv_datagram(&[0; 513]).unwrap_err().describe();
    assert!(text.contains("datagram of 513 bytes is oversized"), "{text}");
    assert!(matches!(recv_datagram(&[]), Err(Error::Protocol(seam::Error::Truncated))));
    assert!(matches!(recv_datagram(&[0xEE]), Err(Error::Protocol(_))));
}

#[test]
fn a_stream_that_ends_inside_a_frame_is_refused() {
    let bytes = send_reliable(&Frame::Leave { seq: 3 }).unwrap();
    assert_eq!(recv_reliable(&bytes).unwrap(), Frame::Leave { seq: 3 });
    let text = recv_reliable(&bytes[..bytes.len() - 1]).unwrap_err().describe();
    assert_eq!(text, "could not receive from the peer: stream ended mid-frame");
}

#[test]
fn only_a_taken_port_counts_as_in_use() {
    let bind = |reason: &str| Error::Bind { addr: "0.0.0.0:1".into(), reason: reason.into() };
    assert!(is_address_in_use(&bind("Address already in use (os error 98)")));
    assert!(is_address_in_use(&bind("refused (os error 48)")));
    assert!(is_address_in_use(&bind("only one usage of each socket address (10048)")));
    assert!(!is_address_in_use(&bind("permission denied (os error 13)")));
    assert_eq!(bind("x").describe(), "could not bind to 0.0.0.0:1: x");
}

#[test]
fn every_failure_names_its_cause() {
    let s = || "why".to_string();
    assert_eq!(
        Error::Identity(s()).describe(),
        "could not create this machine's identity key: why"
    );
    assert_eq!(
        Error::PairingCodeMismatch { ours: "1".into(), theirs: "2".into() }.describe(),
        "the pairing codes did not match (1 here, 2 on the peer) — someone may be intercepting \
         the connection, so pairing was refused"
    );
    assert!(Error::IdentityConflict.describe().contains("identity has changed"));
    assert_eq!(
        Error::Protocol(seam::Error::BadMagic).describe(),
        "the peer speaks a different version of the seam protocol: stream did not begin with \
         the seam magic bytes"
    );
    assert_eq!(Error::Tls(s()).describe(), "could not set up the encrypted connection: why");
    assert_eq!(
        Error::Connect { addr: "a".into(), reason: s() }.describe(),
        "could not reach the peer at a: why"
    );
    assert_eq!(
        Error::Handshake { addr: "a".into(), reason: s() }.describe(),
        "the handshake with a failed: why"
    );
    assert!(Error::NoPeerCertificate.describe().contains("no certificate"));
    assert!(Error::NotDatagramSafe.describe().contains("only pointer motion"));
    assert_eq!(Error::Send(s()).describe(), "could not send to the peer: why");
    assert_eq!(Error::Recv(s()).describe(), "could not receive from the peer: why");
    assert_eq!(Error::Discovery(s()).describe(), "could not use network discovery: why");
}
