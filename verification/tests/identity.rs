use seam::identity::{certificate_name, Fingerprint, Identity, Trust, TrustStore};
use seam::transport::Error;
use sha2::{Digest, Sha256};

#[test]
fn generated_identities_are_distinct() {
    let a = Identity::generate().unwrap();
    let b = Identity::generate().unwrap();
    assert_ne!(a.fingerprint(), b.fingerprint());
    assert_ne!(a.peer_id(), b.peer_id());
}

#[test]
fn peer_id_is_derived_deterministically_from_the_key() {
    let id = Identity::generate().unwrap();
    // Same key in, same identity out — no stored id, nothing to drift.
    let reloaded =
        Identity::from_der(id.certificate_der().to_vec(), id.private_key_der().to_vec())
            .unwrap();
    assert_eq!(reloaded.fingerprint(), id.fingerprint());
    assert_eq!(reloaded.peer_id(), id.peer_id());
}

#[test]
fn fingerprint_is_bound_to_the_public_key() {
    let a = Identity::generate().unwrap();
    assert_eq!(Fingerprint::of_spki(a.spki_der()), a.fingerprint());
    assert_ne!(Fingerprint::of_spki(b"not the key"), a.fingerprint());
}

#[test]
fn peer_id_is_the_fingerprint_prefix() {
    let fp = Fingerprint::of_spki(b"example");
    assert_eq!(fp.peer_id().0, fp.as_bytes()[..16]);
}

#[test]
fn trust_store_recognises_a_paired_peer() {
    let peer = Identity::generate().unwrap();
    let mut store = TrustStore::new();
    assert_eq!(store.classify(peer.fingerprint()), Trust::Unknown);

    store.trust(peer.fingerprint(), "Mac-mini");
    assert_eq!(store.classify(peer.fingerprint()), Trust::Trusted);
    assert!(store.is_trusted(peer.fingerprint()));
    assert_eq!(store.get(peer.peer_id()).unwrap().name, "Mac-mini");
}

#[test]
fn renaming_a_machine_never_breaks_a_pairing() {
    // Names are cosmetic.
    let peer = Identity::generate().unwrap();
    let mut store = TrustStore::new();
    store.trust(peer.fingerprint(), "old-name");
    store.trust(peer.fingerprint(), "totally-different-name");
    assert!(store.is_trusted(peer.fingerprint()));
    assert_eq!(store.len(), 1, "a rename must not create a second entry");
}

#[test]
fn a_different_key_claiming_a_known_id_is_a_conflict_not_a_silent_repin() {
    let real = Identity::generate().unwrap();
    let mut store = TrustStore::new();
    store.trust(real.fingerprint(), "peer");

    // Forge a fingerprint that shares the id prefix but differs in the tail — the
    // shape an impersonation attempt would take.
    let mut forged_bytes = *real.fingerprint().as_bytes();
    forged_bytes[31] ^= 0xFF;
    let forged = Fingerprint::from_bytes(forged_bytes);

    assert_eq!(forged.peer_id(), real.peer_id(), "test setup: ids must collide");
    assert_ne!(forged, real.fingerprint());
    assert_eq!(store.classify(forged), Trust::Conflict);
    assert!(!store.is_trusted(forged), "an impostor must never be trusted");
}

#[test]
fn forgetting_a_peer_revokes_it() {
    let peer = Identity::generate().unwrap();
    let mut store = TrustStore::new();
    store.trust(peer.fingerprint(), "peer");
    assert!(store.forget(peer.peer_id()).is_some());
    assert_eq!(store.classify(peer.fingerprint()), Trust::Unknown);
    assert!(store.is_empty());
}

#[test]
fn debug_never_leaks_the_private_key() {
    let id = Identity::generate().unwrap();
    let rendered = id.describe();
    let key_hex: String = id.private_key_der().iter().map(|b| format!("{b:02x}")).collect();
    assert!(!rendered.contains(&key_hex));
    assert!(rendered.contains("Fingerprint"));
}

#[test]
fn grouped_hex_is_readable_and_complete() {
    let fp = Fingerprint::of_spki(b"example");
    let text = fp.to_grouped_hex();
    assert_eq!(text.replace(' ', "").len(), 64);
    assert_eq!(text.split(' ').count(), 16);
}

#[test]
fn a_fingerprint_is_the_sha_256_of_the_public_key() {
    let expected: [u8; 32] = Sha256::digest(b"seam-peer-spki-v1example").into();
    assert_eq!(Fingerprint::of_spki(b"example").as_bytes(), &expected);
    let id = Identity::generate().unwrap();
    assert_eq!(Fingerprint::of_certificate(id.certificate_der()), Some(id.fingerprint()));
    assert_eq!(Fingerprint::of_certificate(b"no certificate"), None);
}

#[test]
fn unusable_key_material_is_refused() {
    let id = Identity::generate().unwrap();
    let refused = Identity::from_der(id.certificate_der().to_vec(), vec![1, 2, 3]);
    let text = match refused {
        Err(Error::Identity(why)) => why,
        _ => panic!("a key that cannot be read must be refused"),
    };
    assert!(text.starts_with("stored private key is unusable: "), "{text}");
}

#[test]
fn trusting_again_hands_back_what_was_replaced() {
    let fp = Fingerprint::of_spki(b"one");
    let other = Fingerprint::of_spki(b"two");
    let mut store = TrustStore::new();
    assert!(store.trust(fp, "first").is_none());
    assert_eq!(store.trust(fp, "second").unwrap().name, "first");
    assert!(store.trust(other, "other").is_none());
    assert_eq!(store.len(), 2);
    assert_eq!(store.iter().len(), 2);
    assert!(store.forget(Fingerprint::of_spki(b"three").peer_id()).is_none());
    assert_eq!(store.get(fp.peer_id()).unwrap().name, "second");
    assert!(!store.is_empty());
}

#[test]
fn what_was_made_is_the_identity() {
    assert_eq!(certificate_name(), "seam.invalid");
    let id = Identity::made(Ok((vec![1], vec![2, 3], b"example".to_vec()))).unwrap();
    assert_eq!(id.certificate_der(), [1]);
    assert_eq!(id.private_key_der(), [2, 3]);
    assert_eq!(id.spki_der(), b"example");
    assert_eq!(id.fingerprint(), Fingerprint::of_spki(b"example"));
    let refused = Identity::made(Err("no randomness".into()));
    assert!(matches!(refused, Err(Error::Identity(why)) if why == "no randomness"));
}

#[test]
fn stored_credentials_are_who_the_certificate_says() {
    let id = Identity::generate().unwrap();
    let cert = id.certificate_der().to_vec();
    let back = Identity::restored(cert.clone(), vec![9], Ok(b"other".to_vec())).unwrap();
    assert_eq!(back.fingerprint(), id.fingerprint());
    let own = Identity::restored(vec![0], vec![9], Ok(b"other".to_vec())).unwrap();
    assert_eq!(own.fingerprint(), Fingerprint::of_spki(b"other"));
    let refused = Identity::restored(cert, vec![9], Err("torn".into()));
    assert!(
        matches!(refused, Err(Error::Identity(why)) if why == "stored private key is unusable: torn")
    );
}

#[test]
fn a_log_shows_the_start_of_a_fingerprint() {
    let fp = Fingerprint::from_bytes([0xab; 32]);
    assert_eq!(fp.describe(), "Fingerprint(abababab…)");
    let id = Identity::generate().unwrap();
    assert_eq!(
        id.describe(),
        format!("Identity {{ fingerprint: {}, .. }}", id.fingerprint().describe())
    );
}
