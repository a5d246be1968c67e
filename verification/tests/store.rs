use seam::identity::{Identity, TrustStore};
use seam::clipboard::Shares;
use seam::frame::PeerId;
use seam::identity::Fingerprint;
use seam::store::{
    comma_list, load_peers, load_settings, pairing_order, resolve_peer, save_pairing_order,
    save_peers, save_settings, LookupError, Settings,
};

#[test]
fn peers_round_trip_through_disk() {
    let a = Identity::generate().unwrap();
    let b = Identity::generate().unwrap();

    let mut store = TrustStore::new();
    store.trust(a.fingerprint(), "Mac-mini");
    store.trust(b.fingerprint(), "amor");
    let file = save_peers(&store);

    let (loaded, unreadable) = load_peers(&file);
    assert_eq!(loaded.len(), 2);
    assert!(loaded.is_trusted(a.fingerprint()));
    assert!(loaded.is_trusted(b.fingerprint()));
    assert_eq!(loaded.get(a.peer_id()).unwrap().name, "Mac-mini");
    assert!(unreadable.is_empty());
}

#[test]
fn a_corrupt_line_is_skipped_rather_than_failing_the_whole_file() {
    let good = Identity::generate().unwrap();
    let file = format!(
        "# comment\n\nnot-a-fingerprint some-name\n{} good-peer\n",
        good.fingerprint().to_grouped_hex().replace(' ', "")
    );

    let (loaded, unreadable) = load_peers(&file);
    assert_eq!(loaded.len(), 1, "the readable entry must survive");
    assert!(loaded.is_trusted(good.fingerprint()));
    assert_eq!(unreadable.len(), 1);
}

#[test]
fn missing_peers_file_is_an_empty_store_not_an_error() {
    // First run must never fail because state does not exist yet.
    let (loaded, unreadable) = load_peers("");
    assert!(loaded.is_empty());
    assert!(unreadable.is_empty());
}

#[test]
fn peer_lookup_accepts_a_name_or_an_id_prefix() {
    let id = Identity::generate().unwrap();
    let mut store = TrustStore::new();
    store.trust(id.fingerprint(), "Mac-mini");

    assert_eq!(resolve_peer(&store, "Mac-mini").unwrap(), id.fingerprint());
    assert_eq!(resolve_peer(&store, "mac-mini").unwrap(), id.fingerprint());
    assert_eq!(resolve_peer(&store, &id.peer_id().to_short_string()).unwrap(), id.fingerprint());
    assert!(resolve_peer(&store, "nonexistent").is_err());
}

#[test]
fn an_ambiguous_reference_is_refused_rather_than_guessed() {
    let mut store = TrustStore::new();
    for _ in 0..2 {
        store.trust(Identity::generate().unwrap().fingerprint(), "duplicate");
    }
    let err = resolve_peer(&store, "duplicate").unwrap_err().describe("duplicate");
    assert!(err.contains("more than one"), "{err}");
}

#[test]
fn unreadable_lines_are_named() {
    let fp = "ab".repeat(32);
    let (store, bad) = load_peers(&format!("x y\n{fp} desk one\n# c\n{fp}00 z\n"));
    assert_eq!(store.len(), 1);
    assert_eq!(bad.len(), 2);
    let entry = store.get(Fingerprint::from_bytes([0xAB; 32]).peer_id()).unwrap();
    assert_eq!(entry.name, "desk one");
}

#[test]
fn a_lookup_that_fails_says_what_to_do() {
    let mut store = TrustStore::new();
    store.trust(Fingerprint::from_bytes([1; 32]), "Twin");
    store.trust(Fingerprint::from_bytes([2; 32]), "twin");
    let Err(LookupError::Ambiguous(names)) = resolve_peer(&store, "TWIN") else {
        panic!("two machines of that name");
    };
    assert_eq!(names.len(), 2);
    assert_eq!(
        resolve_peer(&store, "no\"body").unwrap_err().describe("no\"body"),
        "no paired peer matches \"no\\\"body\". Run `seam peers` to see the list."
    );
    assert_eq!(resolve_peer(&store, "0202").unwrap(), Fingerprint::from_bytes([2; 32]));
    assert_eq!(comma_list(&vec!["a".into(), "b".into()]), "a, b");
}

#[test]
fn settings_survive_the_disk() {
    let settings = Settings {
        disabled_peers: vec![PeerId([3; 16]), PeerId([0xFE; 16])],
        shares: Shares { text: true, images: false, files: true },
    };
    assert_eq!(load_settings(&save_settings(&settings)), settings);
    let fresh = load_settings("");
    assert!(fresh.disabled_peers.is_empty());
    assert!(fresh.shares.text && fresh.shares.images && fresh.shares.files);
}

#[test]
fn the_order_of_pairing_survives_the_disk() {
    let order = vec![PeerId([0xB2; 16]), PeerId([1; 16])];
    let file = save_pairing_order(&order);
    assert_eq!(file, format!("{}\n{}\n", "b2".repeat(16), "01".repeat(16)));
    assert_eq!(pairing_order(&file), order);
    assert_eq!(pairing_order(&format!("torn\n01\n{file}")), order, "other lines are skipped");
    assert!(pairing_order("").is_empty());
}
