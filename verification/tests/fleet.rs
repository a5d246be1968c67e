use seam::discovery::{Address, DiscoveredPeer, Ip};
use seam::fleet::{
    absent_peers, address_of, dial_decision, dialled_welcome, is_known, must_release, note_lost,
    note_seen, register_link, some_begins, take_out, welcome, Dial, DiscoveredMachine, Fleet, Lane,
    Pause, Welcome,
};
use seam::frame::{Edge, PeerId};
use seam::identity::{Fingerprint, TrustStore};
use seam::transport::Error;

const A: PeerId = PeerId([0xA1; 16]);
const B: PeerId = PeerId([0xB2; 16]);

fn peer(instance: &str, id: Option<PeerId>, address: Option<&str>) -> DiscoveredPeer {
    DiscoveredPeer {
        advertised_peer_id: id,
        advertised_fingerprint: Some(Fingerprint::from_bytes([9; 32])),
        name: "desk".into(),
        addresses: address
            .into_iter()
            .map(|text| Address { ip: Ip::V4([10, 0, 0, 1]), text: text.into() })
            .collect(),
        advertised_protocol: Some(2),
        instance: instance.into(),
    }
}

fn machine(instance: &str, short: &str, trusted: bool) -> DiscoveredMachine {
    DiscoveredMachine {
        instance: instance.into(),
        short: short.into(),
        addr: format!("{short}:1"),
        trusted,
    }
}

#[test]
fn one_peer_has_one_link() {
    let mut links = vec![(A, 1), (B, 2), (A, 3)];
    assert_eq!(register_link(&mut links, A, 4), [1, 3]);
    assert_eq!(links, [(B, 2), (A, 4)]);
    assert_eq!(take_out(&mut links, B), [2]);
    assert_eq!(links, [(A, 4)]);
    assert!(take_out(&mut links, B).is_empty());
}

#[test]
fn strangers_wait_at_the_door() {
    assert_eq!(welcome(&Ok(())), Welcome::Admit);
    assert_eq!(welcome(&Err(Error::NotPaired)), Welcome::Park);
    assert_eq!(welcome(&Err(Error::IdentityConflict)), Welcome::Refuse);
    assert_eq!(dialled_welcome(&Ok(()), false), Welcome::Admit);
    assert_eq!(dialled_welcome(&Err(Error::NotPaired), true), Welcome::Park);
    assert_eq!(dialled_welcome(&Err(Error::NotPaired), false), Welcome::Refuse);
}

#[test]
fn machines_in_sight_are_listed_once() {
    let mut seen = Vec::new();
    note_seen(&mut seen, &peer("one", Some(A), Some("10.0.0.1:5")), false);
    note_seen(&mut seen, &peer("one", Some(A), Some("10.0.0.2:5")), true);
    note_seen(&mut seen, &peer("two", None, Some("10.0.0.3:5")), false);
    note_seen(&mut seen, &peer("three", Some(B), None), false);
    assert_eq!(seen.len(), 2);
    assert_eq!((seen[0].short.as_str(), seen[0].addr.as_str()), ("a1a1a1a1", "10.0.0.2:5"));
    assert!(seen[0].trusted);
    assert_eq!(seen[1].short, "desk");
    note_lost(&mut seen, "one");
    assert_eq!(seen.len(), 1);
    assert_eq!(address_of(&seen, "desk").as_deref(), Some("10.0.0.3:5"));
    assert_eq!(address_of(&seen, "a1"), None);
}

#[test]
fn only_paired_machines_are_dialled_and_only_a_lonely_one_volunteers() {
    let p = peer("one", Some(A), Some("10.0.0.1:5"));
    let none = vec![];
    assert_eq!(dial_decision(A, &p, true, false, true, &none), Dial::Ignore);
    assert_eq!(dial_decision(B, &p, true, false, true, &none), Dial::Connect);
    assert_eq!(dial_decision(B, &p, true, false, true, &vec![A]), Dial::Show);
    assert_eq!(dial_decision(B, &p, false, false, true, &none), Dial::Show);
    assert_eq!(dial_decision(B, &p, false, true, false, &none), Dial::Show);
    assert_eq!(dial_decision(B, &p, false, true, true, &none), Dial::Offer);

    let mut store = TrustStore::new();
    assert!(!is_known(&store, &p));
    store.trust(Fingerprint::from_bytes([9; 32]), "desk");
    assert!(is_known(&store, &p));
}

#[test]
fn absent_machines_are_dialled_again() {
    let seen =
        vec![machine("x", "a1a1a1a1", true), machine("y", "b2b2b2b2", true), machine("z", "c3", false)];
    assert_eq!(absent_peers(&seen, &vec![A]), [1]);
    assert!(absent_peers(&seen, &vec![A, B]).is_empty());
    assert!(some_begins(&vec![A, B], "b2"));
    assert!(!some_begins(&vec![A], "b2"));
}

#[test]
fn retries_slow_down_and_start_over() {
    let mut lane = Lane::new();
    assert!(lane.is_fresh());
    let waits: Vec<Pause> = (0..6).map(|_| lane.pause()).collect();
    let millis: Vec<u64> = waits.iter().map(|p| p.millis).collect();
    assert_eq!(millis, [500, 1000, 2000, 4000, 5000, 5000]);
    assert_eq!(waits.iter().position(|p| p.rebind), Some(4));
    assert!(!lane.is_fresh());
    lane.connected();
    assert_eq!(lane, Lane::new());
}

#[test]
fn the_page_follows_the_fleet() {
    let mut f = Fleet::new();
    f.heard_motion(A);
    f.heard_motion(A);
    assert_eq!(f.sharers, [A]);
    f.heard_leave(B);
    assert_eq!(f.focus, Some(B));
    f.reported(A, 1, 2, Some("1.0".into()));
    f.reported(A, 3, 4, None);
    assert_eq!(f.screens, [(A, (3, 4))]);
    assert_eq!(f.versions, [(A, "1.0".to_string())]);
    f.arrived();
    assert!(f.relayout);
    f.gone(B);
    assert_eq!(f.focus, None, "the pointer is never left with a machine that is gone");
    f.gone(A);
    assert!(f.sharers.is_empty());
}

#[test]
fn switching_on_undoes_switching_off() {
    let mut f = Fleet::new();
    assert!(!f.set_peer_enabled("a1a1a1a1", false), "not on the desk");
    f.places = vec![(A, Edge::Left)];
    assert!(f.set_peer_enabled("a1a1", false));
    assert!(!f.is_enabled(A));
    assert!(!f.set_peer_enabled("a1a1", false));
    assert!(f.set_peer_enabled("a1a1a1a1", true));
    assert!(f.is_enabled(A));
}

#[test]
fn input_is_given_back_when_capture_died() {
    assert!(must_release(true, Some(false)));
    assert!(!must_release(true, Some(true)));
    assert!(!must_release(true, None));
    assert!(!must_release(false, Some(false)));
}
