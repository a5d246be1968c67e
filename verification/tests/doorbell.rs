use seam::doorbell::{confirm, decline, expire, pairing_json, park_pairing, Parked};
use seam::identity::{Fingerprint, TrustStore};
use seam::pairing::PairingCode;
use seam::store::load_peers;

fn caller(n: u8) -> Fingerprint {
    Fingerprint::from_bytes([n; 32])
}

#[test]
fn one_pairing_at_a_time() {
    let mut slot = None;
    assert_eq!(park_pairing(&mut slot, None, caller(1), 1), Parked::NoCode);
    assert!(slot.is_none());
    assert_eq!(park_pairing(&mut slot, Some(PairingCode(42)), caller(1), 1), Parked::Showing);
    assert_eq!(
        pairing_json(&slot),
        "{\"code\":\"000042\",\"with\":\"01010101\",\"state\":\"showing\"}"
    );
    assert_eq!(park_pairing(&mut slot, Some(PairingCode(7)), caller(2), 2), Parked::Busy);
    assert_eq!(slot.as_ref().unwrap().peer, caller(1));
    assert_eq!(Parked::Busy.reason(), Some("another pairing is in progress"));
    assert_eq!(Parked::NoCode.reason(), Some("pairing code unavailable"));
    assert_eq!(Parked::Showing.reason(), None);
}

#[test]
fn a_confirmed_pairing_is_trusted_and_saved() {
    let mut slot = None;
    let mut trust = TrustStore::new();
    assert!(confirm(&mut slot, &mut trust).is_none());
    park_pairing(&mut slot, Some(PairingCode(1)), caller(1), 1);
    let file = confirm(&mut slot, &mut trust).expect("digits were showing");
    assert!(trust.is_trusted(caller(1)));
    assert!(load_peers(&file).0.is_trusted(caller(1)));
    assert!(pairing_json(&slot).contains("\"paired\""));
    // An answer stands.
    assert!(!decline(&mut slot));
    assert!(confirm(&mut slot, &mut trust).is_none());
    // And a new pairing may begin.
    assert_eq!(park_pairing(&mut slot, Some(PairingCode(2)), caller(2), 2), Parked::Showing);
}

#[test]
fn a_declined_pairing_is_not_trusted() {
    let mut slot = None;
    let mut trust = TrustStore::new();
    assert!(!decline(&mut slot));
    park_pairing(&mut slot, Some(PairingCode(1)), caller(1), 1);
    assert!(decline(&mut slot));
    assert!(confirm(&mut slot, &mut trust).is_none());
    assert!(trust.is_empty());
    assert!(pairing_json(&slot).contains("\"declined\""));
}

#[test]
fn a_code_nobody_answers_for_is_taken_down() {
    let mut slot = None;
    park_pairing(&mut slot, Some(PairingCode(1)), caller(1), 5);
    assert!(!expire(&mut slot, 4), "another link's code");
    assert!(expire(&mut slot, 5));
    assert_eq!(pairing_json(&slot), "null");
    park_pairing(&mut slot, Some(PairingCode(1)), caller(1), 6);
    decline(&mut slot);
    assert!(!expire(&mut slot, 6), "it was answered");
}
