use ring::signature::{Ed25519KeyPair, KeyPair as _};
use seam::licence::{
    activate, day_number, first_stored, licence_json, read_payload, stored, verify, Licence, Refusal,
};
use seam::text::hex;

#[test]
fn a_build_without_a_key_refuses_everything() {
    // The safe direction to fail: a build that cannot verify must not assume valid.
    assert!(verify("", "seam-00-00").is_err());
}

#[test]
fn nonsense_is_refused_without_panicking() {
    for key in ["", "00", &"ab".repeat(32)] {
        for bad in ["", "seam-", "hello", "seam-zz-zz", "seam--", &"seam-".repeat(50)] {
            assert!(verify(key, bad).is_err(), "{bad:?} must be refused");
        }
    }
}

#[test]
fn a_perpetual_licence_never_expires_and_a_past_one_always_has() {
    assert!(Licence { name: "x".into(), expires_day: 0 }.is_current(Some(20_000)));
    assert!(!Licence { name: "x".into(), expires_day: 1 }.is_current(Some(20_000)));
}

/// The owner's key, and the public half as a build carries it.
fn owner() -> (Ed25519KeyPair, String) {
    let pair = Ed25519KeyPair::from_seed_unchecked(&[7; 32]).expect("a seed makes a key");
    let public = hex(pair.public_key().as_ref());
    (pair, public)
}

fn issue(payload: &str) -> String {
    let (pair, _) = owner();
    let signature = pair.sign(payload.as_bytes());
    format!("seam-{}-{}", hex(payload.as_bytes()), hex(signature.as_ref()))
}

#[test]
fn a_licence_the_owner_signed_is_accepted() {
    let (_, key) = owner();
    let licence = issue("Ada Lovelace|0");
    let checked = verify(&key, &licence).unwrap();
    assert_eq!(checked, Licence { name: "Ada Lovelace".into(), expires_day: 0 });
    assert_eq!(verify(&key, &format!("  {licence}\n")).unwrap(), checked);
}

#[test]
fn each_fault_has_its_own_refusal() {
    let (_, key) = owner();
    let good = issue("x|0");
    assert_eq!(verify("", &good), Err(Refusal::NoKey));
    assert_eq!(verify(&key, "hello"), Err(Refusal::NotALicence));
    assert_eq!(verify(&key, "seam-00"), Err(Refusal::Incomplete));
    assert_eq!(verify(&key, "seam-zz-00"), Err(Refusal::Damaged));
    assert_eq!(verify("nonsense", &good), Err(Refusal::BadKey));
    let other = hex(&[1; 32]);
    assert_eq!(verify(&other, &good), Err(Refusal::Forged));
    let forged = good.replacen(&hex(b"x|0"), &hex(b"y|0"), 1);
    assert_eq!(verify(&key, &forged), Err(Refusal::Forged));
    assert_eq!(verify(&key, &issue("x|tomorrow")), Err(Refusal::BadDate));
    assert_eq!(verify(&key, &issue("no date")), Err(Refusal::Damaged));
    assert_eq!(read_payload(&[0xFF]), Err(Refusal::Damaged));
    assert_eq!(activate(&key, &issue("x|10"), Some(11)), Err(Refusal::Expired));
}

#[test]
fn every_refusal_says_why() {
    assert_eq!(Refusal::NotALicence.describe(), "not a seam licence");
    assert_eq!(Refusal::Incomplete.describe(), "this licence is incomplete");
    assert_eq!(Refusal::Damaged.describe(), "this licence is damaged");
    assert_eq!(Refusal::BadKey.describe(), "this build's licence key is damaged");
    assert_eq!(Refusal::Forged.describe(), "this licence was not issued for seam");
    assert_eq!(Refusal::BadDate.describe(), "this licence has an unreadable date");
    assert_eq!(Refusal::Expired.describe(), "this licence has expired");
    assert!(Refusal::NoKey.describe().starts_with("this build carries no licence key"));
}

#[test]
fn a_licence_works_through_its_last_day() {
    let l = Licence { name: "x".into(), expires_day: 100 };
    assert!(l.is_current(Some(100)));
    assert!(!l.is_current(Some(101)));
    assert!(l.is_current(None), "an unknown day refuses nobody");
    assert_eq!(day_number(86_399), 0);
    assert_eq!(day_number(1_700_000_000), 19_675);
}

#[test]
fn an_activated_licence_is_found_again() {
    let (_, key) = owner();
    let (licence, file) = activate(&key, &issue("desk|0"), Some(5)).unwrap();
    assert_eq!(stored(&key, &file, Some(5)), Some(licence.clone()));
    assert_eq!(stored(&key, "rubbish", Some(5)), None);
    assert_eq!(licence_json(&Some(licence)), "{\"name\":\"desk\",\"expires\":0}");
    assert_eq!(licence_json(&None), "null");
}

#[test]
fn the_first_licence_that_works_is_the_one() {
    let (_, key) = owner();
    let files = vec!["nonsense".to_owned(), issue("Old|10"), issue("Ada|0"), issue("Bob|0")];
    assert_eq!(first_stored(&key, &files, Some(20_000)).unwrap().name, "Ada");
    assert_eq!(first_stored(&key, &files, Some(10)).unwrap().name, "Old");
    assert!(first_stored(&key, &vec!["nonsense".to_owned()], Some(1)).is_none());
    assert!(first_stored(&key, &vec![], Some(1)).is_none());
}
