use seam::clipboard::Shares;
use seam::desk::Relation;
use seam::fleet::{DiscoveredMachine, Fleet};
use seam::frame::{Edge, PeerId};
use seam::layout::Platform;
use seam::licence::Licence;
use seam::page::{
    activation_state_json, applescript_string, discovered_json, health, health_json,
    notification_script, own_role, peer_facts, peers_json, read_release, recent_activity,
    release_asset, release_field, strip_ansi, toast_text, ui_state_json, update_json, worth_telling, Connected,
    PageState, Release,
};

const A: PeerId = PeerId([0xA1; 16]);

fn c(s: &str) -> Vec<char> {
    s.chars().collect()
}

#[test]
fn colours_are_taken_out_of_the_log() {
    let plain: String = strip_ansi(&c("\u{1b}[32mINFO\u{1b}[0m ok")).into_iter().collect();
    assert_eq!(plain, "INFO ok");
}

#[test]
fn recent_activity_is_newest_first_and_only_what_matters() {
    let log = "2026-07-25T18:31:21.521281Z  INFO seam: seam is running\n\
               2026-07-25T18:31:22.521281Z DEBUG seam: noise\n\
               2026-07-25T18:31:23.000000Z  INFO seam: something dull\n\
               2026-07-25T18:31:24.000000Z  INFO seam: peer went \"away\"\n\
               2026-07-25T18:31:25.000000Z  INFO seam: peer went away\n";
    assert_eq!(
        recent_activity(log),
        "{\"time\":\"18:31:25\",\"what\":\"seam: peer went away\"},\
         {\"time\":\"18:31:21\",\"what\":\"seam: seam is running\"}"
    );
    assert_eq!(recent_activity(""), "");
}

#[test]
fn a_notification_stays_in_its_quotes() {
    assert_eq!(applescript_string("say \"hi\" \\ now"), "\"say hi  now\"");
    let script = notification_script("seam \"x\"", "a\\b");
    assert_eq!(script.matches('"').count(), 4);
    assert!(!script.contains('\\'));
}

#[test]
fn a_release_is_read_however_it_is_spaced() {
    let body = "{ \"tag_name\" : \"v1.2.3\",\n \"published_at\":\"2026-01-02T03:04:05Z\" }";
    assert_eq!(release_field(&c(body), "tag_name").as_deref(), Some("v1.2.3"));
    assert_eq!(release_field(&c(body), "name"), None);
    let release = read_release(body).unwrap();
    assert_eq!(
        (release.latest.as_str(), release.tag.as_str()),
        ("1.2.3", "v1.2.3")
    );
    assert!(worth_telling("1.2.3", "1.2.2", None));
    assert!(!worth_telling("1.2.3", "1.2.3", None));
    assert!(!worth_telling("1.2.3", "1.2.2", Some("1.2.3")));
    assert_eq!(
        update_json(&Some(release), release_asset(Platform::Windows)),
        "{\"latest\":\"1.2.3\",\"published\":\"2026-01-02\",\"page\":\
         \"https://github.com/amor-openmind/seam-releases/releases/tag/v1.2.3\",\"asset\":\
         \"https://github.com/amor-openmind/seam-releases/releases/download/v1.2.3/seam.exe\",\
         \"checked\":\"just now\"}"
    );
    assert_eq!(update_json(&None, "x"), "null");
}

#[test]
fn the_page_shows_where_a_machine_sits() {
    let mut fleet = Fleet::new();
    fleet.sharers = vec![A];
    fleet.places = vec![(A, Edge::Left)];
    let facts = peer_facts(&vec![], &fleet, A);
    assert_eq!(
        (facts.edge.as_str(), facts.anchor.as_str(), facts.role.as_str(), facts.enabled),
        ("left", "self", "shares input", true)
    );
    let layout = vec![Relation { peer: "a1a1".into(), edge: Edge::Top, anchor: "b2".into() }];
    fleet.disabled = vec![A];
    let facts = peer_facts(&layout, &fleet, A);
    assert_eq!(
        (facts.edge.as_str(), facts.anchor.as_str(), facts.enabled),
        ("top", "b2", false)
    );
    fleet.versions = vec![(A, "1.0".into())];
    let links = vec![Connected { peer: A, addr: "10.0.0.1:5".into(), rtt_ms: 3 }];
    assert_eq!(
        peers_json(&links, &layout, &fleet),
        "{\"id\":\"a1a1a1a1\",\"name\":\"a1a1a1a1\",\"addr\":\"10.0.0.1:5\",\"edge\":\"top\",\
         \"anchor\":\"b2\",\"role\":\"shares input\",\"enabled\":false,\"version\":\"1.0\",\
         \"rtt_ms\":3}"
    );
}

#[test]
fn health_tells_what_works() {
    let list = health(&Some(vec![true, false]), Some(Some(false)), Some(true));
    let ok: Vec<bool> = list.iter().map(|h| h.ok).collect();
    assert_eq!(ok, [true, false, true, false, true]);
    assert_eq!(list[1].text, "missing — see doctor");
    assert!(health(&None, None, None).is_empty());
    assert_eq!(
        health_json(&health(&Some(vec![true, true]), None, None)),
        "{\"ok\":true,\"text\":\"granted\"},{\"ok\":true,\"text\":\"granted\"}"
    );
}

#[test]
fn a_machine_knows_its_role() {
    assert_eq!(own_role(Platform::Windows, true), "receives input");
    assert_eq!(own_role(Platform::MacOs, true), "shares input");
    assert_eq!(own_role(Platform::MacOs, false), "receives input, joined this fleet");
}

#[test]
fn the_whole_state_is_one_object() {
    let state = PageState {
        version: "1.0".into(),
        name: "my \"desk\"".into(),
        id: A,
        os: "macos".into(),
        arch: "aarch64".into(),
        role: "shares input".into(),
        ui_port: 5000,
        seam_port: 24810,
        lan: "10.0.0.9".into(),
        transfer: Some(("image".into(), "8 x 8".into())),
        shares: Shares { text: true, images: false, files: true },
        startup: true,
        licence: Some(Licence { name: "Ada".into(), expires_day: 0 }),
        release: None::<Release>,
        asset: "seam.exe".into(),
        activity: String::new(),
        links: vec![],
        layout: vec![],
        health: vec![],
        seen: vec![DiscoveredMachine {
            instance: "i".into(),
            short: "b2".into(),
            addr: "10.0.0.2:5".into(),
            trusted: false,
        }],
        pairing: None,
    };
    assert_eq!(
        discovered_json(&state.seen),
        "{\"id\":\"b2\",\"addr\":\"10.0.0.2:5\",\"trusted\":false}"
    );
    assert_eq!(
        ui_state_json(&state, &Fleet::new()),
        "{\"version\":\"1.0\",\"name\":\"my 'desk'\",\"id\":\"a1a1a1a1\",\"platform\":\
         \"macos/aarch64\",\"role\":\"shares input\",\"port\":5000,\"seamPort\":24810,\"lan\":\
         \"10.0.0.9\",\"focus\":\"local\",\"transfer\":{\"what\":\"image\",\"detail\":\"8 x 8\"},\
         \"shares\":{\"text\":true,\"images\":false,\"files\":true},\"startup\":true,\"licence\":\
         {\"name\":\"Ada\",\"expires\":0},\"update\":null,\"activity\":[],\"peers\":[],\
         \"health\":[],\"discovered\":[{\"id\":\"b2\",\"addr\":\"10.0.0.2:5\",\"trusted\":false}],\
         \"pairing\":null}"
    );
    assert_eq!(
        activation_state_json("1.0", "windows", "x86_64", 5000, &None),
        "{\"version\":\"1.0\",\"name\":\"this machine\",\"id\":\"\",\"platform\":\
         \"windows/x86_64\",\"role\":\"not activated\",\"port\":5000,\"seamPort\":0,\"licence\":\
         null,\"update\":null,\"activity\":[],\"peers\":[],\"health\":[]}"
    );
}

#[test]
fn a_toast_stays_in_its_quotes() {
    assert_eq!(toast_text("seam's", "it's 'on'"), "seams — its on");
}
