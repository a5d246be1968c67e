use seam::capture::Permissions;
use seam::discovery::{Address, DiscoveredPeer, Ip};
use seam::frame::PeerId;
use seam::identity::{Fingerprint, TrustStore};
use seam::inject::permission_report;
use seam::layout::{Layout, Platform};
use seam::licence::Licence;
use seam::pairing::PairingCode;
use seam::report::{
    choose_found, code_box, discover_summary, discovery_line, displays_report, doctor,
    elevation_report, forgotten, found_report, licence_line, machine_report, network_line,
    peers_list, permissions_report, report_input_forwarding, Examination, MachineFacts,
};
use seam::screen::{Desktop, Display, PixelRect};

fn machine() -> MachineFacts {
    MachineFacts {
        version: "1.0".into(),
        target: "macos-aarch64".into(),
        name: "desk".into(),
        id: PeerId([0xA1; 16]),
        fingerprint: Fingerprint::from_bytes([0xAB; 32]),
        state: "/state".into(),
        os: "macos".into(),
        arch: "aarch64".into(),
        layout: Layout::Known { id: "x.German".into(), display: "German".into() },
        platform: Platform::MacOs,
    }
}

fn desktop() -> Desktop {
    Desktop::new(vec![Display {
        id: 1,
        pixels: PixelRect::new(-10, 0, 2560, 1080),
        width_mm: 677 * 64,
        height_mm: 286 * 64,
        scale: 512,
        primary: true,
    }])
}

fn found(name: &str, id: Option<PeerId>) -> DiscoveredPeer {
    DiscoveredPeer {
        advertised_peer_id: id,
        advertised_fingerprint: None,
        name: name.into(),
        addresses: vec![
            Address { ip: Ip::V4([10, 0, 0, 1]), text: "10.0.0.1:5".into() },
            Address { ip: Ip::V4([10, 0, 0, 2]), text: "10.0.0.2:5".into() },
        ],
        advertised_protocol: id.map(|_| 2),
        instance: "i".into(),
    }
}

#[test]
fn the_report_names_this_machine_first() {
    let text = machine_report(&machine());
    assert!(text.starts_with(
        "seam doctor\n\n  this machine\n    seam         v1.0 (macos-aarch64)\n    name         desk\n"
    ));
    assert!(text.ends_with("    keyboard     German\n                 composes text with Option\n"));
}

#[test]
fn displays_are_listed_with_their_desktop() {
    assert_eq!(
        displays_report(Ok(&desktop()), &vec!["2.00".into()], Some((3, -4))),
        "\n  displays\n    * 2560x1080 at (-10,0)  2.00x  677x286 mm\n    desktop  2560x1080 at \
         (-10,0)\n    cursor   (3, -4)\n"
    );
    assert_eq!(
        displays_report(Err("no"), &vec![], None),
        "\n  displays\n    could not read displays: no\n"
    );
    assert_eq!(
        displays_report(Ok(&Desktop::default()), &vec![], None),
        "\n  displays\n    desktop  0x0 at (0,0)\n"
    );
}

#[test]
fn permissions_are_reported_with_where_to_grant_them() {
    let report = permission_report(Some(Permissions { can_listen: true, can_post: false }));
    let text = permissions_report(&report);
    assert!(text.contains("    capture input    granted\n"), "{text}");
    assert!(text.contains("    inject input     NOT GRANTED — System Settings"), "{text}");
    assert_eq!(permissions_report(&None), "");
    assert!(report_input_forwarding(&report).contains("MIRRORS INSTEAD OF SWITCHING"));
    assert!(report_input_forwarding(&None).contains("needs no input permissions"));
    let none = permission_report(Some(Permissions { can_listen: false, can_post: true }));
    assert!(report_input_forwarding(&none).contains("NOT WORKING"));
    let both = permission_report(Some(Permissions { can_listen: true, can_post: true }));
    assert!(report_input_forwarding(&both).contains("    ready — input can be captured"));
}

#[test]
fn each_line_says_ok_or_what_failed() {
    assert_eq!(
        network_line(Ok("0.0.0.0:9")),
        "\n  network        ok — bound a QUIC socket on 0.0.0.0:9\n"
    );
    assert_eq!(network_line(Err("no")), "\n  network        FAILED — no\n");
    assert_eq!(discovery_line(None), "  discovery      ok — mDNS is available on this machine\n");
    assert_eq!(discovery_line(Some("no")), "  discovery      FAILED — no\n");
    assert_eq!(
        licence_line(&Some(Licence { name: "Ada".into(), expires_day: 9 })),
        "  licence       Ada (day 9)\n"
    );
    assert_eq!(
        licence_line(&None),
        "  licence       MISSING — run 'seam activate <your-licence>'\n"
    );
    assert_eq!(elevation_report(None), "");
    assert!(elevation_report(Some(false)).contains("NOT ELEVATED"));
}

#[test]
fn the_doctor_says_everything_in_order() {
    let mut store = TrustStore::new();
    store.trust(Fingerprint::from_bytes([2; 32]), "laptop");
    let machine = machine();
    let desktop = desktop();
    let scales = vec!["2.00".to_string()];
    let permissions = permission_report(Some(Permissions { can_listen: true, can_post: true }));
    let text = doctor(&Examination {
        machine: &machine,
        desktop: Ok(&desktop),
        scales: &scales,
        cursor: None,
        permissions: &permissions,
        store: &store,
        network: Ok("0.0.0.0:1"),
        discovery: None,
        licence: &None,
        elevated: None,
    });
    let mut at = 0;
    for part in [
        "this machine",
        "displays",
        "permissions",
        "paired peers   1",
        "02020202  laptop",
        "network",
        "discovery",
        "licence",
        "input forwarding",
    ] {
        at += text[at..].find(part).unwrap_or_else(|| panic!("{part} is missing or out of order"));
    }
}

#[test]
fn pairings_are_listed_and_forgotten() {
    let mut store = TrustStore::new();
    assert_eq!(
        peers_list(&store),
        "No paired machines yet. Run `seam pair` on both machines.\n"
    );
    let fp = Fingerprint::from_bytes([2; 32]);
    store.trust(fp, "laptop");
    assert_eq!(peers_list(&store), "Paired machines:\n\n  02020202  laptop\n");
    let removed = store.forget(fp.peer_id());
    assert_eq!(forgotten(&removed, fp.peer_id()), "Forgot laptop (02020202).");
    assert_eq!(forgotten(&None, fp.peer_id()), "Nothing to forget.");
}

#[test]
fn found_machines_are_shown_and_chosen_by_name() {
    let id = PeerId([0xA1; 16]);
    assert_eq!(
        found_report(&found("desk", Some(id))),
        "  desk\n    claims id a1a1a1a1   protocol v2\n    at 10.0.0.1:5, 10.0.0.2:5\n"
    );
    assert!(found_report(&found("x", None)).contains("claims id ?   protocol unknown"));
    assert_eq!(discover_summary(2), "\nFound 2. Pair with: seam pair <name>\n");
    assert!(discover_summary(0).contains("no other seam machines found"));
    let list = vec![found("Other", None), found("Desk", Some(id))];
    assert_eq!(choose_found(&list, " desk "), Ok(1));
    assert_eq!(choose_found(&list, "A1A1"), Ok(1));
    assert_eq!(
        choose_found(&list, "no\tbody"),
        Err("no machine called \"no\\tbody\". Found: Other, Desk".into())
    );
    assert_eq!(
        choose_found(&vec![], "x"),
        Err("no seam machines found on the network. Start `seam pair` on \"x\" first.".into())
    );
}

#[test]
fn the_code_is_shown_in_its_box() {
    let text = code_box("10.0.0.1:5", PairingCode(42));
    assert!(text.contains("│   000 042   │"), "{text}");
    assert!(text.starts_with("\n  Pairing with 10.0.0.1:5\n"));
}
