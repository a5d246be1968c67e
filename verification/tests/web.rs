use seam::clipboard::Shares;
use seam::web::{
    activation_json, find_page, join_json, note_is_ours, ok_json, page_url, quit_request,
    read_port_note, request_is_local, request_is_whole, request_path, response, route,
    route_before_activation, startup_json, switch_share, ui_asset_response, Ask, Kind, Page,
};

fn get(headers: &str) -> String {
    format!("POST /action/quit HTTP/1.1\r\n{headers}\r\n\r\n")
}

fn assets() -> Vec<Page> {
    let mut png = b"\x89PNG\r\n\x1a\n".to_vec();
    png.extend((0..=255u8).cycle().take(600));
    vec![Page {
        route: "/_ds/assets/logo/seam-logo-32.png".into(),
        content_type: "image/png".into(),
        body: png,
    }]
}

#[test]
fn a_page_on_another_site_cannot_drive_this_daemon() {
    // The attack: any website the user visits POSTs to the loopback port. A simple
    // POST is not preflighted, so it lands unless the origin is checked.
    assert!(!request_is_local(
        &get("Host: 127.0.0.1:5000\r\nOrigin: https://evil.example"),
        5000
    ));
}

#[test]
fn dns_rebinding_cannot_dress_up_as_local() {
    assert!(!request_is_local(&get("Host: evil.example"), 5000));
}

#[test]
fn the_fleet_page_itself_is_allowed() {
    assert!(request_is_local(
        &get("Host: 127.0.0.1:5000\r\nOrigin: http://127.0.0.1:5000"),
        5000
    ));
    assert!(request_is_local(&get("Host: localhost:5000"), 5000));
}

#[test]
fn a_non_browser_caller_is_allowed() {
    // curl and scripts send no Origin; they already run as the user.
    assert!(request_is_local(&get("Host: 127.0.0.1:5000"), 5000));
}

#[test]
fn an_embedded_logo_response_preserves_the_exact_png_bytes() {
    let assets = assets();
    let path = assets[0].route.as_str();
    let request = format!("GET {path} HTTP/1.1\r\nHost: 127.0.0.1:5000\r\n\r\n");
    let response = ui_asset_response(&request, path, 5000, &assets).expect("known logo route");
    let split = response
        .windows(4)
        .position(|window| window == b"\r\n\r\n")
        .expect("HTTP response has a header terminator");
    assert!(response.starts_with(b"HTTP/1.1 200 OK\r\nContent-Type: image/png\r\n"));
    assert_eq!(&response[split + 4..], assets[0].body);
}

#[test]
fn an_embedded_logo_refuses_a_foreign_origin() {
    let assets = assets();
    let path = assets[0].route.as_str();
    let request = format!(
        "GET {path} HTTP/1.1\r\nHost: 127.0.0.1:5000\r\nOrigin: https://evil.example\r\n\r\n"
    );
    let response = ui_asset_response(&request, path, 5000, &assets).expect("known logo route");
    assert!(response.starts_with(b"HTTP/1.1 403 Forbidden\r\nContent-Type: text/plain\r\n"));
    assert!(response.ends_with(b"\r\n\r\nrefused"));
}

#[test]
fn a_non_asset_path_stays_with_the_text_router() {
    assert!(ui_asset_response("GET / HTTP/1.1\r\n\r\n", "/", 5000, &assets()).is_none());
}

fn ask(method: &str, path: &str) -> Ask {
    let request = format!("{method} {path} HTTP/1.1\r\nHost: 127.0.0.1:5000\r\n\r\n");
    assert_eq!(request_path(&request), path);
    route(&request, path, 5000, &assets())
}

#[test]
fn every_action_is_routed() {
    assert_eq!(ask("POST", "/action/quit"), Ask::Quit);
    assert_eq!(ask("POST", "/action/pair/confirm"), Ask::ConfirmPairing);
    assert_eq!(ask("POST", "/action/pair/decline"), Ask::DeclinePairing);
    assert_eq!(ask("POST", "/action/pair/a1b2"), Ask::Pair { short: "a1b2".into() });
    assert_eq!(ask("POST", "/action/startup/on"), Ask::Startup { on: true });
    assert_eq!(ask("POST", "/action/startup/off"), Ask::Startup { on: false });
    assert_eq!(
        ask("POST", "/action/share/images/off"),
        Ask::Share { kind: Some(Kind::Images), on: false }
    );
    assert_eq!(ask("POST", "/action/share/cats/on"), Ask::Share { kind: None, on: true });
    assert_eq!(
        ask("POST", "/action/layout/a1/left"),
        Ask::Place { peer: "a1".into(), edge: "left".into(), anchor: "self".into() }
    );
    assert_eq!(
        ask("POST", "/action/layout/a1/left/b2"),
        Ask::Place { peer: "a1".into(), edge: "left".into(), anchor: "b2".into() }
    );
    assert_eq!(
        ask("POST", "/action/peer/a1/disable"),
        Ask::Switch { peer: "a1".into(), enable: false }
    );
    assert_eq!(ask("POST", "/action/release"), Ask::Release);
    assert_eq!(ask("GET", "/join"), Ask::Join);
    assert_eq!(ask("GET", "/state"), Ask::State);
    assert_eq!(ask("GET", "/_ds/assets/logo/seam-logo-32.png"), Ask::Page { index: 0 });
    assert_eq!(ask("GET", "/nothing"), Ask::NotFound);
}

#[test]
fn an_action_is_never_a_mere_look() {
    assert_eq!(ask("GET", "/action/quit"), Ask::NotFound);
    let foreign = "POST /action/quit HTTP/1.1\r\nOrigin: https://evil.example\r\n\r\n";
    assert_eq!(route(foreign, "/action/quit", 5000, &assets()), Ask::Refused);
}

#[test]
fn without_a_licence_only_activation_is_reachable() {
    let request = "POST /action/activate HTTP/1.1\r\nHost: localhost:5000\r\n\r\n seam-1-2 \n";
    let pages = assets();
    assert_eq!(
        route_before_activation(request, "/action/activate", 5000, &pages),
        Ask::Activate { key: "seam-1-2".into() }
    );
    assert_eq!(route_before_activation(request, "/action/quit", 5000, &pages), Ask::NotFound);
    assert_eq!(route_before_activation(request, "/state", 5000, &pages), Ask::State);
    assert_eq!(find_page(&pages, "/x"), None);
}

#[test]
fn a_response_counts_its_body() {
    assert_eq!(
        response("200 OK", "text/plain", "é".as_bytes()),
        "HTTP/1.1 200 OK\r\nContent-Type: text/plain\r\nContent-Length: 2\r\n\
         Cache-Control: no-store\r\nConnection: close\r\n\r\né"
            .as_bytes()
    );
    assert!(request_is_whole(b"GET / HTTP/1.1\r\n\r\n"));
    assert!(!request_is_whole(b"GET / HTTP/1.1\r\n"));
    assert!(request_is_whole(&[b'a'; 16_385]));
}

#[test]
fn answers_are_what_the_page_reads() {
    assert_eq!(ok_json(true), "{\"ok\":true}");
    assert_eq!(startup_json(false), "{\"ok\":true,\"on\":false}");
    assert_eq!(activation_json(Ok("a\"b")), "{\"ok\":true,\"name\":\"a'b\"}");
    assert_eq!(activation_json(Err("no")), "{\"ok\":false,\"error\":\"no\"}");
    assert_eq!(
        join_json("1.0"),
        "{\"version\":\"1.0\",\"repo\":\"amor-openmind/seam-releases\"}"
    );
}

#[test]
fn a_note_names_its_port() {
    assert_eq!(read_port_note("5000\n"), Some(5000));
    assert_eq!(read_port_note("70000"), None);
    assert!(note_is_ours(5000, Some("5000")));
    assert!(!note_is_ours(5000, Some("5001")));
    assert!(!note_is_ours(0, Some("0")));
    assert!(!note_is_ours(5000, None));
    assert_eq!(page_url(5000, "/x"), "http://127.0.0.1:5000/x");
    assert!(request_is_local(&quit_request(5000), 5000));
    assert_eq!(request_path(&quit_request(5000)), "/action/quit");
}

#[test]
fn one_kind_is_switched_at_a_time() {
    let mut shares = Shares { text: true, images: true, files: true };
    switch_share(&mut shares, Some(Kind::Images), false);
    assert_eq!(shares, Shares { text: true, images: false, files: true });
    switch_share(&mut shares, Some(Kind::Text), false);
    switch_share(&mut shares, Some(Kind::Files), false);
    switch_share(&mut shares, None, true);
    assert_eq!(shares, Shares { text: false, images: false, files: false });
}
