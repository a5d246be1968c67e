use seam::clipboard::{
    accept_exact, child_path, deflate_file_bytes, deflate_pixels, files_note, image_note,
    image_signature, inflate_file_bytes, inflate_pixels, look_next, note_top, open_files,
    pack_files, relay_to, sending_note, spool_path, ClipboardState, Gathering, Look, Shared,
    Shares, MAX_CLIPBOARD_FILE_BYTES,
};
use seam::frame::PeerId;

#[test]
fn a_restarted_peer_is_heard_again() {
    // The laptop restarted and began counting from one again, so every copy it made looked
    // older than the watermark it had left behind. Forgetting it when its link registers
    // again is what lets it speak.
    let mut state = ClipboardState::default();
    let peer = PeerId([7; 16]);
    state.record(peer, 40);
    assert!(state.already_applied(peer, 1), "the old life's watermark blocks the reborn counter");
    state.forget_peer(peer);
    assert!(!state.already_applied(peer, 1), "after the link re-registers, generation 1 is heard");
}

#[test]
fn pixels_survive_the_wire_and_lies_about_size_do_not() {
    // 100x50 of gradient-ish pixels: representative of a screenshot's compressibility.
    let (w, h) = (100u32, 50u32);
    let raw: Vec<u8> = (0..(w * h * 4)).map(|i| (i % 251) as u8).collect();
    let wire = deflate_pixels(&raw);
    assert!(wire.len() < raw.len(), "screenshot-like pixels must shrink");
    assert_eq!(inflate_pixels(&wire, w, h).as_deref(), Some(raw.as_slice()));
    // A frame whose dimensions do not match its pixels is corruption, not a guess.
    assert_eq!(inflate_pixels(&wire, w, h + 1), None);
    assert_eq!(inflate_pixels(&wire[..wire.len() / 2], w, h), None);
}

#[test]
fn an_echo_is_recognised_and_newer_generations_pass() {
    let mut state = ClipboardState::default();
    let peer = PeerId([7; 16]);
    state.record(peer, 5);
    assert!(state.already_applied(peer, 5), "the same generation is an echo");
    assert!(state.already_applied(peer, 4), "an older one is stale");
    assert!(!state.already_applied(peer, 6), "the next copy must pass");
}

#[test]
fn files_survive_the_wire() {
    let raw: Vec<u8> = (0..10_000u32).map(|i| (i * i % 251) as u8).collect();
    let packed = deflate_file_bytes(&raw);
    assert_ne!(packed, raw);
    assert_eq!(inflate_file_bytes(&packed), Some(raw.clone()));
    assert_eq!(inflate_file_bytes(&deflate_file_bytes(&[])), Some(vec![]));
    assert_eq!(inflate_file_bytes(b"not deflated"), None);

    let entries = vec![("a/b.txt".to_string(), raw), ("c".to_string(), vec![])];
    let packed = pack_files(entries.clone());
    assert_eq!(open_files(&packed), Some(entries));
    assert_eq!(open_files(&vec![("x".to_string(), vec![1, 2, 3])]), None);
}

#[test]
fn pixels_are_accepted_only_in_the_right_number() {
    assert_eq!(accept_exact(Some(vec![1, 2]), 2), Some(vec![1, 2]));
    assert_eq!(accept_exact(Some(vec![1, 2]), 3), None);
    assert_eq!(accept_exact(None, 0), None);
    assert_eq!(inflate_pixels(&deflate_pixels(&[]), u32::MAX, u32::MAX), None);
}

#[test]
fn an_image_is_known_by_its_size_and_its_pixels() {
    let a = image_signature(2, 1, &[1, 2, 3, 4, 5, 6, 7, 8]);
    assert_eq!(a, image_signature(2, 1, &[1, 2, 3, 4, 5, 6, 7, 8]));
    assert_ne!(a, image_signature(1, 2, &[1, 2, 3, 4, 5, 6, 7, 8]));
    assert_ne!(a, image_signature(2, 1, &[1, 2, 3, 4, 5, 6, 7, 9]));
}

#[test]
fn files_are_looked_at_first_then_text_then_images() {
    let all = Shares { text: true, images: true, files: true };
    assert_eq!(look_next(all, false, false), Look::Files);
    assert_eq!(look_next(all, true, false), Look::Text);
    assert_eq!(look_next(all, true, true), Look::Image);
    let none = Shares { text: false, images: false, files: false };
    assert_eq!(look_next(none, true, true), Look::Nothing);
}

#[test]
fn what_was_received_is_not_shared_back() {
    let peer = PeerId([1; 16]);
    let mut state = ClipboardState::new();
    assert_eq!(
        state.share_text("hello".into()),
        Some(Shared::Text { generation: 1, text: "hello".into() })
    );
    assert_eq!(state.share_text("hello".into()), None, "nothing changed");
    let relay = state.text_applied(peer, 9, "from afar".into());
    assert!(matches!(relay, Shared::Text { text, .. } if text == "from afar"));
    assert_eq!(state.share_text("from afar".into()), None);
    assert!(state.already_applied(peer, 9));
    assert!(!state.already_applied(peer, 10));

    let pixels = [9u8; 8];
    let packed = deflate_pixels(&pixels);
    state.image_applied(peer, 10, 2, 1, &pixels, packed);
    assert_eq!(state.share_image(2, 1, &pixels), None);
    assert!(matches!(
        state.share_image(1, 2, &pixels),
        Some(Shared::Image { width: 1, height: 2, .. })
    ));

    state.files_applied(peer, 11, 77, vec![]);
    assert!(state.files_seen(77));
    assert_eq!(state.share_files(77, Some(vec![("a".into(), vec![1])])), None);
    assert!(matches!(
        state.share_files(78, Some(vec![("a".into(), vec![1])])),
        Some(Shared::Files { .. })
    ));
}

#[test]
fn what_was_there_at_the_start_is_not_shared() {
    let mut state = ClipboardState::new();
    state.seed(Some("old".into()), Some((1, 1, vec![1, 2, 3, 4])), Some(5));
    assert_eq!(state.share_text("old".into()), None);
    assert_eq!(state.share_image(1, 1, &[1, 2, 3, 4]), None);
    assert!(state.files_seen(5));
    assert!(state.share_text("new".into()).is_some());
}

#[test]
fn a_relay_reaches_everyone_else() {
    let (a, b, c) = (PeerId([1; 16]), PeerId([2; 16]), PeerId([3; 16]));
    assert_eq!(relay_to(&vec![a, b, c, b], b), [a, c]);
}

#[test]
fn a_copy_that_is_too_large_is_refused() {
    let g = Gathering::new().add("a".into(), vec![0; 10]);
    assert_eq!(g.refused(), None);
    assert_eq!(g.finish(), [("a".to_string(), vec![0; 10])]);
    let g = Gathering::new().add("big".into(), vec![0; MAX_CLIPBOARD_FILE_BYTES + 1]);
    assert_eq!(
        g.refused().as_deref(),
        Some("the copy is over 64 MB; a clipboard is for documents, not disks")
    );
}

#[test]
fn received_paths_stay_in_the_spool() {
    let ok = |parts: &[&str]| Some(parts.iter().map(|p| p.to_string()).collect::<Vec<_>>());
    assert_eq!(spool_path("dir/a.txt", false), ok(&["dir", "a.txt"]));
    for bad in ["", "..", "a/../b", "/etc/passwd"] {
        assert_eq!(spool_path(bad, false), None, "{bad:?}");
    }
    assert_eq!(spool_path("C:\\x", true), None);
    assert_eq!(spool_path("z:", true), None);
    assert_eq!(spool_path("C:x", false), ok(&["C:x"]));
    assert_eq!(spool_path("a/C:x", true), ok(&["a", "C:x"]), "a drive is one at the start only");
    assert_eq!(spool_path("a\\z:", true), ok(&["a", "z:"]));
    assert_eq!(spool_path("a/C:x", false), ok(&["a", "C:x"]));
    assert_eq!(spool_path("dir\\:x", true), ok(&["dir", ":x"]));
    assert_eq!(child_path("dir", "x"), "dir/x");
    let mut tops = vec![];
    for t in ["a", "b", "a"] {
        note_top(&mut tops, t);
    }
    assert_eq!(tops, ["a", "b"]);
}

#[test]
fn notes_say_what_travelled() {
    assert_eq!(image_note(800, 600), "800 x 600");
    assert_eq!(sending_note(3), "3 files");
    assert_eq!(files_note(3, 4_096), "3 files, 4 KB");
}
