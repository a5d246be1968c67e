use seam::layout::{detect, read_default, Layout, Platform};

#[test]
fn detection_never_panics_and_always_says_something() {
    for platform in [Platform::MacOs, Platform::Windows, Platform::Other] {
        for output in [None, Some(""), Some("de"), Some("{\n    com.apple.keylayout.US\n}")] {
            let layout = detect(platform, output);
            assert!(!layout.display().is_empty());
        }
    }
}

#[test]
fn macos_reports_a_real_layout() {
    // On a Mac this must succeed: the layout is always detectable, so falling back to
    // Unknown here would mean seam is asking a question it did not need to ask.
    match detect(Platform::MacOs, Some("com.apple.keylayout.German-DIN-2137\n")) {
        Layout::Known { id, display } => {
            assert!(id.starts_with("com.apple.keylayout."), "unexpected id {id}");
            assert!(!display.is_empty());
        }
        Layout::Unknown { why } => panic!("macOS layout should be detectable: {why}"),
    }
}

#[test]
fn a_layout_is_shown_by_the_last_part_of_its_name() {
    let id = "com.apple.keylayout.German-DIN-2137";
    assert_eq!(
        detect(Platform::MacOs, Some(&format!("  {id}\n"))),
        Layout::Known { id: id.into(), display: "German-DIN-2137".into() }
    );
    assert_eq!(
        detect(Platform::MacOs, Some(" \n")).display(),
        "macOS did not report a selected keyboard layout"
    );
    assert_eq!(read_default(Some(" x ")).as_deref(), Some("x"));
    assert_eq!(read_default(None), None);
    assert!(Layout::composes_with_option(Platform::MacOs));
    assert!(!Layout::composes_with_option(Platform::Windows));
}
