use seam::capture::Permissions;
use seam::inject::{
    inject_button, inject_key, inject_motion, inject_scroll, inject_text, may_capture,
    motion_landed, note_held, permission_report, virtual_key_for, Error, Stroke, Wheel,
};
use seam::screen::PixelRect;

#[test]
fn macos_reports_its_permission_state() {
    for (can_listen, can_post) in [(false, false), (false, true), (true, false), (true, true)] {
        let report = permission_report(Some(Permissions { can_listen, can_post }))
            .expect("macOS has permissions");
        assert_eq!(report.len(), 2);
        for grant in report {
            assert!(!grant.what.is_empty());
            assert!(grant.where_to.contains("System Settings"), "must tell the user where to go");
        }
    }
}

#[test]
fn seeing_input_without_withholding_it_is_refused() {
    assert!(may_capture(Permissions { can_listen: true, can_post: true }).is_ok());
    let text = may_capture(Permissions { can_listen: false, can_post: true })
        .unwrap_err()
        .describe();
    assert_eq!(
        text,
        "seam needs permission to watch the mouse and keyboard on this machine. Grant it in \
         System Settings > Privacy & Security > Input Monitoring, then restart seam — the \
         permission does not apply to an already-running program."
    );
    let text = may_capture(Permissions { can_listen: true, can_post: false })
        .unwrap_err()
        .describe();
    assert!(text.contains("Accessibility"), "{text}");
    assert!(permission_report(None).is_none());
}

#[test]
fn every_corner_of_the_desktop_can_be_reached() {
    let desktop = PixelRect::new(-1920, 0, 4480, 1200);
    assert_eq!(inject_motion(-1920, 0, desktop).unwrap(), (0, 0));
    assert_eq!(inject_motion(2559, 1199, desktop).unwrap(), (65535, 65535));
    assert_eq!(inject_motion(9999, -5, desktop).unwrap(), (65535, 0));
    assert_eq!(inject_motion(-1920 + 2239, 599, desktop).unwrap(), (32760, 32740));
    let text = inject_motion(0, 0, PixelRect::new(0, 0, 0, 5)).unwrap_err().describe();
    assert_eq!(
        text,
        "the operating system refused an input operation: the virtual desktop has no size"
    );
}

#[test]
fn a_pointer_that_did_not_move_was_blocked() {
    assert!(motion_landed(100, 100, (102, 98)).is_ok());
    assert!(matches!(motion_landed(100, 100, (103, 100)), Err(Error::PermissionDenied { .. })));
    assert!(motion_landed(i32::MIN, 0, (i32::MAX, 0)).is_err());
}

#[test]
fn strokes_and_turns_are_what_was_asked_for() {
    assert_eq!(inject_button(1, true).unwrap(), Stroke::LeftDown);
    assert_eq!(inject_button(2, false).unwrap(), Stroke::RightUp);
    assert_eq!(inject_button(3, true).unwrap(), Stroke::MiddleDown);
    assert_eq!(
        inject_button(4, true).unwrap_err().describe(),
        "input that mouse button is not implemented on this platform yet"
    );
    assert_eq!(
        inject_scroll(-1, 3),
        [Wheel { horizontal: false, amount: 360 }, Wheel { horizontal: true, amount: -120 }]
    );
    assert!(inject_scroll(0, 0).is_empty());
    assert_eq!(inject_scroll(0, i32::MAX)[0].amount, i32::MAX);
}

#[test]
fn text_is_typed_unit_by_unit() {
    for s in ["", "abc", "سلام", "a😀b", "\u{10FFFF}"] {
        let units = inject_text(s);
        assert_eq!(units, s.encode_utf16().collect::<Vec<u16>>());
        assert_eq!(String::from_utf16(&units).unwrap(), s);
    }
}

#[test]
fn keys_have_the_virtual_keys_of_their_place() {
    assert_eq!(virtual_key_for(0x04), 0x41);
    assert_eq!(virtual_key_for(0x1D), 0x5A);
    assert_eq!(virtual_key_for(0x27), 0x30);
    assert_eq!(virtual_key_for(0x45), 0x7B);
    assert_eq!(virtual_key_for(0xE3), 0x5B);
    assert_eq!(virtual_key_for(0x80E9), 0xAF);
    assert_eq!(virtual_key_for(0x806F), 0, "brightness has no virtual key");
    assert_eq!(inject_key(0x28).unwrap(), 0x0D);
    assert_eq!(
        inject_key(0x806F).unwrap_err().describe(),
        "input that key is not implemented on this platform yet"
    );
    let mut seen = Vec::new();
    for usage in 0..0x8000u16 {
        let vk = virtual_key_for(usage);
        if vk != 0 {
            assert!(!seen.contains(&vk), "{usage:#x} shares a virtual key");
            seen.push(vk);
        }
    }
}

#[test]
fn what_was_let_go_of_is_not_held() {
    let mut held = vec![];
    for usage in [4, 0x80E9, 4, 5] {
        note_held(&mut held, usage, true);
    }
    assert_eq!(held, [0x80E9, 4, 5], "each once, and media keys too");
    note_held(&mut held, 4, false);
    note_held(&mut held, 9, false);
    assert_eq!(held, [0x80E9, 5]);
}
