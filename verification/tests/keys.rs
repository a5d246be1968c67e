use seam::keys::{resolve_replay, LayoutPolicy, LogicalText, Modifiers, PhysicalKey, Replay};

#[test]
fn logical_text_holds_multibyte_scripts() {
    for s in ["a", "é", "ی", "щ", "の", "🙂"] {
        let t = LogicalText::new(s).expect("fits");
        assert_eq!(t.as_str(), s, "roundtrip {s}");
    }
}

#[test]
fn logical_text_rejects_oversized_input() {
    assert!(LogicalText::new("0123456789abcdef").is_none()); // 16 bytes > 15
    assert!(LogicalText::new("0123456789abcde").is_some()); // 15 bytes
}

#[test]
fn altgr_is_not_a_command_chord() {
    // Typing `@` on a German layout is AltGr+Q. If we classified that as a
    // shortcut we would replay the physical key and the user would get `q`.
    assert!(!Modifiers::right_alt().is_command_chord());
    assert!(!Modifiers::any_shift().is_command_chord());
    assert!(!Modifiers::caps_lock().is_command_chord());

    assert!(Modifiers::left_ctrl().is_command_chord());
    assert!(Modifiers::left_gui().is_command_chord());
    assert!(Modifiers::left_alt().is_command_chord());
}

#[test]
fn auto_policy_keeps_shortcuts_addressed_by_position() {
    // US sender presses Cmd+C. Receiver has a Persian layout where that physical
    // key types `ب`. The user means "copy", so replay the position.
    let r = resolve_replay(
        LayoutPolicy::Auto,
        PhysicalKey::c(),
        LogicalText::from_char('c'),
        Modifiers::left_gui(),
    );
    assert_eq!(r, Replay::Physical(PhysicalKey::c()));
}

#[test]
fn auto_policy_keeps_text_addressed_by_glyph() {
    // Persian sender types `ی`. Receiver has a US layout. The user means the
    // glyph, so replay the text — the physical key would produce `d`.
    let text = LogicalText::new("ی").unwrap();
    let r = resolve_replay(LayoutPolicy::Auto, PhysicalKey(0x07), text, Modifiers::none());
    assert_eq!(r, Replay::Text(text));
}

#[test]
fn auto_policy_types_at_sign_through_altgr() {
    // German sender: AltGr+Q produces `@`. Must arrive as `@`, not `q`.
    let text = LogicalText::from_char('@');
    let r = resolve_replay(
        LayoutPolicy::Auto,
        PhysicalKey(0x14), // physical Q
        text,
        Modifiers::right_alt(),
    );
    assert_eq!(r, Replay::Text(text));
}

#[test]
fn auto_policy_falls_back_to_position_for_textless_keys() {
    for key in [PhysicalKey::left_arrow(), PhysicalKey::enter(), PhysicalKey::left_shift()] {
        let r = resolve_replay(LayoutPolicy::Auto, key, LogicalText::none(), Modifiers::none());
        assert_eq!(r, Replay::Physical(key));
    }
}

#[test]
fn auto_policy_falls_back_to_text_for_unknown_position() {
    let text = LogicalText::from_char('%');
    let r = resolve_replay(LayoutPolicy::Auto, PhysicalKey::unknown(), text, Modifiers::none());
    assert_eq!(r, Replay::Text(text));
}

#[test]
fn modifier_keys_map_to_their_bits() {
    assert_eq!(PhysicalKey::left_ctrl().modifier_bit(), Some(Modifiers::left_ctrl()));
    assert_eq!(PhysicalKey::right_alt().modifier_bit(), Some(Modifiers::right_alt()));
    assert_eq!(PhysicalKey::a().modifier_bit(), None);
    assert!(PhysicalKey::left_shift().is_modifier());
    assert!(!PhysicalKey::space().is_modifier());
}

#[test]
fn modifiers_debug_is_readable() {
    let m = Modifiers::left_ctrl().union(Modifiers::right_alt());
    assert_eq!(m.describe(), "Modifiers(LCtrl|AltGr)");
    assert_eq!(Modifiers::none().describe(), "Modifiers(NONE)");
}

#[test]
fn a_consumer_key_is_no_keyboard_key() {
    assert_eq!(PhysicalKey::consumer(0xE9), PhysicalKey(0x80E9));
    assert!(!PhysicalKey::consumer(0xE9).is_modifier());
    assert!(PhysicalKey::unknown().is_unknown());
    assert!(!PhysicalKey::a().is_unknown());
}

#[test]
fn each_policy_keeps_its_word() {
    let glyph = LogicalText::from_char('ß');
    assert_eq!(
        resolve_replay(LayoutPolicy::Physical, PhysicalKey::a(), glyph, Modifiers::none()),
        Replay::Physical(PhysicalKey::a())
    );
    assert_eq!(
        resolve_replay(LayoutPolicy::Logical, PhysicalKey::a(), glyph, Modifiers::left_ctrl()),
        Replay::Text(glyph)
    );
    assert_eq!(
        resolve_replay(LayoutPolicy::Physical, PhysicalKey::unknown(), glyph, Modifiers::none()),
        Replay::Text(glyph)
    );
}

#[test]
fn text_is_kept_to_the_byte() {
    assert_eq!(LogicalText::new("fifteen bytes!!").unwrap().as_str(), "fifteen bytes!!");
    assert!(LogicalText::new("sixteen bytes!!!").is_none());
    assert!(LogicalText::none().is_empty());
    for c in ['a', 'é', '€', '😀', '\u{10FFFF}'] {
        assert_eq!(LogicalText::from_char(c).as_str(), c.to_string());
    }
}

#[test]
fn a_log_shows_the_text_of_a_key_in_quotes() {
    assert_eq!(LogicalText::from_char('"').describe(), "LogicalText(\"\\\"\")");
    assert_eq!(LogicalText::from_char('ß').describe(), "LogicalText(\"ß\")");
}
