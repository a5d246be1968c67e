use seam::keys::{Modifiers, PhysicalKey};
use seam::state::KeyState;

#[test]
fn press_and_release_track_membership() {
    let mut s = KeyState::new();
    assert!(s.press(PhysicalKey::a()));
    assert!(!s.press(PhysicalKey::a()), "repeat press is not a change");
    assert!(s.is_pressed(PhysicalKey::a()));
    assert_eq!(s.count(), 1);
    assert!(s.release(PhysicalKey::a()));
    assert!(!s.release(PhysicalKey::a()), "repeat release is not a change");
    assert!(s.is_empty());
}

#[test]
fn modifier_mask_follows_modifier_keys() {
    let mut s = KeyState::new();
    s.press(PhysicalKey::left_ctrl());
    s.press(PhysicalKey::right_alt());
    assert!(s.modifiers().contains(Modifiers::left_ctrl()));
    assert!(s.modifiers().contains(Modifiers::right_alt()));
    s.release(PhysicalKey::left_ctrl());
    assert!(!s.modifiers().contains(Modifiers::left_ctrl()));
    assert!(s.modifiers().contains(Modifiers::right_alt()));
}

#[test]
fn iteration_yields_exactly_the_pressed_keys() {
    let mut s = KeyState::new();
    let keys = [PhysicalKey::a(), PhysicalKey::space(), PhysicalKey::left_gui(), PhysicalKey(255)];
    for k in keys {
        s.press(k);
    }
    let mut got: Vec<_> = s.iter();
    got.sort_unstable();
    let mut want = keys.to_vec();
    want.sort_unstable();
    assert_eq!(got, want);
}

#[test]
fn digest_is_order_independent() {
    let mut a = KeyState::new();
    let mut b = KeyState::new();
    for k in [PhysicalKey::left_ctrl(), PhysicalKey::a(), PhysicalKey::space()] {
        a.press(k);
    }
    for k in [PhysicalKey::space(), PhysicalKey::left_ctrl(), PhysicalKey::a()] {
        b.press(k);
    }
    assert_eq!(a.digest(), b.digest());
}

#[test]
fn digest_detects_a_single_stuck_key() {
    let mut sender = KeyState::new();
    sender.press(PhysicalKey::a());
    let mut receiver = sender;
    receiver.press(PhysicalKey::left_ctrl()); // the classic stuck modifier
    assert_ne!(sender.digest(), receiver.digest());
}

#[test]
fn reconcile_releases_a_stuck_modifier() {
    // Receiver missed the Ctrl-up: this is the exact real-world failure.
    let mut sender = KeyState::new();
    sender.press(PhysicalKey::a());

    let mut receiver = KeyState::new();
    receiver.press(PhysicalKey::a());
    receiver.press(PhysicalKey::left_ctrl());

    let fix = receiver.reconcile(&sender);
    assert!(!fix.is_noop());
    assert_eq!(fix.to_release.iter(), vec![PhysicalKey::left_ctrl()]);
    assert_eq!(fix.to_press.count(), 0);

    // Applying the repair converges, and a second pass is a no-op.
    for k in fix.to_release.iter() {
        receiver.release(k);
    }
    assert_eq!(receiver.digest(), sender.digest());
    assert!(receiver.reconcile(&sender).is_noop());
}

#[test]
fn reconcile_presses_a_key_the_receiver_missed() {
    let mut sender = KeyState::new();
    sender.press(PhysicalKey::left_shift());
    let receiver = KeyState::new();

    let fix = receiver.reconcile(&sender);
    assert_eq!(fix.to_press.iter(), vec![PhysicalKey::left_shift()]);
    assert_eq!(fix.to_release.count(), 0);
    assert!(fix.modifiers.contains(Modifiers::left_shift()));
}

#[test]
fn identical_states_reconcile_to_nothing() {
    let mut s = KeyState::new();
    s.press(PhysicalKey::left_gui());
    s.press(PhysicalKey::tab());
    assert!(s.reconcile(&s.clone()).is_noop());
}

#[test]
fn clear_releases_everything() {
    let mut s = KeyState::new();
    for k in [PhysicalKey::left_ctrl(), PhysicalKey::left_alt(), PhysicalKey::a()] {
        s.press(k);
    }
    s.clear();
    assert!(s.is_empty());
    assert_eq!(s.modifiers(), Modifiers::none());
    assert_eq!(s.digest(), KeyState::new().digest());
}

#[test]
fn locks_are_set_not_inferred() {
    let mut s = KeyState::new();
    s.set_locks(Modifiers::caps_lock().union(Modifiers::num_lock()));
    assert!(s.modifiers().contains(Modifiers::caps_lock()));
    assert!(s.modifiers().contains(Modifiers::num_lock()));
    s.set_locks(Modifiers::num_lock());
    assert!(!s.modifiers().contains(Modifiers::caps_lock()));
    assert!(s.modifiers().contains(Modifiers::num_lock()));
}

#[test]
fn untracked_usages_are_ignored_rather_than_panicking() {
    let mut s = KeyState::new();
    assert!(!s.press(PhysicalKey(0x1000)));
    assert!(!s.is_pressed(PhysicalKey(0x1000)));
    assert!(s.is_empty());
}

#[test]
fn reconciling_brings_the_receiver_to_the_authority() {
    let mut mine = KeyState::new();
    let mut theirs = KeyState::new();
    for k in [4, 5, 0x39, 0xE0, 0xE7] {
        mine.press(PhysicalKey(k));
    }
    for k in [5, 6, 0xE7, 200] {
        theirs.press(PhysicalKey(k));
    }
    let fix = mine.reconcile(&theirs);
    for k in fix.to_release.iter() {
        mine.release(k);
    }
    for k in fix.to_press.iter() {
        mine.press(k);
    }
    assert_eq!(mine.iter(), theirs.iter());
    assert!(mine.reconcile(&theirs).to_press.is_empty());
    assert!(mine.reconcile(&theirs).to_release.is_empty());
}

#[test]
fn an_empty_state_has_its_own_digest() {
    let empty = KeyState::new();
    assert_eq!(empty.digest(), KeyState::default().digest());
    let mut one = KeyState::new();
    one.press(PhysicalKey::left_shift());
    assert_ne!(one.digest(), empty.digest());
    one.release(PhysicalKey::left_shift());
    assert_eq!(one.digest(), empty.digest());
}

#[test]
fn only_the_tracked_usages_are_held() {
    let mut s = KeyState::new();
    for usage in 0..300u16 {
        let before = s.count();
        let changed = s.press(PhysicalKey(usage));
        assert_eq!(changed, usage < 256);
        assert_eq!(s.count(), before + u32::from(changed));
    }
    assert_eq!(s.count(), 256);
    let held = s.iter();
    assert_eq!(held.len(), 256);
    assert!(held.iter().all(|k| k.0 < 256));
    assert!(s.release(PhysicalKey(7)));
    assert!(!s.release(PhysicalKey(7)));
    assert_eq!(s.count(), 255);
}

#[test]
fn a_difference_among_neighbouring_keys_shows_in_the_digest() {
    let mut a = KeyState::new();
    let mut b = KeyState::new();
    for usage in [70, 80, 127] {
        a.press(PhysicalKey(usage));
    }
    for usage in [64, 80] {
        b.press(PhysicalKey(usage));
    }
    assert_ne!(a.digest(), b.digest());
    let mut c = a;
    c.set_locks(Modifiers::caps_lock());
    assert_ne!(a.digest(), c.digest());
}

#[test]
fn a_stuck_modifier_shows_in_the_digest() {
    // A modifier held on one side changes both the keys and the mask.
    for usage in 0xE0..=0xE7u16 {
        let mut sender = KeyState::new();
        sender.press(PhysicalKey::a());
        let mut receiver = sender;
        receiver.press(PhysicalKey(usage));
        assert_ne!(sender.digest(), receiver.digest());
        receiver.release(PhysicalKey(usage));
        assert_eq!(sender.digest(), receiver.digest());
    }
}

#[test]
fn no_two_sets_of_modifiers_and_locks_share_a_digest() {
    let mut digests = vec![];
    for mask in 0..0x800u16 {
        let mut s = KeyState::new();
        for j in 0..8 {
            if mask & (1 << j) != 0 {
                s.press(PhysicalKey(0xE0 + j));
            }
        }
        s.set_locks(Modifiers(mask & 0x700));
        assert_eq!(s.modifiers(), Modifiers(mask));
        digests.push(s.digest());
    }
    digests.sort_unstable();
    digests.dedup();
    assert_eq!(digests.len(), 0x800);
}
