use seam::capture::Observed;
use seam::desk::{Relation, ScreenSize};
use seam::event::{Button, Press};
use seam::focus::{Focus, Update};
use seam::forward::{
    handover, is_suppressing_local, press, set_suppress_local, to_frame, CursorAction, CursorGuard,
    Forwarder, LocalInput, Tick,
};
use seam::frame::{Edge, Frame, PeerId};
use seam::keys::{LogicalText, Modifiers, PhysicalKey};

fn to(focus: Focus) -> Update {
    Update { focus, changed: true, x: 100, y: 100 }
}

#[test]
fn leaving_mutes_this_machine_and_returning_unmutes_it() {
    let mut local = LocalInput::new();
    let guard = handover(to(Focus::Remote(PeerId([1; 16]))), None, &mut local).guard;
    assert!(is_suppressing_local(&local), "should be muted while away");

    let guard = handover(to(Focus::Local), guard, &mut local).guard;
    assert!(!is_suppressing_local(&local), "should respond again");
    assert!(guard.is_none());
}

#[test]
fn moving_between_two_peers_keeps_this_machine_muted() {
    // Dropping the incoming guard after the new one was made would clear suppression, so
    // hopping peers would silently switch this machine's input back on while a peer still
    // owned the pointer.
    let mut local = LocalInput::new();
    let guard = handover(to(Focus::Remote(PeerId([1; 16]))), None, &mut local).guard;
    assert!(is_suppressing_local(&local));

    let guard = handover(to(Focus::Remote(PeerId([2; 16]))), guard, &mut local).guard;
    assert!(
        is_suppressing_local(&local),
        "hopping between peers must not unmute this machine"
    );

    handover(to(Focus::Local), guard, &mut local);
    assert!(!is_suppressing_local(&local));
}

#[test]
fn the_machine_shown_is_the_one_that_holds_the_pointer() {
    let mut local = LocalInput::new();
    let first = handover(to(Focus::Remote(PeerId([1; 16]))), None, &mut local);
    assert_eq!(local.shown_owner, Some(PeerId([1; 16])));
    let second = handover(to(Focus::Remote(PeerId([2; 16]))), first.guard, &mut local);
    assert_eq!(second.action, CursorAction::Keep);
    assert_eq!(second.guard, first.guard);
    assert_eq!(local.shown_owner, Some(PeerId([2; 16])), "after a hop it is the second peer");
    handover(to(Focus::Local), second.guard, &mut local);
    assert_eq!(local.shown_owner, None);
}

#[test]
fn repeated_round_trips_always_end_unmuted() {
    // A one-way leak passes a single trip and strands the machine on a later one.
    let mut local = LocalInput::new();
    let mut guard = None;
    for trip in 0..5 {
        guard = handover(to(Focus::Remote(PeerId([1; 16]))), guard, &mut local).guard;
        assert!(is_suppressing_local(&local), "trip {trip}: not muted");

        guard = handover(to(Focus::Local), guard, &mut local).guard;
        assert!(!is_suppressing_local(&local), "trip {trip}: this machine was left muted");
    }
    assert!(guard.is_none());
}

#[test]
fn returning_twice_is_harmless() {
    // Layout changes can hand focus back on their own, so `Local` can arrive without a
    // matching `Remote`. It must never leave the machine muted.
    let mut local = LocalInput::new();
    let guard = handover(to(Focus::Local), None, &mut local).guard;
    assert!(!is_suppressing_local(&local));
    handover(to(Focus::Local), guard, &mut local);
    assert!(!is_suppressing_local(&local));
}

#[test]
fn releasing_input_is_safe_even_when_nothing_was_captured() {
    // The recovery path must never require a prior capture, because it exists
    // precisely for the case where the process that captured is already gone.
    let mut local = LocalInput::new();
    set_suppress_local(&mut local, false);
    set_suppress_local(&mut local, false);
    assert!(!is_suppressing_local(&local));
}

#[test]
fn letting_go_shows_the_cursor_often_enough() {
    let mut local = LocalInput::new();
    set_suppress_local(&mut local, true);
    let guard = CursorGuard::detached(true).hidden_again();
    let shows = guard.release(&mut local);
    assert!(shows >= 2, "hidden twice, shown {shows} times");
    assert!(!is_suppressing_local(&local));
}

#[test]
fn captured_events_become_frames() {
    assert_eq!(press(true), Press::Down);
    assert_eq!(press(false), Press::Up);
    assert!(to_frame(Observed::Motion { x: 0, y: 0, dx: 1, dy: 1 }, 1).is_none());
    let Some(Frame::Button(b)) = to_frame(Observed::Button { button: 2, down: true }, 7) else {
        panic!("a button has a frame");
    };
    assert_eq!((b.seq, b.button, b.press), (7, Button::Right, Press::Down));
    assert!(to_frame(Observed::Button { button: 0, down: true }, 7).is_none());
    let Some(Frame::Scroll(s)) = to_frame(Observed::Scroll { dx: 1, dy: -2 }, 8) else {
        panic!("a scroll has a frame");
    };
    assert_eq!((s.seq, s.dx, s.dy), (8, 1, -2));
    let key = Observed::Key {
        text: LogicalText::from_char('q'),
        physical: PhysicalKey(0x14),
        modifiers: Modifiers::left_shift(),
        down: false,
    };
    let Some(Frame::Key(k)) = to_frame(key, 9) else {
        panic!("a key has a frame");
    };
    assert_eq!((k.seq, k.physical, k.press), (9, PhysicalKey(0x14), Press::Up));
    assert_eq!(k.logical.as_str(), "q");
}

const DESK: PeerId = PeerId([1; 16]);

fn tick(event: Option<Observed>, live: Vec<PeerId>) -> Tick {
    Tick {
        event,
        live,
        sizes: vec![ScreenSize { peer: DESK, width: 1920, height: 1080 }],
        order: vec![DESK],
        layout: vec![Relation { peer: "01010101".into(), edge: Edge::Left, anchor: "self".into() }],
        relayout: false,
        release: false,
        disabled: vec![],
        cursor: None,
    }
}

fn moved(dx: i32) -> Option<Observed> {
    Some(Observed::Motion { x: 0, y: 540, dx, dy: 0 })
}

#[test]
fn input_follows_the_pointer_across_the_edge_and_back() {
    let mut f = Forwarder::new(2560, 1080);
    let plan = f.step(&tick(None, vec![DESK]));
    assert!(plan.send.is_none() && plan.cursor.is_empty());

    // Off the left edge: the cursor is decoupled and motion goes to the peer.
    let plan = f.step(&tick(moved(-20), vec![DESK]));
    assert_eq!(f.holder, Some(DESK));
    assert!(is_suppressing_local(&f.local));
    assert!(plan.cursor.contains(&CursorAction::Detach));
    assert!(matches!(plan.send, Some((DESK, Frame::Motion(_)))));

    // A key goes to the same peer.
    let key = Observed::Key {
        text: LogicalText::from_char('x'),
        physical: PhysicalKey::x(),
        modifiers: Modifiers::none(),
        down: true,
    };
    let plan = f.step(&tick(Some(key), vec![DESK]));
    assert!(matches!(plan.send, Some((DESK, Frame::Key(_)))));

    // Back over the edge: the peer is told, and input is here again.
    let plan = f.step(&tick(moved(4000), vec![DESK]));
    assert_eq!(plan.leave, Some(DESK));
    assert!(plan.send.is_none());
    assert!(!is_suppressing_local(&f.local));
    assert_eq!(f.holder, None);
}

#[test]
fn a_peer_that_disappears_gives_the_pointer_back() {
    let mut f = Forwarder::new(2560, 1080);
    f.step(&tick(moved(-20), vec![DESK]));
    assert!(is_suppressing_local(&f.local));
    let plan = f.step(&tick(None, vec![]));
    assert!(plan.returned);
    assert!(!is_suppressing_local(&f.local));
    assert!(f.step(&tick(moved(-50), vec![])).send.is_none());
}

#[test]
fn a_switched_off_peer_gets_nothing() {
    let mut f = Forwarder::new(2560, 1080);
    let mut t = tick(moved(-20), vec![DESK]);
    t.disabled = vec![DESK];
    let plan = f.step(&t);
    assert!(plan.send.is_none());
    assert!(!is_suppressing_local(&f.local));
}

#[test]
fn the_release_button_brings_the_pointer_home() {
    let mut f = Forwarder::new(2560, 1080);
    f.step(&tick(moved(-20), vec![DESK]));
    let mut t = tick(None, vec![DESK]);
    t.release = true;
    f.step(&t);
    assert!(!is_suppressing_local(&f.local));
    assert_eq!(f.holder, None);
}

#[test]
fn a_cursor_that_cannot_be_decoupled_stays_ours() {
    let mut f = Forwarder::new(2560, 1080);
    f.step(&tick(moved(-20), vec![DESK]));
    f.detach_failed();
    assert!(f.guard.is_none());
}

#[test]
fn dropping_the_guard_always_restores_local_input() {
    let mut local = LocalInput::new();
    let guard = CursorGuard::detached(false);
    set_suppress_local(&mut local, true);
    assert!(is_suppressing_local(&local));
    let _ = guard.release(&mut local);
    assert!(!is_suppressing_local(&local), "the Mac would have been left unable to respond");
}

#[test]
fn a_forwarder_starts_in_the_middle_of_this_screen() {
    let f = Forwarder::new(300, 100);
    assert_eq!(f.desk.graph.position(), (150, 50));
    assert_eq!(f.desk.graph.node_count(), 1);
    assert!(f.desk.places.is_empty() && f.desk.known.is_empty());
}
