use seam::desk::{
    edge_for, find_match, find_relation, holds, layout_needs_rebuild, order_of, set_layout,
    stored_layout, word_for, Desk, Relation, ScreenSize,
};
use seam::focus::Focus;
use seam::frame::{Edge, PeerId};

const A: PeerId = PeerId([0xA1; 16]);
const B: PeerId = PeerId([0xB2; 16]);

fn relation(peer: &str, edge: Edge, anchor: &str) -> Relation {
    Relation { peer: peer.into(), edge, anchor: anchor.into() }
}

fn sizes() -> Vec<ScreenSize> {
    vec![
        ScreenSize { peer: A, width: 1920, height: 1080 },
        ScreenSize { peer: B, width: 1280, height: 800 },
    ]
}

#[test]
fn an_arrangement_survives_being_written_and_read() {
    let file = set_layout("", "a1a1a1a1", "left", "self").unwrap();
    let file = set_layout(&file, "b2b2b2b2", "below", "a1a1a1a1");
    assert_eq!(file, None, "only the four words of the file are sides");
    let file = set_layout("a1a1a1a1 left self\n", "b2b2b2b2", "bottom", "a1a1a1a1").unwrap();
    assert_eq!(
        stored_layout(&file),
        [relation("a1a1a1a1", Edge::Left, "self"), relation("b2b2b2b2", Edge::Bottom, "a1a1a1a1")]
    );
    // The last answer replaces the earlier one.
    let file = set_layout(&file, "a1a1a1a1", "right", "self").unwrap();
    assert_eq!(
        stored_layout(&file),
        [relation("b2b2b2b2", Edge::Bottom, "a1a1a1a1"), relation("a1a1a1a1", Edge::Right, "self")]
    );
}

#[test]
fn an_answer_that_is_no_arrangement_is_refused() {
    assert_eq!(set_layout("", "", "left", "self"), None);
    assert_eq!(set_layout("", "a1", "sideways", "self"), None);
    assert_eq!(set_layout("", "a1", "left", "a1"), None);
}

#[test]
fn unreadable_lines_say_nothing() {
    let rs = stored_layout("a1\nb2 nowhere self\n\nc3 top\n");
    assert_eq!(rs, [relation("c3", Edge::Top, "self")]);
    for e in [Edge::Left, Edge::Right, Edge::Top, Edge::Bottom] {
        let word: Vec<char> = word_for(e).chars().collect();
        assert_eq!(edge_for(&word), Some(e));
    }
}

#[test]
fn machines_are_found_by_the_start_of_their_id() {
    let rs = vec![relation("b2", Edge::Left, "self"), relation("a1a1", Edge::Top, "b2")];
    assert_eq!(find_relation(&rs, &A), Some(1));
    assert_eq!(find_relation(&rs, &PeerId([3; 16])), None);
    assert_eq!(find_match(&vec![A, B], "b2b2"), Some(B));
    assert_eq!(find_match(&vec![A, B], "c"), None);
    assert!(holds(&vec![A, B], &B));
    assert!(!holds(&vec![A], &B));
}

#[test]
fn machines_go_where_a_person_put_them() {
    let mut desk = Desk::new(2560, 1080);
    let rs = vec![
        relation("a1a1a1a1", Edge::Right, "self"),
        relation("b2b2b2b2", Edge::Right, "a1a1a1a1"),
    ];
    desk.sync_peers(&vec![A, B], &sizes(), &vec![A, B], &rs, false);
    assert_eq!(desk.known, [A, B]);
    assert_eq!(desk.places, [(A, Edge::Right), (B, Edge::Right)]);
    assert_eq!(desk.graph.apply_motion(2000, 0).focus, Focus::Remote(A));
    assert_eq!(desk.graph.apply_motion(2000, 0).focus, Focus::Remote(B));
}

#[test]
fn without_an_arrangement_the_first_goes_left_and_the_next_below_it() {
    let mut desk = Desk::new(2560, 1080);
    desk.sync_peers(&vec![B, A], &sizes(), &vec![A, B], &vec![], false);
    assert_eq!(desk.known, [A, B], "in the order in which they were paired");
    assert_eq!(desk.places, [(A, Edge::Left), (B, Edge::Bottom)]);
}

#[test]
fn a_machine_waits_for_its_size_and_leaves_when_it_is_gone() {
    let mut desk = Desk::new(2560, 1080);
    desk.sync_peers(&vec![A], &vec![], &vec![A], &vec![], false);
    assert!(desk.known.is_empty());
    desk.sync_peers(&vec![A], &sizes(), &vec![A], &vec![], false);
    desk.graph.apply_motion(-5000, 0);
    assert_eq!(desk.graph.focus(), Focus::Remote(A));
    desk.sync_peers(&vec![], &sizes(), &vec![A], &vec![], false);
    assert!(desk.known.is_empty());
    assert_eq!(desk.graph.focus(), Focus::Local, "a machine that is gone must not hold input");
}

#[test]
fn a_neighbour_that_comes_back_restores_the_arrangement() {
    let rs = vec![
        relation("a1a1a1a1", Edge::Left, "b2b2b2b2"),
        relation("b2b2b2b2", Edge::Left, "self"),
    ];
    let mut desk = Desk::new(2560, 1080);
    desk.sync_peers(&vec![A], &sizes(), &vec![A, B], &rs, false);
    assert_eq!(desk.places, [(A, Edge::Left)]);
    assert!(layout_needs_rebuild(&rs, &vec![A, B], &desk.known));
    // The neighbour first, and the machine beside it in the next pass.
    desk.sync_peers(&vec![A, B], &sizes(), &vec![A, B], &rs, true);
    assert_eq!(desk.known, [B]);
    desk.sync_peers(&vec![A, B], &sizes(), &vec![A, B], &rs, false);
    assert_eq!(desk.graph.apply_motion(-1300, 0).focus, Focus::Remote(B));
    assert_eq!(desk.graph.apply_motion(-1300, 0).focus, Focus::Remote(A));
    assert!(!layout_needs_rebuild(&rs, &vec![A, B], &desk.known));
}

#[test]
fn a_machine_that_comes_back_is_placed_anew() {
    let mut d = Desk::new(2560, 1080);
    let none: Vec<Relation> = vec![];
    d.sync_peers(&vec![A], &sizes(), &vec![A], &none, false);
    assert!(d.graph.is_placed(A));
    d.sync_peers(&vec![], &sizes(), &vec![A], &none, false);
    assert!(!d.graph.is_placed(A));
    assert!(d.known.is_empty());
    let smaller = vec![ScreenSize { peer: A, width: 640, height: 480 }];
    d.sync_peers(&vec![A], &smaller, &vec![A], &none, false);
    assert!(d.graph.is_placed(A));
    assert_eq!(d.graph.apply_motion(-50_000, 0).focus, Focus::Remote(A));
    assert_eq!(d.graph.apply_motion(639, 0).focus, Focus::Remote(A));
    assert_eq!(d.graph.apply_motion(1, 0).focus, Focus::Local);
}

#[test]
fn a_new_pairing_is_the_last_one() {
    assert_eq!(order_of(&vec![A, B], &vec![B]), [B, A]);
    assert_eq!(order_of(&vec![A, B], &vec![B, A]), [B, A], "recorded once");
    assert_eq!(order_of(&vec![A], &vec![B, A]), [A], "one that is gone has no place");
}

#[test]
fn an_empty_desk_has_the_size_of_this_screen() {
    let mut desk = Desk::new(300, 100);
    assert_eq!(desk.graph.position(), (150, 50));
    let update = desk.graph.apply_motion(1000, 1000);
    assert_eq!((update.x, update.y), (299, 99));
}
