use seam::focus::{scale, Focus, Graph, Update};
use seam::frame::{Edge, PeerId};

fn imac() -> PeerId {
    PeerId([1; 16])
}
fn laptop() -> PeerId {
    PeerId([2; 16])
}

/// The development fleet: iMac left of the Mac-mini, laptop below the iMac.
fn fleet() -> Graph {
    let mut g = Graph::new(2560, 1080);
    g.place(imac(), Edge::Left, None, 1920, 1080);
    g.place(laptop(), Edge::Bottom, Some(imac()), 1920, 1080);
    g
}

#[test]
fn the_local_cursor_position_is_adopted_while_input_is_here() {
    // Otherwise the boundary drifts away from the real cursor and the pointer crosses
    // while it is still visibly mid-screen.
    let mut g = fleet();
    g.sync_local_cursor(2559, 500);
    // One step left from the far right edge must NOT cross.
    let update = g.apply_motion(-1, 0);
    assert_eq!(update.focus, Focus::Local);
    assert_eq!(update.x, 2558);

    // From the left edge, one step left must cross.
    g.sync_local_cursor(0, 500);
    assert_eq!(g.apply_motion(-1, 0).focus, Focus::Remote(imac()));
}

#[test]
fn the_local_cursor_is_ignored_once_the_pointer_has_left() {
    // The OS cursor is detached and frozen while a peer owns the pointer, so adopting
    // it would drag focus back to a stale position.
    let mut g = fleet();
    g.sync_local_cursor(0, 500);
    g.apply_motion(-1, 0);
    assert_eq!(g.focus(), Focus::Remote(imac()));

    g.sync_local_cursor(1280, 540);
    assert_eq!(g.focus(), Focus::Remote(imac()), "must stay on the peer");
}

#[test]
fn input_starts_here() {
    assert_eq!(fleet().focus(), Focus::Local);
}

#[test]
fn leaving_the_left_edge_reaches_the_machine_on_the_left() {
    let mut g = fleet();
    let update = g.apply_motion(-5000, 0);
    assert!(update.changed);
    assert_eq!(update.focus, Focus::Remote(imac()));
}

#[test]
fn leaving_that_machines_right_edge_comes_back_here() {
    let mut g = fleet();
    g.apply_motion(-5000, 0);
    assert_eq!(g.focus(), Focus::Remote(imac()));

    let update = g.apply_motion(5000, 0);
    assert!(update.changed);
    assert_eq!(update.focus, Focus::Local);
}

#[test]
fn arriving_from_the_left_edge_lands_on_the_neighbours_right_side() {
    // Continuity: pushing left off this screen must appear at the *right* of the next
    // one, not teleport to its left.
    let mut g = fleet();
    // Just past the edge: the overshoot is small, so it lands near the far side.
    let update = g.apply_motion(-1281, 0);
    assert_eq!(update.focus, Focus::Remote(imac()));
    assert!(update.x > 1800, "should enter near the right edge, got {}", update.x);
}

#[test]
fn leaving_the_bottom_of_the_left_machine_reaches_the_laptop() {
    let mut g = fleet();
    g.apply_motion(-1281, 0);
    assert_eq!(g.focus(), Focus::Remote(imac()));

    // Pointer sits at y=540 on a 1080-tall screen; 541 puts it just past the bottom.
    let update = g.apply_motion(0, 541);
    assert!(update.changed);
    assert_eq!(update.focus, Focus::Remote(laptop()));
    assert!(update.y < 100, "should enter near the top, got {}", update.y);
}

#[test]
fn leaving_the_top_of_the_laptop_returns_to_the_left_machine() {
    let mut g = fleet();
    g.apply_motion(-1281, 0);
    g.apply_motion(0, 541);
    assert_eq!(g.focus(), Focus::Remote(laptop()));

    // The pointer entered the laptop at y=1, so -2 puts it just past the top.
    let update = g.apply_motion(0, -2);
    assert_eq!(update.focus, Focus::Remote(imac()));
    assert!(update.y > 900, "should enter near the bottom, got {}", update.y);
}

#[test]
fn there_is_no_direct_edge_between_this_machine_and_the_laptop() {
    // The laptop is only reachable through the iMac, matching the physical layout.
    let mut g = fleet();
    let update = g.apply_motion(0, 5000);
    assert_eq!(update.focus, Focus::Local, "the bottom edge here leads nowhere");
    assert_eq!(update.y, 1079, "so the pointer stops at the edge");
}

#[test]
fn an_edge_with_no_neighbour_stops_the_pointer_rather_than_losing_it() {
    let mut g = fleet();
    let update = g.apply_motion(5000, 0);
    assert_eq!(update.focus, Focus::Local);
    assert_eq!(update.x, 2559);
}

#[test]
fn one_fast_movement_can_cross_two_screens() {
    let mut g = Graph::new(1000, 1000);
    g.place(imac(), Edge::Left, None, 1000, 1000);
    g.place(laptop(), Edge::Left, Some(imac()), 1000, 1000);

    let update = g.apply_motion(-2500, 0);
    assert_eq!(update.focus, Focus::Remote(laptop()), "a flick must not stop halfway");
}

#[test]
fn position_along_the_edge_is_kept_proportional() {
    // A 1080-tall screen meeting a 2160-tall one must line up by proportion, not by
    // raw pixel row, or the pointer jumps vertically on every crossing.
    let mut g = Graph::new(2560, 1080);
    g.place(imac(), Edge::Left, None, 1920, 2160);

    g.apply_motion(0, -1080); // to the very top
    let update = g.apply_motion(-5000, 0);
    assert_eq!(update.focus, Focus::Remote(imac()));
    assert!(update.y < 100, "top of one screen must arrive at the top of the other");
}

#[test]
fn losing_the_focused_machine_returns_input_here() {
    let mut g = fleet();
    g.apply_motion(-5000, 0);
    assert_eq!(g.focus(), Focus::Remote(imac()));

    g.forget(imac());
    assert_eq!(g.focus(), Focus::Local, "a vanished machine must not hold the pointer");
}

#[test]
fn losing_an_unfocused_machine_does_not_disturb_focus() {
    let mut g = fleet();
    g.apply_motion(-5000, 0);
    g.forget(laptop());
    assert_eq!(g.focus(), Focus::Remote(imac()));
}

#[test]
fn a_removed_machine_is_no_longer_reachable() {
    let mut g = fleet();
    g.forget(imac());
    let update = g.apply_motion(-5000, 0);
    assert_eq!(update.focus, Focus::Local, "its edge must be gone too");
}

#[test]
fn placing_the_same_machine_twice_does_not_duplicate_it() {
    let mut g = fleet();
    let before = g.node_count();
    g.place(imac(), Edge::Left, None, 1920, 1080);
    assert_eq!(g.node_count(), before, "a reconnect must not add a second screen");
}

#[test]
fn edges_parse_the_words_people_actually_use() {
    assert_eq!(Edge::parse("left"), Some(Edge::Left));
    assert_eq!(Edge::parse(" Right "), Some(Edge::Right));
    assert_eq!(Edge::parse("above"), Some(Edge::Top));
    assert_eq!(Edge::parse("below"), Some(Edge::Bottom));
    assert_eq!(Edge::parse("sideways"), None);
}

/// Stands in for the daemon loop and the OS cursor together.
struct Machine {
    graph: Graph,
    /// Where macOS thinks the cursor is.
    cursor: (i32, i32),
    width: i32,
    height: i32,
}

impl Machine {
    fn new() -> Self {
        let (width, height) = (2560, 1080);
        let mut graph = Graph::new(width, height);
        graph.place(imac(), Edge::Left, None, 1920, 1080);
        Self { graph, cursor: (width / 2, height / 2), width, height }
    }

    /// One mouse movement, processed exactly as the daemon processes it.
    fn step(&mut self, dx: i32, dy: i32) -> Update {
        let local_before = self.graph.focus() == Focus::Local;
        if local_before {
            // The OS moves its own cursor, clamped to the screen.
            self.cursor.0 = (self.cursor.0 + dx).clamp(0, self.width - 1);
            self.cursor.1 = (self.cursor.1 + dy).clamp(0, self.height - 1);
        }
        // The daemon adopts the OS position while local, then applies movement.
        self.graph.sync_local_cursor(self.cursor.0, self.cursor.1);
        let update = self.graph.apply_motion(dx, dy);

        if update.changed && update.focus == Focus::Local {
            // Returning focus warps the real cursor to match the layout.
            self.cursor = (update.x, update.y);
        }
        update
    }
}

#[test]
fn the_pointer_leaves_and_comes_back() {
    // The whole round trip, which is what kept breaking.
    let mut m = Machine::new();

    // Walk left to the edge, then across.
    let mut crossed = false;
    for _ in 0..100 {
        if m.step(-40, 0).focus != Focus::Local {
            crossed = true;
            break;
        }
    }
    assert!(crossed, "the pointer never left this machine");

    // Walk back right.
    let mut returned = false;
    for _ in 0..100 {
        if m.step(40, 0).focus == Focus::Local {
            returned = true;
            break;
        }
    }
    assert!(returned, "the pointer never came back to this machine");
}

#[test]
fn it_survives_many_round_trips() {
    // A one-way bug can pass a single crossing and fail on the second.
    let mut m = Machine::new();
    for trip in 0..5 {
        let mut left = false;
        for _ in 0..200 {
            if m.step(-40, 0).focus != Focus::Local {
                left = true;
                break;
            }
        }
        assert!(left, "failed to leave on trip {trip}");

        let mut back = false;
        for _ in 0..200 {
            if m.step(40, 0).focus == Focus::Local {
                back = true;
                break;
            }
        }
        assert!(back, "failed to return on trip {trip}");
    }
}

#[test]
fn the_pointer_does_not_oscillate_at_the_boundary() {
    // Coming back, small movements must not flip focus every event — the narrow band
    // along the shared edge where the pointer appeared to be on both machines.
    let mut m = Machine::new();
    while m.graph.focus() == Focus::Local {
        m.step(-40, 0);
    }
    while m.graph.focus() != Focus::Local {
        m.step(40, 0);
    }

    let mut flips = 0;
    for _ in 0..40 {
        if m.step(2, 0).changed {
            flips += 1;
        }
    }
    assert_eq!(flips, 0, "focus flipped {flips} times while moving away from the edge");
}

#[test]
fn moving_within_this_machine_never_hands_over() {
    let mut m = Machine::new();
    for _ in 0..30 {
        let update = m.step(10, 5);
        assert_eq!(update.focus, Focus::Local);
        assert!(!update.changed);
    }
}

#[test]
fn the_returning_pointer_lands_on_this_machine() {
    let mut m = Machine::new();
    while m.graph.focus() == Focus::Local {
        m.step(-40, 0);
    }
    let mut update = m.step(40, 0);
    while update.focus != Focus::Local {
        update = m.step(40, 0);
    }
    assert!(update.x >= 0 && update.x < 2560, "landed off-screen at x={}", update.x);
    assert!(update.y >= 0 && update.y < 1080, "landed off-screen at y={}", update.y);
}

#[test]
fn the_pointer_can_be_called_home() {
    let mut g = fleet();
    g.apply_motion(-5000, 0);
    assert_eq!(g.focus(), Focus::Remote(imac()));
    g.return_home();
    assert_eq!(g.focus(), Focus::Local);
    assert_eq!(g.position(), (1280, 540));

    g.apply_motion(-5000, 0);
    let update = g.force_home();
    assert_eq!(update.focus, Focus::Local);
    assert_eq!(g.focus(), Focus::Local);

    g.forget_all();
    assert!(!g.is_placed(imac()));
    assert_eq!(g.node_count(), 1);
    assert_eq!(g.apply_motion(-5000, 0).focus, Focus::Local);
}

#[test]
fn crossing_and_crossing_back_ends_where_it_began() {
    let mut g = fleet();
    g.sync_local_cursor(0, 540);
    let there = g.apply_motion(-7, 0);
    assert_eq!(there.focus, Focus::Remote(imac()));
    let back = g.apply_motion(7, 0);
    assert_eq!((back.focus, back.x, back.y), (Focus::Local, 0, 540));
}

#[test]
fn scaling_keeps_proportions() {
    assert_eq!(scale(0, 1080, 2160), 0);
    assert_eq!(scale(540, 1080, 2160), 1080);
    assert!(scale(1079, 1080, 2160) < 2160);
    assert_eq!(Edge::Left.index(), 0);
}

#[test]
fn a_forgotten_machine_is_no_longer_placed() {
    let p = PeerId([1; 16]);
    let mut g = Graph::new(2560, 1080);
    g.place(p, Edge::Left, None, 1920, 1080);
    assert_eq!(g.apply_motion(-5000, 0).focus, Focus::Remote(p));
    g.forget(p);
    assert_eq!(g.focus(), Focus::Local);
    assert!(!g.is_placed(p));
    assert_eq!(g.apply_motion(-5000, 0).focus, Focus::Local);
    // Placed again, it has the size it has now.
    g.place(p, Edge::Left, None, 1280, 800);
    let update = g.apply_motion(-50_000, 0);
    assert_eq!((update.focus, update.x), (Focus::Remote(p), 0));
    assert_eq!(g.apply_motion(1279, 0).focus, Focus::Remote(p));
    assert_eq!(g.apply_motion(1, 0).focus, Focus::Local);
}

#[test]
fn forgetting_one_machine_leaves_the_others_joined() {
    let mut g = Graph::new(1000, 1000);
    g.place(imac(), Edge::Left, None, 500, 500);
    g.place(laptop(), Edge::Right, None, 800, 800);
    g.apply_motion(5000, 0);
    assert_eq!(g.focus(), Focus::Remote(laptop()));
    g.forget(imac());
    assert_eq!(g.node_count(), 2);
    assert_eq!(g.focus(), Focus::Remote(laptop()), "the pointer stays where it was");
    assert_eq!(g.apply_motion(-900, 0).focus, Focus::Local);
    assert_eq!(g.apply_motion(5000, 0).focus, Focus::Remote(laptop()));
    assert!(g.is_placed(laptop()));
}

#[test]
fn a_position_far_beyond_the_end_maps_to_the_end() {
    assert_eq!(scale(2_000_000_000, 100, 200), 199);
    assert_eq!(scale(i32::MAX, 2, i32::MAX), i32::MAX - 1);
    assert_eq!(scale(-5, 100, 200), 0);
    assert_eq!(scale(5, 1, 200), 0);
}
