use seam::screen::{Desktop, Display, PixelRect, MM};

fn display(id: u32, x: i32, y: i32, w: i32, h: i32, primary: bool) -> Display {
    Display {
        id,
        pixels: PixelRect::new(x, y, w, h),
        width_mm: 0,
        height_mm: 0,
        scale: 256,
        primary,
    }
}

/// The development fleet's own Mac: one 2560x1080 ultrawide.
fn single() -> Desktop {
    Desktop::new(vec![display(1, 0, 0, 2560, 1080, true)])
}

/// A monitor placed to the LEFT of the primary, so it has a negative origin — the
/// arrangement that breaks implementations using unsigned coordinates.
fn left_and_primary() -> Desktop {
    Desktop::new(vec![
        display(1, 0, 0, 2560, 1080, true),
        display(2, -1920, 0, 1920, 1200, false),
    ])
}

#[test]
fn bounding_box_covers_every_display_including_negative_origins() {
    let bb = left_and_primary().bounding_box();
    assert_eq!(bb, PixelRect::new(-1920, 0, 4480, 1200));
}

#[test]
fn a_gap_in_an_l_shaped_desktop_is_not_part_of_the_desktop() {
    // The bounding box is 4480x1200, but the primary is only 1080 tall, so
    // the bottom-right corner exists on no physical display.
    let d = left_and_primary();
    assert!(d.bounding_box().contains(2000, 1150), "test setup: inside the bounding box");
    assert!(!d.contains(2000, 1150), "but on no actual display");
    assert!(d.contains(2000, 1000), "and this one is on the primary");
}

#[test]
fn a_coordinate_in_a_gap_is_clamped_onto_the_nearest_display() {
    let d = left_and_primary();
    let (x, y) = d.clamp_onto_a_display(2000, 1150);
    assert!(d.contains(x, y), "clamped point must be on a display, got ({x}, {y})");
    assert_eq!(x, 2000, "should move only as far as needed");
    assert_eq!(y, 1079, "onto the bottom row of the primary");
}

#[test]
fn a_coordinate_already_on_a_display_is_left_alone() {
    let d = left_and_primary();
    assert_eq!(d.clamp_onto_a_display(100, 100), (100, 100));
    assert_eq!(d.clamp_onto_a_display(-1000, 500), (-1000, 500));
}

#[test]
fn normalized_coordinates_survive_a_resolution_change() {
    // Leaving one machine at 43% across arrives at 43% across on a machine
    // with a completely different resolution.
    let big = single();
    let small = Desktop::new(vec![display(1, 0, 0, 1280, 720, true)]);

    let (nx, ny) = big.to_normalized(1100, 464); // ~43% across, ~43% down
    let (x, y) = small.from_normalized(nx, ny);

    let across = f64::from(x) / 1280.0;
    let down = f64::from(y) / 720.0;
    assert!((across - 0.43).abs() < 0.01, "landed {across} across");
    assert!((down - 0.43).abs() < 0.01, "landed {down} down");
}

#[test]
fn normalization_round_trips_within_a_pixel() {
    let d = single();
    for (x, y) in [(0, 0), (1279, 540), (2559, 1079), (7, 3)] {
        let (nx, ny) = d.to_normalized(x, y);
        let (rx, ry) = d.from_normalized(nx, ny);
        assert!((rx - x).abs() <= 1, "x {x} -> {rx}");
        assert!((ry - y).abs() <= 1, "y {y} -> {ry}");
    }
}

#[test]
fn denormalizing_never_lands_off_a_display() {
    // Every possible normalized input must produce a usable pointer position.
    let d = left_and_primary();
    for nx in (0..=65535u32).step_by(1023) {
        for ny in (0..=65535u32).step_by(4095) {
            let (nx, ny) = (u16::try_from(nx).unwrap(), u16::try_from(ny).unwrap());
            let (x, y) = d.from_normalized(nx, ny);
            assert!(d.contains(x, y), "({nx},{ny}) -> ({x},{y}) is off-screen");
        }
    }
}

#[test]
fn a_display_with_no_reported_physical_size_gets_a_plausible_one() {
    // Virtual and projector outputs often report 0x0; dividing by that would panic or
    // produce nonsense, and a zero-sized display cannot be laid out physically.
    let d = single();
    let only = d.displays.first().unwrap();
    assert!(only.width_mm > 0 && only.height_mm > 0);
    // 2560 px at ~96 DPI is roughly 677 mm.
    let mm = only.width_mm / MM;
    assert!((600..760).contains(&mm), "implausible assumed width: {mm} mm");
}

#[test]
fn density_is_reported_only_when_the_physical_size_is_known() {
    let mut d = display(1, 0, 0, 2560, 1080, true);
    d.width_mm = 0;
    assert_eq!(d.density_x(), None, "must not divide by a zero physical size");

    d.width_mm = 677 * MM;
    assert!(d.density_x().is_some());
}

#[test]
fn an_empty_desktop_does_not_panic() {
    let d = Desktop::default();
    assert!(d.is_empty());
    assert_eq!(d.bounding_box(), PixelRect::default());
    assert_eq!(d.to_normalized(5, 5), (0, 0));
    assert_eq!(d.from_normalized(100, 100), (0, 0));
    assert!(!d.contains(0, 0));
}

#[test]
fn display_lookup_finds_the_right_screen() {
    let d = left_and_primary();
    assert_eq!(d.display_at(100, 100).map(|s| s.id), Some(1));
    assert_eq!(d.display_at(-1000, 100).map(|s| s.id), Some(2));
    assert_eq!(d.display_at(9999, 9999).map(|s| s.id), None);
}

#[test]
fn every_display_reports_a_usable_physical_size() {
    // Desktop::new fills in a nominal size for displays that report none, so nothing
    // downstream can divide by zero.
    for d in left_and_primary().displays {
        assert!(d.width_mm > 0, "display {} reported no width", d.id);
        assert!(d.height_mm > 0, "display {} reported no height", d.id);
        assert!(d.density_x().is_some());
    }
}

#[test]
fn the_nearest_display_wins() {
    let d = left_and_primary();
    assert_eq!(d.clamp_onto_a_display(-5000, 600), (-1920, 600));
    assert_eq!(d.clamp_onto_a_display(5000, 5000), (2559, 1079));
    assert_eq!(d.clamp_onto_a_display(i32::MAX, i32::MIN), (2559, 0));
    assert!(d.fits());
}

#[test]
fn the_primary_is_the_marked_one_or_the_first() {
    assert_eq!(left_and_primary().primary().unwrap().id, 1);
    let none = Desktop::new(vec![display(7, 0, 0, 10, 10, false), display(8, 10, 0, 10, 10, false)]);
    assert_eq!(none.primary().unwrap().id, 7);
    assert!(Desktop::default().primary().is_none());
}

#[test]
fn the_ends_of_the_scale_are_the_ends_of_the_desktop() {
    let d = single();
    assert_eq!(d.to_normalized(0, 0), (0, 0));
    assert_eq!(d.to_normalized(2559, 1079), (65509, 65474));
    assert_eq!(d.to_normalized(9999, 9999), (65535, 65535));
    assert_eq!(d.from_normalized(65535, 65535), (2559, 1079));
    assert_eq!(PixelRect::new(-5, 2, 10, 4).right(), 5);
    assert_eq!(PixelRect::new(-5, 2, 10, 4).bottom(), 6);
    assert!(PixelRect::new(0, 0, 0, 4).is_empty());
}

#[test]
fn displays_at_the_far_ends_are_still_clamped_onto() {
    // The two are further apart than any one number of pixels can say.
    let d = Desktop::new(vec![
        display(1, i32::MIN, 0, 100, 100, true),
        display(2, i32::MAX - 100, 0, 100, 100, false),
    ]);
    assert_eq!(d.clamp_onto_a_display(0, 50), (i32::MAX - 100, 50));
    assert_eq!(d.clamp_onto_a_display(-100, 500), (i32::MIN + 99, 99));
    assert_eq!(d.clamp_onto_a_display(i32::MIN, 0), (i32::MIN, 0));
}
