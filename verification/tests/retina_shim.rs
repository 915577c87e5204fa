use rustdesk::display_info::DisplayInfo;
use rustdesk::display_park::choose_park_display;
use rustdesk::retina_shim::{
    display_at_logical_point, from_info_space, from_info_space_in_range, to_info_space,
    to_info_space_in_range,
};

fn scale_of(d: &DisplayInfo) -> f64 {
    d.scale_milli as f64 / 1000.0
}

/// A macOS-style `DisplayInfo`: logical origin, physical size.
fn di(x: i32, y: i32, logical_w: i32, logical_h: i32, scale: f64) -> DisplayInfo {
    let s = if scale > 1.0 { scale } else { 1.0 };
    DisplayInfo {
        x,
        y,
        width: (logical_w as f64 * s) as i32,
        height: (logical_h as f64 * s) as i32,
        scale_milli: (scale * 1000.0).round() as u32,
    }
}

/// Size of a display in logical points.
fn logical_size(d: &DisplayInfo) -> (f64, f64) {
    let s = if scale_of(d) > 1.0 { scale_of(d) } else { 1.0 };
    (d.width as f64 / s, d.height as f64 / s)
}

/// The layout that produced the bug: every display scaled.
fn all_scaled() -> Vec<DisplayInfo> {
    vec![
        di(0, 0, 1728, 1117, 2.0),
        di(4480, -402, 1200, 1920, 2.0),
        di(1728, 0, 2752, 1152, 2.0),
    ]
}

/// What the host's shim does to a coordinate, armed on `current`.
fn shim(displays: &[DisplayInfo], current: usize, x: i32, y: i32) -> (i32, i32) {
    let d = &displays[current];
    let s = scale_of(d);
    if s > 1.0 && x >= d.x && y >= d.y && x < d.x + d.width && y < d.y + d.height {
        (
            d.x + ((x - d.x) as f64 / s) as i32,
            d.y + ((y - d.y) as f64 / s) as i32,
        )
    } else {
        (x, y)
    }
}

#[test]
fn finds_the_display_under_a_logical_point() {
    let ds = all_scaled();
    assert_eq!(display_at_logical_point(&ds, 100, 100), Some(0));
    assert_eq!(display_at_logical_point(&ds, 2000, 600), Some(2));
    assert_eq!(display_at_logical_point(&ds, 5000, 1000), Some(1));
    // Logical rects, not the physical extents: 3400 is past display 0's
    // logical right edge (1728) even though its `width` says 3456.
    assert_eq!(display_at_logical_point(&ds, 3400, 100), Some(2));
}

#[test]
fn point_outside_every_display_has_no_home() {
    let ds = all_scaled();
    assert_eq!(display_at_logical_point(&ds, -5, 0), None);
    assert_eq!(display_at_logical_point(&ds, 9999, 9999), None);
    assert_eq!(display_at_logical_point(&[], 0, 0), None);
}

#[test]
fn round_trips_through_the_shim_on_every_display() {
    let ds = all_scaled();
    for (idx, d) in ds.iter().enumerate() {
        let (lw, lh) = logical_size(d);
        for &(dx, dy) in &[(0.0, 0.0), (1.0, 1.0), (lw / 2.0, lh / 2.0), (lw - 1.0, lh - 1.0)] {
            let (tx, ty) = (d.x + dx as i32, d.y + dy as i32);
            let (wx, wy) = to_info_space(d, tx, ty);
            assert_eq!(
                shim(&ds, idx, wx, wy),
                (tx, ty),
                "display {idx} target ({tx},{ty}) sent as ({wx},{wy})"
            );
        }
    }
}

/// The reported bug: armed on display 0, the left part of display 2 is
/// dragged onto display 0. Arming display 2 instead lands it exactly.
#[test]
fn arming_the_wrong_display_is_what_moved_the_pointer() {
    let ds = all_scaled();
    let (target_x, target_y) = (2000, 600);
    let d2 = &ds[2];
    let (wx, wy) = to_info_space(d2, target_x, target_y);

    let wrong = shim(&ds, 0, wx, wy);
    assert_eq!(display_at_logical_point(&ds, wrong.0, wrong.1), Some(0));
    assert_ne!(wrong, (target_x, target_y));

    assert_eq!(shim(&ds, 2, wx, wy), (target_x, target_y));
}

#[test]
fn unscaled_displays_pass_through_untouched() {
    let ds = vec![di(0, 0, 1920, 1200, 1.0), di(1920, 0, 2752, 1152, 2.0)];
    assert_eq!(to_info_space(&ds[0], 500, 500), (500, 500));
    // Old hosts report scale 0.0 for unscaled displays.
    let legacy = di(0, 0, 1920, 1200, 0.0);
    assert_eq!(to_info_space(&legacy, 500, 500), (500, 500));
    assert_eq!(from_info_space(&legacy, 500, 500), (500, 500));
}

#[test]
fn cursor_feedback_inverts_what_the_shim_sent() {
    let d = di(1728, 0, 2752, 1152, 2.0);
    // Host logical 2000,600 -> shim reports info space -> client divides back.
    let reported = (d.x + (2000 - d.x) * 2, d.y + (600 - d.y) * 2);
    assert_eq!(from_info_space(&d, reported.0, reported.1), (2000, 600));
    // A value outside the guard is already logical and must be left alone.
    assert_eq!(from_info_space(&d, 9000, 600), (9000, 600));
}

#[test]
fn exact_info_space_values() {
    let d = di(1728, 0, 2752, 1152, 2.0);
    assert_eq!(to_info_space(&d, 2000, 600), (1728 + 544, 1200));
    // Negative offsets are scaled too.
    assert_eq!(to_info_space(&d, 1700, -10), (1672, -20));
    // A fractional scale rounds halves away from zero: 1.5 * 3 = 4.5 -> 5.
    let f = di(0, 0, 1000, 1000, 1.5);
    assert_eq!(to_info_space(&f, 3, -3), (5, -5));
    assert_eq!(from_info_space(&f, 5, 5), (3, 3));
    // 1.25 * 1 = 1.25 -> 1, and 1 / 1.25 = 0.8 -> 1.
    let q = di(0, 0, 1000, 1000, 1.25);
    assert_eq!(to_info_space(&q, 1, 1), (1, 1));
    assert_eq!(from_info_space(&q, 1, 1), (1, 1));
}

#[test]
fn from_info_space_reads_back_every_sent_point() {
    let ds = all_scaled();
    for d in &ds {
        let (lw, lh) = logical_size(d);
        for dx in [0, 1, 7, (lw as i32) / 3, lw as i32 - 1] {
            for dy in [0, 2, (lh as i32) / 2, lh as i32 - 1] {
                let (tx, ty) = (d.x + dx, d.y + dy);
                let (wx, wy) = to_info_space(d, tx, ty);
                assert_eq!(from_info_space(d, wx, wy), (tx, ty));
            }
        }
    }
}

#[test]
fn first_display_wins_where_logical_rects_overlap() {
    let ds = vec![di(0, 0, 100, 100, 1.0), di(50, 50, 100, 100, 2.0)];
    assert_eq!(display_at_logical_point(&ds, 60, 60), Some(0));
    assert_eq!(display_at_logical_point(&ds, 120, 120), Some(1));
    assert_eq!(display_at_logical_point(&ds, 149, 60), Some(1));
    assert_eq!(display_at_logical_point(&ds, 150, 150), None);
}

#[test]
fn overflowing_inputs_are_reported_out_of_range() {
    let d = di(1728, 0, 2752, 1152, 2.0);
    assert!(to_info_space_in_range(&d, 2000, 600));
    // The offset from the origin does not fit in i32.
    let far = di(i32::MAX - 10, 0, 10, 10, 2.0);
    assert!(!to_info_space_in_range(&far, i32::MIN, 0));
    // The scaled offset lands past i32::MAX.
    assert!(!to_info_space_in_range(&far, i32::MAX, 0));
    // Unscaled displays never compute anything.
    assert!(to_info_space_in_range(&di(i32::MAX, 0, 10, 10, 1.0), i32::MIN, 0));
    // The guard's right edge overflows.
    let edge = DisplayInfo { x: i32::MAX - 5, y: 0, width: 100, height: 100, scale_milli: 2000 };
    assert!(!from_info_space_in_range(&edge, i32::MAX, 0));
    assert!(from_info_space_in_range(&edge, 0, 0));
    assert!(from_info_space_in_range(&d, 2272, 1200));
}

#[test]
fn parked_display_leaves_the_shim_inert() {
    let ds = vec![di(0, 0, 1728, 1117, 2.0), di(1728, 0, 1920, 1080, 1.0)];
    let park = choose_park_display(&ds).unwrap();
    assert_eq!(park, 1);
    for &(x, y) in &[(0, 0), (100, 100), (1800, 500), (3000, 1000), (-50, -50)] {
        assert_eq!(shim(&ds, park, x, y), (x, y));
    }
    // Armed on the scaled display instead, a point inside its guard moves.
    assert_ne!(shim(&ds, 0, 1800, 500), (1800, 500));
}

#[test]
fn round_trip_holds_exactly_when_the_scaled_offset_is_not_rounded_down() {
    // Scale 1.4: offset 1 scales to 1.4, rounded down to 1, and the shim
    // truncates 1 / 1.4 to 0; offset 2 scales to 2.8, rounded up to 3, and
    // 3 / 1.4 truncates back to 2.
    let ds = vec![di(0, 0, 100, 100, 1.4)];
    let d = &ds[0];
    assert_eq!(to_info_space(d, 1, 2), (1, 3));
    assert_eq!(shim(&ds, 0, 1, 3), (0, 2));
    assert_eq!(to_info_space(d, 2, 2), (3, 3));
    assert_eq!(shim(&ds, 0, 3, 3), (2, 2));
    // Scale 1.15: offset 10 scales to 11.5 exactly, rounded up to 12.
    let ds = vec![di(0, 0, 100, 100, 1.15)];
    assert_eq!(to_info_space(&ds[0], 10, 10), (12, 12));
    assert_eq!(shim(&ds, 0, 12, 12), (10, 10));
}
