use rustdesk::display_info::DisplayInfo;
use rustdesk::display_park::{choose_park_display, needs_repark_after_switch};

fn di(scale: f64) -> DisplayInfo {
    DisplayInfo {
        scale_milli: (scale * 1000.0).round() as u32,
        ..Default::default()
    }
}

#[test]
fn no_scaled_display_means_no_parking() {
    assert_eq!(choose_park_display(&[di(1.0), di(1.0)]), None);
    assert_eq!(choose_park_display(&[]), None);
}

#[test]
fn parks_on_first_unscaled_display() {
    assert_eq!(choose_park_display(&[di(1.0), di(1.0), di(2.0)]), Some(0));
    assert_eq!(choose_park_display(&[di(2.0), di(1.0)]), Some(1));
    // Old hosts may report scale 0; it counts as unscaled.
    assert_eq!(choose_park_display(&[di(0.0), di(2.0)]), Some(0));
}

#[test]
fn all_scaled_cannot_park() {
    assert_eq!(choose_park_display(&[di(2.0)]), None);
    assert_eq!(choose_park_display(&[di(2.0), di(2.0)]), None);
}

#[test]
fn reparks_only_scaled_targets_with_a_parking_spot() {
    let mixed = [di(1.0), di(2.0)];
    assert!(needs_repark_after_switch(&mixed, 1));
    assert!(!needs_repark_after_switch(&mixed, 0));
    let all_scaled = [di(2.0), di(2.0)];
    assert!(!needs_repark_after_switch(&all_scaled, 0));
    // Out-of-range target: never repark.
    assert!(!needs_repark_after_switch(&mixed, 5));
}

#[test]
fn fractional_scales_count_as_scaled() {
    // 1.25 is scaled; exactly 1.0 is not.
    assert_eq!(choose_park_display(&[di(1.25), di(1.0), di(1.5)]), Some(1));
    assert!(needs_repark_after_switch(&[di(1.25), di(1.0)], 0));
    assert!(!needs_repark_after_switch(&[di(1.25), di(1.0)], 1));
}
