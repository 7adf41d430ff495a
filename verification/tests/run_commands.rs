use game_of_life::desktop::{clamp_gps, MAX_GPS, MIN_GPS};

#[test]
fn clamp_gps_passes_through_values_in_range() {
    assert_eq!(clamp_gps(MIN_GPS), MIN_GPS);
    assert_eq!(clamp_gps(5), 5);
    assert_eq!(clamp_gps(60), 60);
    assert_eq!(clamp_gps(MAX_GPS), MAX_GPS);
}

#[test]
fn clamp_gps_lifts_zero_to_min() {
    assert_eq!(clamp_gps(0), MIN_GPS);
}

#[test]
fn clamp_gps_caps_above_max_to_max() {
    assert_eq!(clamp_gps(u16::MAX), MAX_GPS);
    assert_eq!(clamp_gps(MAX_GPS + 1), MAX_GPS);
}

#[test]
fn min_gps_and_max_gps_form_a_valid_range() {
    assert!(MIN_GPS <= MAX_GPS);
    assert!(MIN_GPS > 0, "MIN_GPS must be > 0 so 1_000_000 / gps doesn't divide by zero");
}
