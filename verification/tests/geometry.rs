use iss_contact::estimator::{contact_estimate_from_samples, contact_estimate_tenths, SatelliteState};
use iss_contact::geo::{ground_distance_m, max_distance_for_elevation_m, GeoPoint};

fn point(lat: i64, lon: i64) -> GeoPoint {
    GeoPoint { lat_microdeg: lat, lon_microdeg: lon }
}

#[test]
fn distance_to_self_is_zero() {
    let p = point(40_700_000, -74_000_000);
    assert_eq!(ground_distance_m(p, p), 0);
    let q = point(-33_865_000, 151_209_000);
    assert_eq!(ground_distance_m(q, q), 0);
    assert_eq!(ground_distance_m(point(0, 0), point(0, 0)), 0);
}

#[test]
fn distance_is_symmetric() {
    let p = point(40_700_000, -74_000_000);
    let q = point(51_500_000, -123_000);
    assert_eq!(ground_distance_m(p, q), ground_distance_m(q, p));
    let a = point(-12_043_000, -77_028_000);
    let b = point(55_756_000, 37_617_000);
    assert_eq!(ground_distance_m(a, b), ground_distance_m(b, a));
}

#[test]
fn quarter_meridian_distance() {
    // (0, 0) to (0, 90): a quarter of a great circle, pi * R / 2.
    let d = ground_distance_m(point(0, 0), point(0, 90_000_000));
    let expected = std::f64::consts::PI * 6_371_000.0 / 2.0;
    assert!((d as f64 - expected).abs() < 20_000.0, "d = {d}, expected = {expected}");
}

#[test]
fn antipodal_distance_is_half_circumference() {
    let d = ground_distance_m(point(0, 0), point(0, 180_000_000));
    let expected = std::f64::consts::PI * 6_371_000.0;
    assert!((d as f64 - expected).abs() < 20_000.0, "d = {d}, expected = {expected}");
}

#[test]
fn horizon_distance_matches_closed_form() {
    // At or below zero minimum elevation the solver takes no search branch:
    // the answer is R * arccos(R / (R + alt)).
    for alt in [300_000u64, 420_000, 800_000] {
        let d = max_distance_for_elevation_m(alt, 0);
        let r = 6_371_000.0f64;
        let expected = r * (r / (r + alt as f64)).acos();
        assert!((d as f64 - expected).abs() < 10_000.0, "alt = {alt}, d = {d}, expected = {expected}");
        assert_eq!(max_distance_for_elevation_m(alt, -5_000_000), d);
    }
}

#[test]
fn visibility_radius_decreases_with_elevation() {
    let alt = 420_000u64;
    let d5 = max_distance_for_elevation_m(alt, 5_000_000);
    let d10 = max_distance_for_elevation_m(alt, 10_000_000);
    let d20 = max_distance_for_elevation_m(alt, 20_000_000);
    let d45 = max_distance_for_elevation_m(alt, 45_000_000);
    let d0 = max_distance_for_elevation_m(alt, 0);
    assert!(d0 > d5, "d0 = {d0}, d5 = {d5}");
    assert!(d5 > d10, "d5 = {d5}, d10 = {d10}");
    assert!(d10 > d20, "d10 = {d10}, d20 = {d20}");
    assert!(d20 > d45, "d20 = {d20}, d45 = {d45}");
}

#[test]
fn visibility_radius_increases_with_altitude() {
    let e = 10_000_000i64;
    let d300 = max_distance_for_elevation_m(300_000, e);
    let d420 = max_distance_for_elevation_m(420_000, e);
    let d800 = max_distance_for_elevation_m(800_000, e);
    assert!(d300 < d420, "d300 = {d300}, d420 = {d420}");
    assert!(d420 < d800, "d420 = {d420}, d800 = {d800}");
}

#[test]
fn estimate_zero_when_in_range() {
    assert_eq!(contact_estimate_tenths(500_000, 1_000_000, 400_000, 27_000_000), 0);
    assert_eq!(contact_estimate_tenths(1_000_000, 1_000_000, 999_999, 27_000_000), 0);
}

#[test]
fn estimate_orbital_period_without_velocity_signal() {
    // 0.0001 km/s is 360 m/h; at or under it the fallback is 92.6 minutes.
    assert_eq!(contact_estimate_tenths(2_000_000, 1_000_000, 1_900_000, 360), 926);
    assert_eq!(contact_estimate_tenths(2_000_000, 1_000_000, 1_900_000, 0), 926);
}

#[test]
fn estimate_approaching_closes_the_gap() {
    // Gap 1000 km at 7.5 km/s: 133 s, which rounds to 2.2 minutes.
    let r = contact_estimate_tenths(2_000_000, 1_000_000, 1_900_000, 27_000_000);
    assert_eq!(r, 22);
}

#[test]
fn estimate_receding_waits_out_the_orbit() {
    // Same gap but receding: 5556 - 133 = 5423 s, which rounds to 90.4 minutes.
    let r = contact_estimate_tenths(2_000_000, 1_000_000, 2_100_000, 27_000_000);
    assert_eq!(r, 904);
}

#[test]
fn estimate_slow_speed_is_floored() {
    // 720 m/h is above the no-signal cutoff but under the 3600 m/h floor:
    // gap 600 m at the floored 1 m/s is 600 s, exactly 10 minutes.
    let r = contact_estimate_tenths(1_000_600, 1_000_000, 1_000_500, 720);
    assert_eq!(r, 100);
}

#[test]
fn end_to_end_overhead_pass() {
    // Observer in one city, satellite subpoint a neighboring city over,
    // 420 km up at 27000 km/h: the ground gap is tens of kilometers, the
    // 10-degree contact radius hundreds, so the satellite is already in range.
    let observer = point(40_700_000, -74_000_000);
    let first = SatelliteState {
        lat_microdeg: 41_000_000,
        lon_microdeg: -73_000_000,
        altitude_m: 420_000,
        velocity_m_per_h: 27_000_000,
        timestamp: 0,
    };
    let d0 = ground_distance_m(observer, point(41_000_000, -73_000_000));
    assert!(d0 > 10_000 && d0 < 200_000, "d0 = {d0}");
    let d_max = max_distance_for_elevation_m(420_000, 10_000_000);
    assert!(d_max > 500_000 && d_max < 2_000_000, "d_max = {d_max}");
    assert!(d0 <= d_max);
    let r = contact_estimate_from_samples(observer, first, point(41_100_000, -72_900_000));
    assert_eq!(r, 0);
}

#[test]
fn earth_radius_constant() {
    assert_eq!(iss_contact::earth_radius_m(), 6_371_000);
}
