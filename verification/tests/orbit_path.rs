use iss_contact::geo::GeoPoint;
use iss_contact::orbit::{assemble_path, resolved_window, sample_offsets};
use iss_contact::TrackError;

fn point(lat: i64, lon: i64) -> GeoPoint {
    GeoPoint { lat_microdeg: lat, lon_microdeg: lon }
}

#[test]
fn default_window_is_90_by_2() {
    assert_eq!(resolved_window(None, None), (90, 2));
    assert_eq!(resolved_window(Some(30), None), (30, 2));
    assert_eq!(resolved_window(None, Some(5)), (90, 5));
    assert_eq!(resolved_window(Some(10), Some(1)), (10, 1));
}

#[test]
fn offsets_cover_the_window_chronologically() {
    let offs = sample_offsets(90, 2);
    assert_eq!(offs.len(), 91);
    assert_eq!(offs[0], -90);
    assert_eq!(offs[90], 90);
    for w in offs.windows(2) {
        assert!(w[0] < w[1]);
    }
}

#[test]
fn offsets_do_not_snap_to_the_window_edge() {
    // 7 does not divide 180: the last sample lands short of the edge.
    let offs = sample_offsets(90, 7);
    assert_eq!(offs.len(), 180 / 7 + 1);
    assert_eq!(offs[0], -90);
    assert_eq!(*offs.last().unwrap(), -90 + 7 * (180 / 7) as i64);
    assert!(*offs.last().unwrap() <= 90);
}

#[test]
fn offsets_clamp_span_and_step() {
    assert_eq!(sample_offsets(0, 0), sample_offsets(1, 1));
    assert_eq!(sample_offsets(-5, -5), vec![-1, 0, 1]);
    // a step wider than the window still yields the starting offset
    assert_eq!(sample_offsets(3, 100), vec![-3]);
}

#[test]
fn path_keeps_successful_samples_in_order() {
    let a = point(1_000_000, 0);
    let b = point(2_000_000, 0);
    let c = point(3_000_000, 0);
    let samples = vec![Some(a), None, Some(b), None, Some(c)];
    let path = assemble_path(&samples).expect("some samples succeeded");
    assert_eq!(path, vec![a, b, c]);

    let all = vec![Some(a), Some(b)];
    assert_eq!(assemble_path(&all).unwrap(), vec![a, b]);
}

#[test]
fn empty_path_is_a_geometry_failure() {
    let none: Vec<Option<GeoPoint>> = vec![None, None, None];
    let err = assemble_path(&none).unwrap_err();
    assert_eq!(err, TrackError::GeometryFailure);
    assert_eq!(err.message(), "No orbit points computed.");

    let empty: Vec<Option<GeoPoint>> = vec![];
    assert_eq!(assemble_path(&empty).unwrap_err(), TrackError::GeometryFailure);
}
