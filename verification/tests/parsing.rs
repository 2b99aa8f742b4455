use iss_contact::locate::{parse_coord_microdeg, parse_loc, resolve_location};
use iss_contact::geo::GeoPoint;
use iss_contact::tle::{parse_tle, parse_tle_json, parse_tle_text, trim_str};
use iss_contact::TrackError;

#[test]
fn tle_text_with_name_line() {
    let text = "ISS (ZARYA)\n1 25544U 98067A   24060.50000000  .00016717\n2 25544  51.6400 208.9163 0006703";
    let t = parse_tle_text(text).expect("expected a parse");
    assert_eq!(t.name.as_deref(), Some("ISS (ZARYA)"));
    assert!(t.line1.starts_with("1 25544U"));
    assert!(t.line2.starts_with("2 25544"));
}

#[test]
fn tle_text_without_name_line() {
    let text = "1 25544U 98067A   24060.50000000  .00016717\n2 25544  51.6400 208.9163 0006703";
    let t = parse_tle_text(text).expect("expected a parse");
    assert_eq!(t.name, None);
}

#[test]
fn tle_text_zero_marked_line_gives_no_name() {
    let text = "0 ISS (ZARYA)\n1 25544U 98067A   24060.50000000\n2 25544  51.6400 208.9163";
    let t = parse_tle_text(text).expect("expected a parse");
    assert_eq!(t.name, None);
    assert!(t.line1.starts_with("1 "));
}

#[test]
fn tle_text_trims_and_skips_blank_lines() {
    let text = "\r\n  ISS (ZARYA)  \r\n\r\n  1 25544U 98067A \r\n  2 25544  51.6400 \r\n";
    let t = parse_tle_text(text).expect("expected a parse");
    assert_eq!(t.name.as_deref(), Some("ISS (ZARYA)"));
    assert_eq!(t.line1, "1 25544U 98067A");
    assert_eq!(t.line2, "2 25544  51.6400");
}

#[test]
fn tle_text_rejects_unpaired_lines() {
    assert!(parse_tle_text("1 25544U only the first line").is_none());
    assert!(parse_tle_text("2 25544 only the second line").is_none());
    assert!(parse_tle_text("nothing here at all").is_none());
    assert!(parse_tle_text("").is_none());
    assert!(parse_tle_text("2 25544 second\n1 25544U first").is_none());
}

#[test]
fn tle_json_header_field_names_the_set() {
    let text = "{\"header\":\"ISS\",\"line1\":\"1 25544U 98067A\",\"line2\":\"2 25544 51.6400\"}";
    let t = parse_tle_json(text).expect("expected a parse");
    assert_eq!(t.name.as_deref(), Some("ISS"));
    assert_eq!(t.line1, "1 25544U 98067A");
    assert_eq!(t.line2, "2 25544 51.6400");
}

#[test]
fn tle_json_alternate_name_field() {
    let text = "{\"name\":\"ISS (ZARYA)\",\"line1\":\"1 25544U\",\"line2\":\"2 25544\"}";
    let t = parse_tle_json(text).expect("expected a parse");
    assert_eq!(t.name.as_deref(), Some("ISS (ZARYA)"));
}

#[test]
fn tle_json_header_wins_over_name() {
    let text = "{\"header\":\"A\",\"name\":\"B\",\"line1\":\"1 x\",\"line2\":\"2 x\"}";
    let t = parse_tle_json(text).expect("expected a parse");
    assert_eq!(t.name.as_deref(), Some("A"));
}

#[test]
fn tle_json_without_both_lines_fails() {
    assert!(parse_tle_json("{\"line1\":\"1 x\"}").is_none());
    assert!(parse_tle_json("{\"header\":\"ISS\"}").is_none());
    assert!(parse_tle_json("not json").is_none());
}

#[test]
fn parse_tle_prefers_structured_then_text() {
    let structured = "{\"header\":\"ISS\",\"line1\":\"1 25544U\",\"line2\":\"2 25544\"}";
    let t = parse_tle(structured).expect("structured shape accepted");
    assert_eq!(t.name.as_deref(), Some("ISS"));

    let raw = "ISS (ZARYA)\n1 25544U 98067A\n2 25544 51.6400";
    let t2 = parse_tle(raw).expect("raw text shape accepted");
    assert_eq!(t2.name.as_deref(), Some("ISS (ZARYA)"));

    let err = parse_tle("{\"weather\":\"cloudy\"}").unwrap_err();
    assert_eq!(err, TrackError::FormatFailure);
    assert_eq!(err.message(), "Unexpected TLE format.");
}

#[test]
fn trim_strips_ascii_whitespace() {
    assert_eq!(trim_str("  hello \t\r\n"), "hello");
    assert_eq!(trim_str("hello"), "hello");
    assert_eq!(trim_str(" \t "), "");
    assert_eq!(trim_str(""), "");
}

#[test]
fn coordinates_parse_to_microdegrees() {
    assert_eq!(parse_coord_microdeg("40.7128"), Some(40_712_800));
    assert_eq!(parse_coord_microdeg("-74.0060"), Some(-74_006_000));
    assert_eq!(parse_coord_microdeg("+12.5"), Some(12_500_000));
    assert_eq!(parse_coord_microdeg("0"), Some(0));
    assert_eq!(parse_coord_microdeg("-0.000001"), Some(-1));
    assert_eq!(parse_coord_microdeg("90"), Some(90_000_000));
    // fraction digits past the sixth are ignored
    assert_eq!(parse_coord_microdeg("12.3456789"), Some(12_345_678));
}

#[test]
fn malformed_coordinates_are_rejected()  {
    assert_eq!(parse_coord_microdeg(""), None);
    assert_eq!(parse_coord_microdeg("-"), None);
    assert_eq!(parse_coord_microdeg("."), None);
    assert_eq!(parse_coord_microdeg("12."), None);
    assert_eq!(parse_coord_microdeg(".5"), None);
    assert_eq!(parse_coord_microdeg("1e3"), None);
    assert_eq!(parse_coord_microdeg("12.34.56"), None);
    assert_eq!(parse_coord_microdeg("abc"), None);
    assert_eq!(parse_coord_microdeg("1234567890"), None);
}

#[test]
fn loc_field_splits_at_comma() {
    let p = parse_loc("40.7128,-74.0060").expect("expected a fix");
    assert_eq!(p.lat_microdeg, 40_712_800);
    assert_eq!(p.lon_microdeg, -74_006_000);

    let q = parse_loc(" 40.7128 , -74.0060 ").expect("halves are trimmed");
    assert_eq!(q.lat_microdeg, 40_712_800);
    assert_eq!(q.lon_microdeg, -74_006_000);

    assert!(parse_loc("40.7128").is_none());
    assert!(parse_loc("40.7128,").is_none());
    assert!(parse_loc(",1.0").is_none());
    assert!(parse_loc("a,b").is_none());
}

#[test]
fn provider_fallback_takes_first_fix() {
    let fix = GeoPoint { lat_microdeg: 1_000_000, lon_microdeg: 2_000_000 };
    let other = GeoPoint { lat_microdeg: 3_000_000, lon_microdeg: 4_000_000 };
    let attempts = vec![None, Some(fix), Some(other)];
    assert_eq!(resolve_location(&attempts).unwrap(), fix);

    let first_wins = vec![Some(other), Some(fix)];
    assert_eq!(resolve_location(&first_wins).unwrap(), other);
}

#[test]
fn provider_fallback_fails_when_all_fail() {
    let attempts: Vec<Option<GeoPoint>> = vec![None, None, None];
    let err = resolve_location(&attempts).unwrap_err();
    assert_eq!(err, TrackError::AllProvidersFailure);
    assert_eq!(err.message(), "All IP geolocation providers failed");

    let empty: Vec<Option<GeoPoint>> = vec![];
    assert_eq!(resolve_location(&empty).unwrap_err(), TrackError::AllProvidersFailure);
}
