use weatui::alert::motion::{whole_minutes, MotionError, StormMotion};
use weatui::geo::Coords;

const LIVE_SAMPLE: &str = "2026-07-27T07:00:00-00:00...storm...319DEG...30KT...46.93,-91.76";

const EARTH_RADIUS_KM: f64 = 6371.0088;
const KM_PER_KNOT_HOUR: f64 = 1.852;

fn number(s: &str) -> Option<u64> {
    s.parse::<f64>().ok().map(f64::to_bits)
}

fn parse(raw: &str) -> Result<StormMotion, MotionError> {
    let n = StormMotion::numerals(raw);
    let bearing = n.bearing.as_deref().and_then(number);
    let speed = n.speed.as_deref().and_then(number);
    let coordinates: Vec<Option<u64>> = n.coordinates.iter().map(|s| number(s)).collect();
    StormMotion::parse(raw, bearing, speed, &coordinates)
}

fn degrees(b: u64) -> f64 {
    f64::from_bits(b)
}

fn heading_deg(m: &StormMotion) -> f64 {
    (degrees(m.from_bearing_deg) + 180.0) % 360.0
}

fn haversine_km(a: (f64, f64), b: (f64, f64)) -> f64 {
    let (lat1, lat2) = (a.0.to_radians(), b.0.to_radians());
    let (dlat, dlon) = ((b.0 - a.0).to_radians(), (b.1 - a.1).to_radians());
    let h = (dlat / 2.0).sin().powi(2) + lat1.cos() * lat2.cos() * (dlon / 2.0).sin().powi(2);
    2.0 * EARTH_RADIUS_KM * h.sqrt().asin()
}

fn bearing(a: (f64, f64), b: (f64, f64)) -> f64 {
    let (lat1, lat2) = (a.0.to_radians(), b.0.to_radians());
    let dlon = (b.1 - a.1).to_radians();
    let y = dlon.sin() * lat2.cos();
    let x = lat1.cos() * lat2.sin() - lat1.sin() * lat2.cos() * dlon.cos();
    (y.atan2(x).to_degrees() + 360.0) % 360.0
}

fn place(c: &Coords) -> (f64, f64) {
    (degrees(c.lat), degrees(c.lon))
}

fn eta_to(m: &StormMotion, target: (f64, f64)) -> Option<i64> {
    let distances: Vec<u64> =
        m.track.iter().map(|c| haversine_km(place(c), target).to_bits()).collect();
    let origin = place(&m.closest_track_point(&distances)?);
    let d = ((bearing(origin, target) - heading_deg(m)) % 360.0 + 360.0) % 360.0;
    let offset = if d > 180.0 { 360.0 - d } else { d };
    let along = haversine_km(origin, target) * offset.to_radians().cos();
    let hours = along / (degrees(m.speed_kt) * KM_PER_KNOT_HOUR);
    m.eta_to(offset.to_bits(), (hours * 3600.0).round() as i64)
}

#[test]
fn a6_parses_the_live_sample_from_api_weather_gov() {
    let m = parse(LIVE_SAMPLE).unwrap();
    assert!((degrees(m.from_bearing_deg) - 319.0).abs() < 1e-9);
    assert!((degrees(m.speed_kt) - 30.0).abs() < 1e-9);
    assert_eq!(m.track.len(), 1);
    assert!((degrees(m.track[0].lat) - 46.93).abs() < 1e-9);
    assert!((degrees(m.track[0].lon) - (-91.76)).abs() < 1e-9);
    assert_eq!(m.observed_at.secs, 1_785_135_600);
}

#[test]
fn heading_is_the_reciprocal_of_the_reported_from_bearing() {
    let m = parse(LIVE_SAMPLE).unwrap();
    assert!((heading_deg(&m) - 139.0).abs() < 1e-9);
}

#[test]
fn heading_wraps_past_north() {
    let raw = "2026-07-27T07:00:00-00:00...storm...200DEG...30KT...35.0,-97.0";
    assert!((heading_deg(&parse(raw).unwrap()) - 20.0).abs() < 1e-9);
}

#[test]
fn a7_eta_matches_hand_computed_value_within_one_minute() {
    let raw = "2026-07-27T07:00:00-00:00...storm...180DEG...30KT...34.0994,-97.0";
    let m = parse(raw).unwrap();
    let eta = eta_to(&m, (35.0, -97.0)).expect("storm is closing");
    let minutes = eta as f64 / 60.0;
    assert!((minutes - 108.0).abs() < 1.0, "expected ~108 min, got {minutes}");
}

#[test]
fn storm_moving_away_yields_no_eta_rather_than_a_negative_one() {
    let raw = "2026-07-27T07:00:00-00:00...storm...000DEG...30KT...34.0994,-97.0";
    let m = parse(raw).unwrap();
    assert!(eta_to(&m, (35.0, -97.0)).is_none());
}

#[test]
fn stationary_storm_has_no_eta() {
    let raw = "2026-07-27T07:00:00-00:00...storm...180DEG...0KT...34.0,-97.0";
    assert!(eta_to(&parse(raw).unwrap(), (35.0, -97.0)).is_none());
}

#[test]
fn multi_point_track_lines_are_supported() {
    let raw = "2026-07-27T07:00:00-00:00...storm...319DEG...30KT...46.93,-91.76,47.10,-91.50";
    let m = parse(raw).unwrap();
    assert_eq!(m.track.len(), 2);
    assert!((degrees(m.track[1].lat) - 47.10).abs() < 1e-9);
}

#[test]
fn motion_malformed_input_errors_and_never_panics() {
    for bad in [
        "",
        "garbage",
        "2026-07-27T07:00:00-00:00...storm...319DEG...30KT",
        "not-a-time...storm...319DEG...30KT...46.93,-91.76",
        "2026-07-27T07:00:00-00:00...storm...319...30KT...46.93,-91.76",
        "2026-07-27T07:00:00-00:00...storm...319DEG...30...46.93,-91.76",
        "2026-07-27T07:00:00-00:00...storm...999DEG...30KT...46.93,-91.76",
        "2026-07-27T07:00:00-00:00...storm...319DEG...30KT...46.93",
        "2026-07-27T07:00:00-00:00...storm...319DEG...30KT...",
    ] {
        assert!(parse(bad).is_err(), "expected Err for {bad:?}");
    }
}

#[test]
fn each_fault_of_a_motion_has_its_own_error() {
    let cases = [
        ("garbage", MotionError::Segments),
        ("no...storm...319DEG...30KT...1,2", MotionError::Timestamp),
        ("2026-07-27T07:00:00Z...storm...319...30KT...1,2", MotionError::BearingSuffix),
        ("2026-07-27T07:00:00Z...storm...xDEG...30KT...1,2", MotionError::Bearing),
        ("2026-07-27T07:00:00Z...storm...360DEG...30KT...1,2", MotionError::BearingRange),
        ("2026-07-27T07:00:00Z...storm...-1DEG...30KT...1,2", MotionError::BearingRange),
        ("2026-07-27T07:00:00Z...storm...NaNDEG...30KT...1,2", MotionError::BearingRange),
        ("2026-07-27T07:00:00Z...storm...319DEG...30...1,2", MotionError::SpeedSuffix),
        ("2026-07-27T07:00:00Z...storm...319DEG...xKT...1,2", MotionError::Speed),
        ("2026-07-27T07:00:00Z...storm...319DEG...-3KT...1,2", MotionError::NegativeSpeed),
        ("2026-07-27T07:00:00Z...storm...319DEG...30KT...1,2,3", MotionError::Coordinates),
    ];
    for (raw, want) in cases {
        assert_eq!(parse(raw).unwrap_err(), want, "{raw}");
    }
}

#[test]
fn segments_are_trimmed_and_unreadable_coordinates_are_dropped() {
    let raw = " 2026-07-27T07:00:00Z ... storm ... 0DEG ... 0.5KT ... 1.5, x, -2.5 ";
    let m = parse(raw).unwrap();
    assert_eq!(m.track.len(), 1);
    assert_eq!(place(&m.track[0]), (1.5, -2.5));
}

#[test]
fn minutes_are_rounded_toward_zero() {
    assert_eq!(whole_minutes(119), 1);
    assert_eq!(whole_minutes(-119), -1);
    assert_eq!(whole_minutes(59), 0);
    assert_eq!(whole_minutes(i64::MIN), -153722867280912930);
}
