use weatui::conditions::{
    check_station_list, conditions_from, nearest_hourly, nearest_observation, nearest_stations,
    note_error, observation_url, points_url, Ask, Conditions, ConditionsTask, Conversion,
    HourlyForecast, Measured, Observation, Quantity, Scale, Stage, StationError, StationRota,
};
use weatui::geo::compass_16;
use weatui::time::Stamp;

fn quantity(v: &serde_json::Value) -> Option<Quantity> {
    let q = v.as_object()?;
    Some(Quantity {
        value: q.get("value").and_then(|x| x.as_f64()).map(f64::to_bits),
        unit_code: q.get("unitCode").and_then(|x| x.as_str()).unwrap_or("").to_string(),
    })
}

fn parse(json: &str) -> Conditions {
    let v: serde_json::Value = serde_json::from_str(json).unwrap();
    let p = &v["properties"];
    let text = |k: &str| p[k].as_str().map(str::to_string);
    let obs = Observation {
        timestamp: text("timestamp"),
        text_description: text("textDescription"),
        temperature: quantity(&p["temperature"]),
        dewpoint: quantity(&p["dewpoint"]),
        relative_humidity: quantity(&p["relativeHumidity"]),
        wind_speed: quantity(&p["windSpeed"]),
        wind_direction: quantity(&p["windDirection"]),
        visibility: quantity(&p["visibility"]),
        precipitation_last_hour: quantity(&p["precipitationLastHour"]),
    };
    conditions_from("KBNA".into(), &obs)
}

fn shown(m: Option<Measured>) -> Option<f32> {
    let m = m?;
    let v = f64::from_bits(m.value) as f32;
    Some(match m.conversion {
        Conversion::AsMeasured => v,
        Conversion::CelsiusToFahrenheit => v * 9.0 / 5.0 + 32.0,
        Conversion::KilometresPerHourToMiles => v / 1.609344,
        Conversion::MetresPerSecondToMiles => v * 2.236936,
        Conversion::MetresToMiles => v / 1609.344,
        Conversion::MillimetresToInches => v / 25.4,
        Conversion::MetresToInches => v / 0.0254,
    })
}

#[test]
fn a_full_observation_converts_to_display_units() {
    let c = parse(
        r#"{"properties":{
            "timestamp":"2026-08-01T05:53:00+00:00",
            "textDescription":"Partly Cloudy",
            "temperature":{"unitCode":"wmoUnit:degC","value":25.0},
            "dewpoint":{"unitCode":"wmoUnit:degC","value":20.0},
            "relativeHumidity":{"unitCode":"wmoUnit:percent","value":73.9},
            "windSpeed":{"unitCode":"wmoUnit:km_h-1","value":16.09},
            "windDirection":{"unitCode":"wmoUnit:degree_(angle)","value":225.0},
            "visibility":{"unitCode":"wmoUnit:m","value":16090.0},
            "precipitationLastHour":{"unitCode":"wmoUnit:mm","value":2.54}
        }}"#,
    );
    assert_eq!(shown(c.temp_f), Some(77.0));
    assert_eq!(shown(c.dewpoint_f), Some(68.0));
    assert_eq!(shown(c.humidity_pct), Some(73.9));
    assert!((shown(c.wind_mph).unwrap() - 10.0).abs() < 0.01);
    let sector = shown(c.wind_from_deg).map(|d| compass_16((d / 22.5).round() as u64));
    assert_eq!(sector, Some("SW"));
    assert!((shown(c.visibility_mi).unwrap() - 10.0).abs() < 0.01);
    assert!((shown(c.rain_last_hour_in).unwrap() - 0.1).abs() < 0.001);
    assert_eq!(c.description.as_deref(), Some("Partly Cloudy"));
    assert!(c.observed_at.is_some());
}

/// Stations often report with sensors offline; every reading must survive as
/// absent rather than default to a false zero.
#[test]
fn null_sensors_stay_absent_rather_than_becoming_zero() {
    let c = parse(
        r#"{"properties":{
            "timestamp":null,
            "textDescription":"",
            "temperature":null,
            "dewpoint":{"unitCode":"wmoUnit:degC","value":null},
            "windSpeed":{"unitCode":"wmoUnit:km_h-1","value":null}
        }}"#,
    );
    assert_eq!(shown(c.temp_f), None);
    assert_eq!(shown(c.wind_mph), None);
    assert_eq!(shown(c.humidity_pct), None);
    assert_eq!(shown(c.visibility_mi), None);
    assert_eq!(shown(c.rain_last_hour_in), None);
    assert_eq!(c.description, None);
    assert_eq!(c.observed_at, None);
}

/// A reading in an unknown unit must vanish, not be shown on the wrong scale.
#[test]
fn unknown_units_fail_closed() {
    let c = parse(
        r#"{"properties":{
            "temperature":{"unitCode":"wmoUnit:K","value":298.15},
            "windSpeed":{"unitCode":"wmoUnit:kn","value":10.0}
        }}"#,
    );
    assert_eq!(shown(c.temp_f), None, "kelvin must not be shown as fahrenheit");
    assert_eq!(shown(c.wind_mph), None, "knots must not be shown as mph");
}

#[test]
fn metres_per_second_wind_is_converted() {
    let q = Quantity { value: Some(10.0_f64.to_bits()), unit_code: "wmoUnit:m_s-1".into() };
    let mph = shown(q.on_scale(Scale::MilesPerHour)).unwrap();
    assert!((mph - 22.369).abs() < 0.01);
}

#[test]
fn every_scale_takes_its_own_units_only() {
    let q = |u: &str| Quantity { value: Some(7), unit_code: u.to_string() };
    let how = |u: &str, s: Scale| q(u).on_scale(s).map(|m| m.conversion);
    assert_eq!(how("wmoUnit:degF", Scale::Fahrenheit), Some(Conversion::AsMeasured));
    assert_eq!(how("wmoUnit:m", Scale::Miles), Some(Conversion::MetresToMiles));
    assert_eq!(how("wmoUnit:m", Scale::MilesPerHour), None);
    assert_eq!(how("wmoUnit:mm", Scale::Inches), Some(Conversion::MillimetresToInches));
    assert_eq!(how("wmoUnit:mm", Scale::Miles), None);
    assert_eq!(how("", Scale::Percent), None);
}

fn names(list: &[&str]) -> Vec<String> {
    list.iter().map(|s| s.to_string()).collect()
}

#[test]
fn the_four_nearest_stations_are_kept() {
    let six = names(&["A", "B", "C", "D", "E", "F"]);
    assert_eq!(nearest_stations(&six), Ok(names(&["A", "B", "C", "D"])));
    assert_eq!(nearest_stations(&names(&["A"])), Ok(names(&["A"])));
    assert_eq!(nearest_stations(&Vec::new()), Err(StationError::NoStations));
}

#[test]
fn a_station_list_elsewhere_is_not_followed() {
    assert_eq!(check_station_list("https://api.weather.gov/gridpoints/x"), Ok(()));
    assert_eq!(
        check_station_list("https://example.com/https://api.weather.gov/"),
        Err(StationError::OffHost)
    );
    assert_eq!(points_url("35.9", "-87.3"), "https://api.weather.gov/points/35.9,-87.3");
    assert_eq!(
        observation_url("KBNA"),
        "https://api.weather.gov/stations/KBNA/observations/latest"
    );
}

#[test]
fn a_failed_station_is_left_for_the_next() {
    let mut rota = StationRota::new();
    assert_eq!(rota.current(), None);
    rota.stations = names(&["A", "B"]);
    let mut seen = Vec::new();
    for _ in 0..3 {
        seen.push(rota.current().unwrap().clone());
        rota.rotate();
    }
    assert_eq!(seen, names(&["A", "B", "A"]));
}

#[test]
fn the_first_error_is_kept() {
    let mut kept = None;
    note_error(&mut kept, "one".to_string());
    note_error(&mut kept, "two".to_string());
    assert_eq!(kept.as_deref(), Some("one"));
}

#[test]
fn a_round_asks_for_what_is_missing_and_then_reports() {
    let mut t = ConditionsTask::new();
    assert!(matches!(t.begin(), Ask::Points));
    assert!(matches!(t.points_answered(true), Ask::Stations));
    match t.stations_answered(Some(names(&["KBNA", "KMQY"]))) {
        Ask::Latest(s) => assert_eq!(s, "KBNA"),
        other => panic!("{other:?}"),
    }
    match t.latest_answered(false) {
        Ask::History(s) => assert_eq!(s, "KBNA"),
        other => panic!("{other:?}"),
    }
    assert!(matches!(t.answered(), Ask::Hourly));
    assert!(matches!(t.answered(), Ask::Report));
    match t.begin() {
        Ask::Latest(s) => assert_eq!(s, "KMQY", "the one that failed is left"),
        other => panic!("{other:?}"),
    }
    t.latest_answered(true);
    t.answered();
    t.answered();
    match t.begin() {
        Ask::Latest(s) => assert_eq!(s, "KMQY", "the one that answered is kept"),
        other => panic!("{other:?}"),
    }
    assert_eq!(t.stage, Stage::Latest);
}

#[test]
fn the_reading_nearest_in_time_is_chosen() {
    let moment = |secs: i64| Stamp { secs, nanos: 0 };
    let hour = |secs: i64| HourlyForecast {
        valid: moment(secs),
        temp_f: None,
        dewpoint_f: None,
        humidity_pct: None,
        wind_mph: None,
        wind_dir: None,
        short: None,
    };
    let hours = vec![hour(0), hour(3600), hour(7200)];
    assert_eq!(nearest_hourly(&hours, moment(3000)), Some(1));
    assert_eq!(nearest_hourly(&hours, moment(-9)), Some(0));
    assert_eq!(nearest_hourly(&Vec::new(), moment(0)), None);

    let mut blank = parse(r#"{"properties":{"timestamp":null}}"#);
    assert_eq!(nearest_observation(&vec![blank.clone()], moment(0)), None);
    let early = blank.clone();
    blank.observed_at = Some(moment(500));
    assert_eq!(nearest_observation(&vec![early, blank], moment(0)), Some(1));
}
