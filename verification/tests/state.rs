use weatui::alert::filter::{Filter, ThreatTier};
use weatui::alert::state::{in_force, key_of, AlertState};
use weatui::alert::{
    features_skipping_malformed, polygons_from_positions, rings_from_positions, Alert,
    AlertCollection, Feature, Geometry, ParamValue, Parameter, Properties,
};
use weatui::config::Alerts;
use weatui::time::{parse_timestamp, Stamp};

fn ring_of(v: &serde_json::Value) -> Option<Vec<Vec<u64>>> {
    v.as_array()?
        .iter()
        .map(|p| p.as_array()?.iter().map(|n| n.as_f64().map(f64::to_bits)).collect())
        .collect()
}

fn geometry_of(v: &serde_json::Value) -> Option<Geometry> {
    let coords = &v["coordinates"];
    match v["type"].as_str()? {
        "Polygon" => {
            let raw: Option<Vec<_>> = coords.as_array()?.iter().map(ring_of).collect();
            Some(Geometry::Polygon { coordinates: rings_from_positions(&raw?) })
        }
        "MultiPolygon" => {
            let raw: Option<Vec<Vec<_>>> = coords
                .as_array()?
                .iter()
                .map(|p| p.as_array()?.iter().map(ring_of).collect::<Option<Vec<_>>>())
                .collect();
            Some(Geometry::MultiPolygon { coordinates: polygons_from_positions(&raw?) })
        }
        _ => Some(Geometry::Other),
    }
}

fn opt(v: &serde_json::Value) -> Option<String> {
    v.as_str().map(str::to_string)
}

fn feature_of(v: &serde_json::Value) -> Option<Feature> {
    let geometry = match &v["geometry"] {
        serde_json::Value::Null => None,
        g => Some(geometry_of(g)?),
    };
    let p = &v["properties"];
    let mut parameters = Vec::new();
    if let Some(map) = p["parameters"].as_object() {
        for (name, values) in map {
            let values = values
                .as_array()?
                .iter()
                .map(|x| match x.as_str() {
                    Some(s) => ParamValue::Text(s.to_string()),
                    None => ParamValue::Other,
                })
                .collect();
            parameters.push(Parameter { name: name.clone(), values });
        }
    }
    Some(Feature {
        geometry,
        properties: Properties {
            id: opt(&p["id"]),
            event: opt(&p["event"])?,
            certainty: opt(&p["certainty"]),
            headline: opt(&p["headline"]),
            instruction: opt(&p["instruction"]),
            area_desc: opt(&p["areaDesc"]),
            expires: opt(&p["expires"]),
            parameters,
        },
    })
}

fn collection(json: &str) -> Result<AlertCollection, String> {
    let v: serde_json::Value = serde_json::from_str(json).map_err(|e| e.to_string())?;
    let list = v["features"].as_array().ok_or("no features")?;
    features_skipping_malformed(list.iter().map(feature_of).collect())
        .map_err(|e| format!("all {} features failed", e.offered))
}

fn alert_with(event: &str, vtec: Option<&str>) -> Alert {
    let params = match vtec {
        Some(v) => format!(r#"{{"VTEC":["{v}"]}}"#),
        None => "{}".to_string(),
    };
    let json = format!(
        r#"{{"features":[{{"geometry":null,"properties":{{"event":"{event}","parameters":{params}}}}}]}}"#
    );
    let parsed = collection(&json).unwrap();
    let f: Feature = parsed.features.into_iter().next().unwrap();
    Alert::from_feature(f)
}

fn filter() -> Filter {
    Filter::from_config(&Alerts::default())
}

const TOR_NEW: &str = "/O.NEW.KTLX.TO.W.0012.260727T0700Z-260727T0730Z/";
const TOR_CON: &str = "/O.CON.KTLX.TO.W.0012.260727T0705Z-260727T0730Z/";
const TOR_CAN: &str = "/O.CAN.KTLX.TO.W.0012.260727T0710Z-260727T0730Z/";

#[test]
fn a8_same_event_seen_twice_notifies_once() {
    let mut st = AlertState::new();
    let f = filter();
    assert_eq!(st.ingest(vec![alert_with("Tornado Warning", Some(TOR_NEW))], &f).len(), 1);
    assert_eq!(st.ingest(vec![alert_with("Tornado Warning", Some(TOR_NEW))], &f).len(), 0);
    assert_eq!(st.active().len(), 1);
}

#[test]
fn a8_continuation_does_not_renotify() {
    let mut st = AlertState::new();
    let f = filter();
    st.ingest(vec![alert_with("Tornado Warning", Some(TOR_NEW))], &f);
    let second = st.ingest(vec![alert_with("Tornado Warning", Some(TOR_CON))], &f);
    assert!(second.is_empty());
    assert_eq!(st.active().len(), 1);
}

#[test]
fn a8_cancel_clears_the_alert() {
    let mut st = AlertState::new();
    let f = filter();
    st.ingest(vec![alert_with("Tornado Warning", Some(TOR_NEW))], &f);
    st.ingest(vec![alert_with("Tornado Warning", Some(TOR_CAN))], &f);
    assert_eq!(st.active().len(), 0);
}

#[test]
fn alert_absent_from_a_later_poll_is_dropped() {
    let mut st = AlertState::new();
    let f = filter();
    st.ingest(vec![alert_with("Tornado Warning", Some(TOR_NEW))], &f);
    assert_eq!(st.active().len(), 1);
    st.ingest(Vec::new(), &f);
    assert_eq!(st.active().len(), 0);
}

#[test]
fn a_cleared_alert_notifies_again_if_it_returns() {
    let mut st = AlertState::new();
    let f = filter();
    st.ingest(vec![alert_with("Tornado Warning", Some(TOR_NEW))], &f);
    st.ingest(Vec::new(), &f);
    assert_eq!(st.ingest(vec![alert_with("Tornado Warning", Some(TOR_NEW))], &f).len(), 1);
}

#[test]
fn rejected_products_never_enter_state() {
    let mut st = AlertState::new();
    let f = filter();
    let out = st.ingest(
        vec![
            alert_with("Air Quality Alert", None),
            alert_with("Small Craft Advisory", Some("/O.NEW.KBOX.SC.Y.0123.260727T0700Z-260727T1900Z/")),
        ],
        &f,
    );
    assert!(out.is_empty());
    assert_eq!(st.active().len(), 0);
}

#[test]
fn distinct_etns_are_tracked_separately() {
    let mut st = AlertState::new();
    let f = filter();
    let out = st.ingest(
        vec![
            alert_with("Tornado Warning", Some(TOR_NEW)),
            alert_with("Tornado Warning", Some("/O.NEW.KTLX.TO.W.0013.260727T0700Z-260727T0730Z/")),
        ],
        &f,
    );
    assert_eq!(out.len(), 2);
    assert_eq!(st.active().len(), 2);
}

fn alert_with_params(event: &str, vtec: &str, extra: &str) -> Alert {
    let json = format!(
        r#"{{"features":[{{"geometry":null,"properties":{{"event":"{event}","parameters":{{"VTEC":["{vtec}"]{extra}}}}}}}]}}"#
    );
    let parsed = collection(&json).unwrap();
    Alert::from_feature(parsed.features.into_iter().next().unwrap())
}

#[test]
fn an_upgrade_to_a_tornado_emergency_notifies_again() {
    let mut st = AlertState::new();
    let f = filter();

    let first = st.ingest(vec![alert_with("Tornado Warning", Some(TOR_NEW))], &f);
    assert_eq!(first.len(), 1);

    let upgraded = st.ingest(
        vec![alert_with_params(
            "Tornado Warning",
            TOR_CON,
            r#","damageThreat":["CATASTROPHIC"]"#,
        )],
        &f,
    );
    assert_eq!(
        upgraded.len(),
        1,
        "an SVS upgrade reuses the ETN, so dedup must not swallow the emergency"
    );
    assert_eq!(upgraded[0].damage_threat.as_deref(), Some("CATASTROPHIC"));
}

#[test]
fn an_ordinary_continuation_still_does_not_renotify() {
    let mut st = AlertState::new();
    let f = filter();
    st.ingest(vec![alert_with("Tornado Warning", Some(TOR_NEW))], &f);
    let again = st.ingest(vec![alert_with("Tornado Warning", Some(TOR_CON))], &f);
    assert!(again.is_empty(), "no severity change means no second toast");
}

const TOR_WATCH_SAME_ETN: &str = "/O.NEW.KTLX.TO.A.0012.260727T0600Z-260727T1200Z/";
const TOR_WATCH_EXP_SAME_ETN: &str = "/O.EXP.KTLX.TO.A.0012.260727T0600Z-260727T1200Z/";

#[test]
fn a_warning_is_not_suppressed_by_a_watch_sharing_its_etn() {
    let mut st = AlertState::new();
    let f = filter();

    let first = st.ingest(vec![alert_with("Tornado Watch", Some(TOR_WATCH_SAME_ETN))], &f);
    assert_eq!(first.len(), 1, "the watch should notify");

    let second = st.ingest(
        vec![
            alert_with("Tornado Watch", Some(TOR_WATCH_SAME_ETN)),
            alert_with("Tornado Warning", Some(TOR_NEW)),
        ],
        &f,
    );
    let tiers: Vec<ThreatTier> = second.iter().map(|n| n.tier).collect();
    assert_eq!(
        tiers,
        vec![ThreatTier::Lethal],
        "the tornado warning must notify even though the watch shares its ETN"
    );
}

#[test]
fn a_watch_does_not_overwrite_a_warning_sharing_its_etn() {
    let mut st = AlertState::new();
    let f = filter();
    st.ingest(
        vec![
            alert_with("Tornado Warning", Some(TOR_NEW)),
            alert_with("Tornado Watch", Some(TOR_WATCH_SAME_ETN)),
        ],
        &f,
    );
    assert_eq!(st.active().len(), 2);
    assert_eq!(st.active().iter().map(|a| a.tier).max(), Some(ThreatTier::Lethal));
}

#[test]
fn an_expiring_watch_does_not_delete_a_live_warning() {
    let mut st = AlertState::new();
    let f = filter();
    st.ingest(
        vec![
            alert_with("Tornado Warning", Some(TOR_NEW)),
            alert_with("Tornado Watch", Some(TOR_WATCH_SAME_ETN)),
        ],
        &f,
    );
    st.ingest(
        vec![
            alert_with("Tornado Warning", Some(TOR_NEW)),
            alert_with("Tornado Watch", Some(TOR_WATCH_EXP_SAME_ETN)),
        ],
        &f,
    );
    assert_eq!(
        st.active().iter().map(|a| a.tier).max(),
        Some(ThreatTier::Lethal),
        "expiring the watch must not retire the warning that shares its ETN"
    );
}

#[test]
fn highest_tier_reports_the_worst_active_threat() {
    let mut st = AlertState::new();
    let f = filter();
    st.ingest(
        vec![
            alert_with("Severe Thunderstorm Watch", Some("/O.NEW.KWNS.SV.A.0455.260727T1800Z-260728T0200Z/")),
            alert_with("Tornado Warning", Some(TOR_NEW)),
        ],
        &f,
    );
    assert_eq!(st.active().iter().map(|a| a.tier).max(), Some(ThreatTier::Lethal));
}

fn alert_expiring(vtec: &str, expires: &str) -> Alert {
    let json = format!(
        r#"{{"features":[{{"geometry":null,"properties":{{"event":"Tornado Warning","expires":"{expires}","parameters":{{"VTEC":["{vtec}"]}}}}}}]}}"#
    );
    let parsed = collection(&json).unwrap();
    Alert::from_feature(parsed.features.into_iter().next().unwrap())
}

#[test]
fn an_expired_alert_is_dropped_without_waiting_for_the_feed() {
    let mut st = AlertState::new();
    let f = filter();
    let expires = "2026-07-27T07:30:00Z";
    st.ingest(vec![alert_expiring(TOR_NEW, expires)], &f);
    assert_eq!(st.active().len(), 1);

    let before = parse_timestamp("2026-07-27T07:20:00Z").unwrap();
    assert_eq!(st.prune_expired(before), 0, "still live");
    assert_eq!(st.active().len(), 1);

    let after = parse_timestamp("2026-07-27T07:31:00Z").unwrap();
    assert_eq!(st.prune_expired(after), 1, "past its expiry");
    assert_eq!(st.active().len(), 0);
}

#[test]
fn an_alert_with_no_expiry_is_left_to_the_feed() {
    let mut st = AlertState::new();
    let f = filter();
    st.ingest(vec![alert_with("Tornado Warning", Some(TOR_NEW))], &f);
    let far_future = parse_timestamp("2099-01-01T00:00:00Z").unwrap();
    assert_eq!(st.prune_expired(far_future), 0);
    assert_eq!(st.active().len(), 1);
}

#[test]
fn a_never_polled_state_is_stale_immediately() {
    assert!(AlertState::new().is_stale(1000, 300));
}

#[test]
fn staleness_triggers_only_after_the_threshold() {
    let mut st = AlertState::new();
    st.mark_poll_success(1000);
    assert!(!st.is_stale(1100, 300));
    assert!(!st.is_stale(1299, 300));
    assert!(st.is_stale(1300, 300));
}

#[test]
fn clock_going_backwards_does_not_underflow() {
    let mut st = AlertState::new();
    st.mark_poll_success(2000);
    assert!(!st.is_stale(1000, 300));
}

#[test]
fn the_key_comes_from_the_code_then_the_id_then_the_text() {
    let coded = alert_with("Tornado Warning", Some(TOR_NEW));
    assert_eq!(key_of(&coded), "KTLX.TO.W.12");

    let mut plain = alert_with("Special Weather Statement", None);
    assert_eq!(key_of(&plain), "Special Weather Statement||");
    plain.properties.area_desc = Some("Hickman".to_string());
    plain.properties.expires = Some("later".to_string());
    assert_eq!(key_of(&plain), "Special Weather Statement|Hickman|later");
    plain.properties.id = Some("urn:1".to_string());
    assert_eq!(key_of(&plain), "urn:1");
}

#[test]
fn an_upgrade_that_carries_both_codes_stands_as_the_replacement() {
    let mut st = AlertState::new();
    let f = filter();
    let both = "/O.CAN.KTLX.SV.W.0007.a-b/\\n/O.NEW.KTLX.TO.W.0012.a-b/";
    let fresh = st.ingest(vec![alert_with("Tornado Warning", Some(both))], &f);
    assert_eq!(fresh.len(), 1);
    assert_eq!(fresh[0].key, "KTLX.TO.W.12");
    assert!(st.active_under("KTLX.TO.W.12").is_some());
    assert!(st.active_under("KTLX.SV.W.7").is_none());
}

#[test]
fn the_last_word_of_a_poll_decides() {
    let mut st = AlertState::new();
    let f = filter();
    let fresh = st.ingest(
        vec![
            alert_with("Tornado Warning", Some(TOR_NEW)),
            alert_with("Tornado Warning", Some(TOR_CAN)),
        ],
        &f,
    );
    assert_eq!(fresh.len(), 1);
    assert_eq!(st.active().len(), 0);
    st.ingest(
        vec![
            alert_with("Tornado Warning", Some(TOR_CAN)),
            alert_with("Tornado Warning", Some(TOR_CON)),
        ],
        &f,
    );
    assert_eq!(st.active().len(), 1);
}

#[test]
fn an_alert_is_in_force_up_to_its_expiry_and_not_at_it() {
    let at = Stamp { secs: 1_000, nanos: 0 };
    assert!(in_force(None, at));
    assert!(in_force(Some(Stamp { secs: 1_000, nanos: 1 }), at));
    assert!(!in_force(Some(at), at));
    assert!(!in_force(Some(Stamp { secs: 999, nanos: 999_999_999 }), at));
}

#[test]
fn an_unreadable_expiry_is_left_to_the_feed() {
    let mut st = AlertState::new();
    st.ingest(vec![alert_expiring(TOR_NEW, "tomorrow")], &filter());
    assert_eq!(st.prune_expired(Stamp { secs: 4_000_000_000, nanos: 0 }), 0);
    assert_eq!(st.active().len(), 1);
}
