use weatui::alert::filter::{Filter, ThreatTier};
use weatui::alert::{
    features_skipping_malformed, polygons_from_positions, rings_from_positions, Alert,
    AlertCollection, Feature, Geometry, ParamValue, Parameter, Properties,
};
use weatui::config::Alerts;

fn ring_of(v: &serde_json::Value) -> Option<Vec<Vec<u64>>> {
    v.as_array()?
        .iter()
        .map(|p| p.as_array()?.iter().map(|n| n.as_f64().map(f64::to_bits)).collect())
        .collect()
}

fn geometry_of(v: &serde_json::Value) -> Option<Geometry> {
    let coords = &v["coordinates"];
    match v["type"].as_str()? {
        "Polygon" => {
            let raw: Option<Vec<_>> = coords.as_array()?.iter().map(ring_of).collect();
            Some(Geometry::Polygon { coordinates: rings_from_positions(&raw?) })
        }
        "MultiPolygon" => {
            let raw: Option<Vec<Vec<_>>> = coords
                .as_array()?
                .iter()
                .map(|p| p.as_array()?.iter().map(ring_of).collect::<Option<Vec<_>>>())
                .collect();
            Some(Geometry::MultiPolygon { coordinates: polygons_from_positions(&raw?) })
        }
        _ => Some(Geometry::Other),
    }
}

fn opt(v: &serde_json::Value) -> Option<String> {
    v.as_str().map(str::to_string)
}

fn feature_of(v: &serde_json::Value) -> Option<Feature> {
    let geometry = match &v["geometry"] {
        serde_json::Value::Null => None,
        g => Some(geometry_of(g)?),
    };
    let p = &v["properties"];
    let mut parameters = Vec::new();
    if let Some(map) = p["parameters"].as_object() {
        for (name, values) in map {
            let values = values
                .as_array()?
                .iter()
                .map(|x| match x.as_str() {
                    Some(s) => ParamValue::Text(s.to_string()),
                    None => ParamValue::Other,
                })
                .collect();
            parameters.push(Parameter { name: name.clone(), values });
        }
    }
    Some(Feature {
        geometry,
        properties: Properties {
            id: opt(&p["id"]),
            event: opt(&p["event"])?,
            certainty: opt(&p["certainty"]),
            headline: opt(&p["headline"]),
            instruction: opt(&p["instruction"]),
            area_desc: opt(&p["areaDesc"]),
            expires: opt(&p["expires"]),
            parameters,
        },
    })
}

fn collection(json: &str) -> Result<AlertCollection, String> {
    let v: serde_json::Value = serde_json::from_str(json).map_err(|e| e.to_string())?;
    let list = v["features"].as_array().ok_or("no features")?;
    features_skipping_malformed(list.iter().map(feature_of).collect())
        .map_err(|e| format!("all {} features failed", e.offered))
}

fn alert_with(event: &str, vtec: Option<&str>) -> Alert {
    let params = match vtec {
        Some(v) => format!(r#"{{"VTEC":["{v}"]}}"#),
        None => "{}".to_string(),
    };
    let json = format!(
        r#"{{"features":[{{"geometry":null,"properties":{{"event":"{event}","parameters":{params}}}}}]}}"#
    );
    let parsed = collection(&json).unwrap();
    let f: Feature = parsed.features.into_iter().next().unwrap();
    Alert::from_feature(f)
}

fn filter() -> Filter {
    Filter::from_config(&Alerts::default())
}

#[test]
fn a2_severe_thunderstorm_warning_is_severe() {
    let a = alert_with(
        "Severe Thunderstorm Warning",
        Some("/O.NEW.KDLH.SV.W.0087.260727T0700Z-260727T0800Z/"),
    );
    assert_eq!(filter().classify(&a), Some(ThreatTier::Severe));
}

#[test]
fn a2_tornado_warning_is_lethal() {
    let a = alert_with(
        "Tornado Warning",
        Some("/O.NEW.KTLX.TO.W.0012.260727T0700Z-260727T0730Z/"),
    );
    assert_eq!(filter().classify(&a), Some(ThreatTier::Lethal));
}

#[test]
fn flash_flood_warning_is_lethal() {
    let a = alert_with(
        "Flash Flood Warning",
        Some("/O.NEW.KTLX.FF.W.0003.260727T0700Z-260727T0900Z/"),
    );
    assert_eq!(filter().classify(&a), Some(ThreatTier::Lethal));
}

/// An Air Quality Alert carries no VTEC, so the path without codes is an
/// allowlist, not a fallthrough.
#[test]
fn a3_air_quality_alert_is_rejected() {
    let a = alert_with("Air Quality Alert", None);
    assert_eq!(filter().classify(&a), None);
}

#[test]
fn a4_special_weather_statement_is_accepted_despite_having_no_vtec() {
    let a = alert_with("Special Weather Statement", None);
    assert_eq!(filter().classify(&a), Some(ThreatTier::Severe));
}

#[test]
fn small_craft_advisory_is_rejected() {
    let a = alert_with(
        "Small Craft Advisory",
        Some("/O.NEW.KBOX.SC.Y.0123.260727T0700Z-260727T1900Z/"),
    );
    assert_eq!(filter().classify(&a), None);
}

#[test]
fn marine_and_advisory_products_are_rejected() {
    for (event, vtec) in [
        ("Heat Advisory", "/O.NEW.KOUN.HT.Y.0004.260727T1500Z-260728T0000Z/"),
        ("Gale Warning", "/O.NEW.KBOX.GL.W.0011.260727T0700Z-260727T1900Z/"),
        ("Rip Current Statement", "/O.NEW.KBOX.RP.S.0009.260727T0700Z-260727T1900Z/"),
        ("Beach Hazards Statement", "/O.NEW.KBOX.BH.S.0002.260727T0700Z-260727T1900Z/"),
    ] {
        let a = alert_with(event, Some(vtec));
        assert_eq!(filter().classify(&a), None, "{event} should be rejected");
    }
}

/// Heat kills more people in most US years than any other weather hazard,
/// so it is alerted despite this being a radar tool. Both the current
/// `XH.W` and the retired `EH.W` are covered because feeds carry both.
#[test]
fn extreme_heat_is_alerted_under_both_the_current_and_retired_code() {
    for vtec in [
        "/O.NEW.KOUN.XH.W.0002.260727T1500Z-260728T0000Z/",
        "/O.NEW.KOUN.EH.W.0002.260727T1500Z-260728T0000Z/",
    ] {
        let a = alert_with("Extreme Heat Warning", Some(vtec));
        assert_eq!(filter().classify(&a), Some(ThreatTier::Severe), "{vtec}");
    }
}

/// Cold kills indoors, in unheated houses, as heat does: a warning of extreme
/// cold must reach someone under either of its codes.
#[test]
fn extreme_cold_is_alerted_under_both_the_current_and_retired_code() {
    for (event, vtec, tier) in [
        ("Extreme Cold Warning", "/O.NEW.KOHX.EC.W.0001.260126T2359Z-260128T0600Z/",
         ThreatTier::Severe),
        ("Wind Chill Warning", "/O.NEW.KOHX.WC.W.0001.260126T2359Z-260128T0600Z/",
         ThreatTier::Severe),
        ("Extreme Cold Watch", "/O.NEW.KOHX.EC.A.0001.260126T2359Z-260128T0600Z/",
         ThreatTier::Watch),
        ("Wind Chill Watch", "/O.NEW.KOHX.WC.A.0001.260126T2359Z-260128T0600Z/",
         ThreatTier::Watch),
    ] {
        let a = alert_with(event, Some(vtec));
        assert_eq!(filter().classify(&a), Some(tier), "{event} {vtec}");
    }
}

/// The pairing is the invariant: whenever a temperature extreme is
/// alertable in one direction it must be alertable in the other, or the
/// list silently encodes a preference about which way people die.
#[test]
fn heat_and_cold_are_covered_symmetrically() {
    let alerts = Alerts::default();
    for (hot, cold) in [("XH.W", "EC.W"), ("EH.W", "WC.W")] {
        assert!(
            alerts.tiers.severe.iter().any(|s| s == hot)
                && alerts.tiers.severe.iter().any(|s| s == cold),
            "{hot} and {cold} must both be severe"
        );
    }
    assert!(
        alerts.tiers.watch.iter().any(|s| s == "XH.A")
            && alerts.tiers.watch.iter().any(|s| s == "EC.A"),
        "XH.A and EC.A must both be watch"
    );
}

#[test]
fn drowning_class_products_are_not_silently_discarded() {
    for (event, vtec, tier) in [
        ("Tsunami Warning", "/O.NEW.PAAQ.TS.W.0001.260727T0700Z-260727T1900Z/", ThreatTier::Lethal),
        ("Storm Surge Warning", "/O.NEW.KMFL.SS.W.0003.260727T0700Z-260727T1900Z/", ThreatTier::Lethal),
        ("Hurricane Warning", "/O.NEW.KMFL.HU.W.0002.260727T0700Z-260727T1900Z/", ThreatTier::Lethal),
        ("Flood Warning", "/O.NEW.KOHX.FL.W.0016.260727T0700Z-260727T1900Z/", ThreatTier::Severe),
        ("Flood Warning", "/O.NEW.KLWX.FA.W.0016.260727T0700Z-260727T1900Z/", ThreatTier::Severe),
    ] {
        let a = alert_with(event, Some(vtec));
        assert_eq!(filter().classify(&a), Some(tier), "{event} {vtec}");
    }
}

#[test]
fn a_warning_whose_vtec_will_not_parse_is_not_silently_dropped() {
    let broken = alert_with("Tornado Warning", Some("/O.NEW.KTLX.NOT-A-VTEC/"));
    assert!(broken.vtec_unparsed(), "fixture must actually fail to parse");
    assert_eq!(
        filter().classify(&broken),
        Some(ThreatTier::Severe),
        "a malformed code on a real warning must fail open, not vanish"
    );
}

#[test]
fn a_product_with_no_vtec_at_all_is_unaffected_by_the_fail_open_path() {
    let a = alert_with("Air Quality Alert", None);
    assert!(!a.vtec_unparsed());
    assert_eq!(filter().classify(&a), None);
}

#[test]
fn a_malformed_vtec_on_a_non_warning_product_still_rejects() {
    let a = alert_with(
        "Rip Current Statement",
        Some("/O.NEW.KBOX.RP.S.NOTANETN.260727T0700Z-260727T1900Z/"),
    );
    assert!(a.vtec_unparsed());
    assert_eq!(filter().classify(&a), None, "fail-open is scoped to Warning products");
}

#[test]
fn a_civil_emergency_without_any_vtec_still_classifies() {
    let a = alert_with("Evacuation Immediate", None);
    assert_eq!(filter().classify(&a), Some(ThreatTier::Lethal));
}

#[test]
fn a_vtec_product_in_no_tier_can_be_rescued_by_name() {
    let gale = "/O.NEW.KBOX.GL.W.0011.260727T0700Z-260727T1900Z/";
    assert_eq!(filter().classify(&alert_with("Gale Warning", Some(gale))), None);

    let mut alerts = Alerts::default();
    alerts.extra_events.push("Gale Warning".to_string());
    let rescued = Filter::from_config(&alerts);
    assert_eq!(
        rescued.classify(&alert_with("Gale Warning", Some(gale))),
        Some(ThreatTier::Severe),
        "extra_events must reach a product that carries a VTEC"
    );
}

#[test]
fn watches_classify_as_watch_tier() {
    let a = alert_with(
        "Tornado Watch",
        Some("/O.NEW.KWNS.TO.A.0455.260727T1800Z-260728T0200Z/"),
    );
    assert_eq!(filter().classify(&a), Some(ThreatTier::Watch));
}

#[test]
fn unknown_event_without_vtec_rejects_by_default() {
    let a = alert_with("Some Brand New NWS Product", None);
    assert_eq!(filter().classify(&a), None);
}

/// Test-class products raise no alarms.
#[test]
fn non_operational_vtec_is_rejected_even_for_tornado_warning() {
    let a = alert_with(
        "Tornado Warning",
        Some("/T.NEW.KTLX.TO.W.0012.260727T0700Z-260727T0730Z/"),
    );
    assert_eq!(filter().classify(&a), None);
}

#[test]
fn tiers_order_lethal_above_severe_above_watch() {
    assert!(ThreatTier::Lethal > ThreatTier::Severe);
    assert!(ThreatTier::Severe > ThreatTier::Watch);
}

#[test]
fn tier_words_are_those_of_the_summary() {
    assert_eq!(ThreatTier::Lethal.label(), "LETHAL");
    assert_eq!(ThreatTier::Severe.label(), "SEVERE");
    assert_eq!(ThreatTier::Watch.label(), "WATCH");
}

#[test]
fn the_gravest_tier_that_lists_a_key_wins() {
    let mut alerts = Alerts::default();
    alerts.tiers.watch.push("TO.W".to_string());
    let f = Filter::from_config(&alerts);
    assert_eq!(f.tier_of("TO.W"), Some(ThreatTier::Lethal));
    assert_eq!(f.tier_of("SV.A"), Some(ThreatTier::Watch));
    assert_eq!(f.tier_of("to.w"), None);
}
