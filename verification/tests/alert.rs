use weatui::alert::{
    features_skipping_malformed, point_in_ring, polygons_from_positions, rings_from_positions,
    Alert, AlertCollection, Feature, Geometry, ParamValue, Parameter, Properties, Ring,
};

fn ring_of(v: &serde_json::Value) -> Option<Vec<Vec<u64>>> {
    v.as_array()?
        .iter()
        .map(|p| p.as_array()?.iter().map(|n| n.as_f64().map(f64::to_bits)).collect())
        .collect()
}

fn geometry_of(v: &serde_json::Value) -> Option<Geometry> {
    let coords = &v["coordinates"];
    match v["type"].as_str()? {
        "Polygon" => {
            let raw: Option<Vec<_>> = coords.as_array()?.iter().map(ring_of).collect();
            Some(Geometry::Polygon { coordinates: rings_from_positions(&raw?) })
        }
        "MultiPolygon" => {
            let raw: Option<Vec<Vec<_>>> = coords
                .as_array()?
                .iter()
                .map(|p| p.as_array()?.iter().map(ring_of).collect::<Option<Vec<_>>>())
                .collect();
            Some(Geometry::MultiPolygon { coordinates: polygons_from_positions(&raw?) })
        }
        _ => Some(Geometry::Other),
    }
}

fn opt(v: &serde_json::Value) -> Option<String> {
    v.as_str().map(str::to_string)
}

fn feature_of(v: &serde_json::Value) -> Option<Feature> {
    let geometry = match &v["geometry"] {
        serde_json::Value::Null => None,
        g => Some(geometry_of(g)?),
    };
    let p = &v["properties"];
    let mut parameters = Vec::new();
    if let Some(map) = p["parameters"].as_object() {
        for (name, values) in map {
            let values = values
                .as_array()?
                .iter()
                .map(|x| match x.as_str() {
                    Some(s) => ParamValue::Text(s.to_string()),
                    None => ParamValue::Other,
                })
                .collect();
            parameters.push(Parameter { name: name.clone(), values });
        }
    }
    Some(Feature {
        geometry,
        properties: Properties {
            id: opt(&p["id"]),
            event: opt(&p["event"])?,
            certainty: opt(&p["certainty"]),
            headline: opt(&p["headline"]),
            instruction: opt(&p["instruction"]),
            area_desc: opt(&p["areaDesc"]),
            expires: opt(&p["expires"]),
            parameters,
        },
    })
}

fn collection(json: &str) -> Result<AlertCollection, String> {
    let v: serde_json::Value = serde_json::from_str(json).map_err(|e| e.to_string())?;
    let list = v["features"].as_array().ok_or("no features")?;
    features_skipping_malformed(list.iter().map(feature_of).collect())
        .map_err(|e| format!("all {} features failed", e.offered))
}

fn bits(points: &[[f64; 2]]) -> Ring {
    points.iter().map(|p| (p[0].to_bits(), p[1].to_bits())).collect()
}

/// Whether the point lies west of where each edge meets its latitude.
fn west_of(ring: &Ring, lat: f64, lon: f64) -> Vec<bool> {
    let at = |i: usize| (f64::from_bits(ring[i].0), f64::from_bits(ring[i].1));
    (0..ring.len())
        .map(|i| {
            let (xi, yi) = at(i);
            let (xj, yj) = at(if i == 0 { ring.len() - 1 } else { i - 1 });
            lon < (xj - xi) * (lat - yi) / (yj - yi) + xi
        })
        .collect()
}

fn inside_ring(ring: &Ring, lat: f64, lon: f64) -> bool {
    point_in_ring(ring, lat.to_bits(), &west_of(ring, lat, lon))
}

fn covers(alert: &Alert, lat: f64, lon: f64) -> bool {
    let west = match &alert.geometry {
        Some(g) => g.outer_rings().into_iter().map(|r| west_of(r, lat, lon)).collect(),
        None => Vec::new(),
    };
    alert.contains(lat.to_bits(), &west)
}

fn square() -> Ring {
    bits(&[
        [-98.0, 35.0],
        [-97.0, 35.0],
        [-97.0, 36.0],
        [-98.0, 36.0],
        [-98.0, 35.0],
    ])
}

#[test]
fn a_three_element_position_does_not_discard_the_batch() {
    let json = r#"{"features":[
        {"geometry":{"type":"Polygon","coordinates":[[[-98.0,35.0,120.0],[-97.0,35.0,118.0],[-97.0,36.0,130.0],[-98.0,35.0,120.0]]]},
         "properties":{"event":"Tornado Warning","parameters":{}}}
    ]}"#;
    let parsed = collection(json).expect("elevation must not be fatal");
    assert_eq!(parsed.features.len(), 1);
    let alert = Alert::from_feature(parsed.features.into_iter().next().unwrap());
    assert!(covers(&alert, 35.4, -97.6), "the polygon must survive with lon/lat intact");
}

#[test]
fn one_malformed_feature_does_not_lose_the_tornado_warning_beside_it() {
    let json = r#"{"features":[
        {"nonsense":true},
        {"geometry":null,"properties":{"event":"Tornado Warning","parameters":{}}}
    ]}"#;
    let parsed = collection(json).expect("batch must survive");
    assert_eq!(parsed.features.len(), 1, "the bad entry is skipped, not the good one");
    assert_eq!(parsed.features[0].properties.event, "Tornado Warning");
}

#[test]
fn a_batch_where_every_feature_fails_is_an_error_not_a_calm_day() {
    let json = r#"{"features":[{"nonsense":true},{"also":"broken"}]}"#;
    assert!(
        collection(json).is_err(),
        "an all-dropped batch would clear active alerts and still count as a good poll"
    );
    assert!(
        collection(r#"{"features":[]}"#).is_ok(),
        "a genuinely empty sky is still fine"
    );
}

#[test]
fn a_response_with_no_features_key_is_still_an_error() {
    assert!(collection(r#"{"status":502}"#).is_err());
}

#[test]
fn point_inside_polygon_is_detected() {
    assert!(inside_ring(&square(), 35.5, -97.5));
}

#[test]
fn points_outside_polygon_are_rejected() {
    assert!(!inside_ring(&square(), 34.0, -97.5));
    assert!(!inside_ring(&square(), 37.0, -97.5));
    assert!(!inside_ring(&square(), 35.5, -99.0));
    assert!(!inside_ring(&square(), 35.5, -96.0));
}

#[test]
fn degenerate_ring_is_not_containment() {
    assert!(!inside_ring(&bits(&[[-98.0, 35.0], [-97.0, 35.0]]), 35.5, -97.5));
    assert!(!inside_ring(&Vec::new(), 35.5, -97.5));
}

#[test]
fn parameters_with_non_string_values_do_not_abort_parsing() {
    let json = r#"{
        "features": [{
            "geometry": null,
            "properties": {
                "event": "Severe Thunderstorm Warning",
                "parameters": { "weird": [1, 2, 3], "VTEC": ["/O.NEW.KDLH.SV.W.0087.260727T0700Z-260727T0800Z/"] }
            }
        }]
    }"#;
    let parsed = collection(json).unwrap();
    let alert = Alert::from_feature(parsed.features.into_iter().next().unwrap());
    assert!(alert.properties.param("weird").is_empty());
    assert_eq!(alert.primary_vtec().unwrap().phenomenon_significance(), "SV.W");
}

/// Zone-based products carry no polygon and come only from a query for a
/// point, so they cover that point.
#[test]
fn a_zone_based_alert_with_no_polygon_still_covers_the_user() {
    let json = r#"{"features":[{"geometry":null,"properties":{"event":"X","parameters":{}}}]}"#;
    let parsed = collection(json).unwrap();
    let alert = Alert::from_feature(parsed.features.into_iter().next().unwrap());
    assert!(covers(&alert, 35.5, -97.5));
}

#[test]
fn polygon_geometry_drives_containment() {
    let json = r#"{
        "features": [{
            "geometry": {"type":"Polygon","coordinates":[[[-98.0,35.0],[-97.0,35.0],[-97.0,36.0],[-98.0,36.0],[-98.0,35.0]]]},
            "properties": {"event":"Severe Thunderstorm Warning","parameters":{}}
        }]
    }"#;
    let parsed = collection(json).unwrap();
    let alert = Alert::from_feature(parsed.features.into_iter().next().unwrap());
    assert!(covers(&alert, 35.5, -97.5));
    assert!(!covers(&alert, 40.0, -97.5));
}

#[test]
fn holes_are_not_boundaries_and_every_polygon_has_its_own() {
    let json = r#"{"features":[{
        "geometry":{"type":"MultiPolygon","coordinates":[
            [[[0.0,0.0],[4.0,0.0],[4.0,4.0],[0.0,4.0]],[[1.0,1.0],[2.0,1.0],[2.0,2.0]]],
            [],
            [[[10.0,0.0],[14.0,0.0],[14.0,4.0],[10.0,4.0]]]
        ]},
        "properties":{"event":"X","parameters":{}}}]}"#;
    let alert = Alert::from_feature(collection(json).unwrap().features.remove(0));
    assert_eq!(alert.geometry.as_ref().unwrap().outer_rings().len(), 2);
    assert!(covers(&alert, 1.5, 1.5), "a point in a hole is still within the outer ring");
    assert!(covers(&alert, 2.0, 12.0));
    assert!(!covers(&alert, 2.0, 7.0));
}

#[test]
fn other_geometry_covers_nothing() {
    let json = r#"{"features":[{"geometry":{"type":"Point","coordinates":[1.0,2.0]},
        "properties":{"event":"X","parameters":{}}}]}"#;
    let alert = Alert::from_feature(collection(json).unwrap().features.remove(0));
    assert!(matches!(alert.geometry, Some(Geometry::Other)));
    assert!(!covers(&alert, 2.0, 1.0));
}

#[test]
fn the_first_text_of_a_parameter_is_the_one_that_counts() {
    let json = r#"{"features":[{"geometry":null,"properties":{"event":"X","parameters":{
        "maxWindGust":[7,"70 MPH","80 MPH"],"maxHailSize":["1.00"],"damageThreat":[],
        "eventMotionDescription":["a...b"],"tornadoDetection":["OBSERVED"]}}}]}"#;
    let alert = Alert::from_feature(collection(json).unwrap().features.remove(0));
    assert_eq!(alert.properties.param("maxWindGust"), vec!["70 MPH", "80 MPH"]);
    assert_eq!(alert.max_wind_gust().as_deref(), Some("70 MPH"));
    assert_eq!(alert.max_hail_size().as_deref(), Some("1.00"));
    assert_eq!(alert.damage_threat(), None);
    assert_eq!(alert.motion_text().as_deref(), Some("a...b"));
    assert_eq!(alert.tornado_detection().as_deref(), Some("OBSERVED"));
}

#[test]
fn the_operative_code_is_the_first_that_goes_on() {
    let json = r#"{"features":[{"geometry":null,"properties":{"event":"X","parameters":{
        "VTEC":["/O.CAN.KTLX.SV.W.0007.a-b/","/O.NEW.KTLX.TO.W.0012.a-b/"]}}}]}"#;
    let alert = Alert::from_feature(collection(json).unwrap().features.remove(0));
    assert_eq!(alert.primary_vtec().unwrap().etn, 12);
    let only = r#"{"features":[{"geometry":null,"properties":{"event":"X","parameters":{
        "VTEC":["/O.CAN.KTLX.SV.W.0007.a-b/","/O.EXP.KTLX.TO.W.0012.a-b/"]}}}]}"#;
    let ended = Alert::from_feature(collection(only).unwrap().features.remove(0));
    assert_eq!(ended.primary_vtec().unwrap().etn, 7);
}
