use weatui::geo::{
    compass_16, coords_for_zip, nearest_radar_site, parse_table, radar_site_by_id, resolve_site, unassigned_zip,
    SiteError, ZipError,
};

fn keys() -> Vec<String> {
    ["00601", "73019", "99929"].iter().map(|s| s.to_string()).collect()
}

fn sites() -> Vec<String> {
    ["KABR", "KTLX", "KFWS"].iter().map(|s| s.to_string()).collect()
}

fn sector(deg: f64) -> u64 {
    (((deg % 360.0) + 360.0) % 360.0 / 22.5).round() as u64
}

#[test]
fn malformed_zip_is_an_error_not_a_panic() {
    for bad in ["", "7301", "730190", "abcde", "7301a"] {
        assert_eq!(coords_for_zip(&keys(), bad), Err(ZipError::Malformed), "{bad:?}");
    }
}

#[test]
fn unassigned_zip_suggests_explicit_coordinates() {
    assert_eq!(coords_for_zip(&keys(), "00000"), Err(ZipError::Unassigned));
    let err = unassigned_zip("00000");
    assert!(err.contains("lat"), "got: {err}");
}

#[test]
fn zip_lookup_matches_census_gazetteer() {
    let rows = parse_table("00601,18.18,-66.75\n73019,35.205661,-97.442738\n");
    let keys: Vec<String> = rows.iter().map(|r| r.key.clone()).collect();
    let row = &rows[coords_for_zip(&keys, "73019").unwrap()];
    assert!((row.lat.parse::<f64>().unwrap() - 35.205661).abs() < 1e-6);
    assert!((row.lon.parse::<f64>().unwrap() - (-97.442738)).abs() < 1e-6);
}

#[test]
fn nearest_radar_to_norman_is_the_oklahoma_city_site() {
    let far: Vec<u64> = [1160.4_f64, 27.9, 290.1].iter().map(|d| d.to_bits()).collect();
    assert_eq!(sites()[nearest_radar_site(&far).unwrap()], "KTLX");
    let even: Vec<u64> = [2.0_f64, 1.0, 1.0].iter().map(|d| d.to_bits()).collect();
    assert_eq!(nearest_radar_site(&even), Some(1));
    assert_eq!(nearest_radar_site(&Vec::new()), None);
}

#[test]
fn radar_site_lookup_is_case_insensitive() {
    let at = radar_site_by_id(&sites(), "ktlx").unwrap();
    assert_eq!(sites()[at], "KTLX");
    assert!(radar_site_by_id(&sites(), "ZZZZ").is_none());
}

#[test]
fn compass_names_all_sixteen_sectors() {
    assert_eq!(compass_16(sector(0.0)), "N");
    assert_eq!(compass_16(sector(22.5)), "NNE");
    assert_eq!(compass_16(sector(90.0)), "E");
    assert_eq!(compass_16(sector(225.0)), "SW");
    assert_eq!(compass_16(sector(340.0)), "NNW");
    assert_eq!(compass_16(sector(359.9)), "N");
    assert_eq!(compass_16(sector(-90.0)), "W");
}

#[test]
fn a_zip_may_stand_between_spaces() {
    assert_eq!(coords_for_zip(&keys(), " 73019\n"), Ok(1));
}

#[test]
fn rows_that_lack_a_field_are_left_out() {
    let rows = parse_table("A,1,2\n\nB,3\nC,4,5,6\n");
    let seen: Vec<(&str, &str, &str)> =
        rows.iter().map(|r| (r.key.as_str(), r.lat.as_str(), r.lon.as_str())).collect();
    assert_eq!(seen[0], ("A", "1", "2"));
    assert!(seen.iter().all(|r| r.0 != "B"));
}

#[test]
fn the_nearest_site_is_taken_unless_one_is_named() {
    let far: Vec<u64> = [300.0_f64, 20.0, 250.0].iter().map(|d| d.to_bits()).collect();
    assert_eq!(resolve_site("auto", &sites(), &far), Ok(1));
    assert_eq!(resolve_site("AUTO", &sites(), &far), Ok(1));
    assert_eq!(resolve_site("kfws", &sites(), &far), Ok(2));
    assert_eq!(resolve_site("ZZZZ", &sites(), &far), Err(SiteError::Unknown));
    assert_eq!(resolve_site("auto", &Vec::new(), &Vec::new()), Err(SiteError::NoSite));
}
