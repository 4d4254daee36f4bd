use weatui::radar::interp::{estimate_shift, SHIFT_SEARCH};

const SHIFT_GRID_STEP: f64 = 0.0625;
const SHIFT_GRID_N: i64 = 24;
const CENTRE: (f64, f64) = (36.0, -87.0);
const EARTH_RADIUS_KM: f64 = 6371.0088;

fn haversine_km(a: (f64, f64), b: (f64, f64)) -> f64 {
    let (lat1, lat2) = (a.0.to_radians(), b.0.to_radians());
    let (dlat, dlon) = ((b.0 - a.0).to_radians(), (b.1 - a.1).to_radians());
    let h = (dlat / 2.0).sin().powi(2) + lat1.cos() * lat2.cos() * (dlon / 2.0).sin().powi(2);
    2.0 * EARTH_RADIUS_KM * h.sqrt().asin()
}

/// The reading of a disk of 45 dBZ at a point of the grid.
fn sample(disk: (f64, f64), ix: i64, iy: i64) -> f32 {
    let at = (
        CENTRE.0 + iy as f64 * SHIFT_GRID_STEP,
        CENTRE.1 + ix as f64 * SHIFT_GRID_STEP,
    );
    if haversine_km(disk, at) <= 25.0 { 45.0 } else { 0.0 }
}

fn shift(before: (f64, f64), after: (f64, f64)) -> (f64, f64) {
    let mut scores = Vec::new();
    for dy in -SHIFT_SEARCH..=SHIFT_SEARCH {
        for dx in -SHIFT_SEARCH..=SHIFT_SEARCH {
            let mut score = 0.0_f64;
            for iy in -SHIFT_GRID_N..=SHIFT_GRID_N {
                for ix in -SHIFT_GRID_N..=SHIFT_GRID_N {
                    score +=
                        (sample(before, ix, iy) * sample(after, ix + dx, iy + dy)) as f64;
                }
            }
            scores.push(score.to_bits());
        }
    }
    let (east, north) = estimate_shift(&scores);
    (north as f64 * SHIFT_GRID_STEP, east as f64 * SHIFT_GRID_STEP)
}

#[test]
fn a_known_displacement_is_recovered() {
    let (dlat, dlon) = shift((36.0, -87.0), (36.25, -86.75));
    assert!((dlat - 0.25).abs() <= SHIFT_GRID_STEP, "dlat {dlat}");
    assert!((dlon - 0.25).abs() <= SHIFT_GRID_STEP, "dlon {dlon}");
}

#[test]
fn empty_fields_yield_no_motion() {
    assert_eq!(shift((50.0, -70.0), (50.0, -70.0)), (0.0, 0.0));
}

#[test]
fn the_first_of_equal_overlaps_is_taken() {
    let mut scores = vec![0_u64; 289];
    scores[17 * 8 + 9] = 2.0_f64.to_bits();
    scores[17 * 9 + 9] = 2.0_f64.to_bits();
    scores[3] = (-5.0_f64).to_bits();
    assert_eq!(estimate_shift(&scores), (1, 0));
}
