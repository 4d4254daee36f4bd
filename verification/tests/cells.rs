use weatui::geo::{compass_16, Coords};
use weatui::radar::cells::{
    approach, classify, hazards, motion_from, rank, scan as describe_cells, storm_regions,
    strongest_couplet, survey, CellStats, CellThreat, Course, Drift, Hazard, Member, Sighting, Span,
    StormCell, CELL_MIN_DBZ, MAX_CELLS,
};
use weatui::radar::track::{CellTracker, Fix, PairReading};
use weatui::radar::RadarProduct;
use weatui::time::Stamp;

const STEP_DEG: f64 = 0.02;
const HALF_EXTENT_DEG: f64 = 2.2;
const EARTH_RADIUS_KM: f64 = 6371.0088;

#[derive(Clone, Copy, Debug)]
struct Place {
    lat: f64,
    lon: f64,
}

fn bits(v: f32) -> u32 {
    v.to_bits()
}

fn wide(v: f32) -> Option<u32> {
    Some(v.to_bits())
}

fn coords(p: Place) -> Coords {
    Coords { lat: p.lat.to_bits(), lon: p.lon.to_bits() }
}

fn place(c: Coords) -> Place {
    Place { lat: f64::from_bits(c.lat), lon: f64::from_bits(c.lon) }
}

fn haversine_km(a: Place, b: Place) -> f64 {
    let (lat1, lat2) = (a.lat.to_radians(), b.lat.to_radians());
    let (dlat, dlon) = ((b.lat - a.lat).to_radians(), (b.lon - a.lon).to_radians());
    let h = (dlat / 2.0).sin().powi(2) + lat1.cos() * lat2.cos() * (dlon / 2.0).sin().powi(2);
    2.0 * EARTH_RADIUS_KM * h.sqrt().asin()
}

fn bearing_deg(a: Place, b: Place) -> f64 {
    let (lat1, lat2) = (a.lat.to_radians(), b.lat.to_radians());
    let dlon = (b.lon - a.lon).to_radians();
    let y = dlon.sin() * lat2.cos();
    let x = lat1.cos() * lat2.sin() - lat1.sin() * lat2.cos() * dlon.cos();
    y.atan2(x).to_degrees().rem_euclid(360.0)
}

fn angular_difference_deg(a: f64, b: f64) -> f64 {
    let d = (a - b).rem_euclid(360.0);
    if d > 180.0 { 360.0 - d } else { d }
}

fn offset_km(p: Place, east: f64, north: f64) -> Place {
    let deg = std::f64::consts::PI * EARTH_RADIUS_KM / 180.0;
    Place { lat: p.lat + north / deg, lon: p.lon + east / (deg * p.lat.to_radians().cos()) }
}

fn displacement_km(from: Place, to: Place) -> (f64, f64) {
    let d = haversine_km(from, to);
    let b = bearing_deg(from, to).to_radians();
    (d * b.sin(), d * b.cos())
}

trait Field {
    fn value_at(&self, p: Place, product: RadarProduct) -> Option<f32>;
}

struct FnField<F: Fn(Place, RadarProduct) -> Option<f32>>(F);

impl<F: Fn(Place, RadarProduct) -> Option<f32>> Field for FnField<F> {
    fn value_at(&self, p: Place, product: RadarProduct) -> Option<f32> {
        (self.0)(p, product)
    }
}

const SITE: Place = Place { lat: 36.0, lon: -87.0 };
const HOME: Place = Place { lat: 35.75, lon: -87.0 };

fn disk(centre: Place, radius_km: f64, p: Place) -> bool {
    haversine_km(centre, p) <= radius_km
}

/// Samples the field on a lattice around the site and lets the library find the cells.
fn detect(field: &dyn Field, site: Place, home: Place) -> Vec<StormCell> {
    let n = (2.0 * HALF_EXTENT_DEG / STEP_DEG) as usize + 1;
    let at = |ix: usize, iy: usize| Place {
        lat: site.lat - HALF_EXTENT_DEG + iy as f64 * STEP_DEG,
        lon: site.lon - HALF_EXTENT_DEG + ix as f64 * STEP_DEG,
    };
    let dbz: Vec<Option<u32>> = (0..n * n)
        .map(|i| field.value_at(at(i % n, i / n), RadarProduct::Reflectivity).map(bits))
        .collect();
    let mut sightings = Vec::new();
    for region in storm_regions(&dbz, n) {
        let speed = |ix: i64, iy: i64| {
            if ix < 0 || iy < 0 || !region.contains(&(iy as usize * n + ix as usize)) {
                return None;
            }
            field.value_at(at(ix as usize, iy as usize), RadarProduct::Velocity)
        };
        let (mut weight, mut wlat, mut wlon) = (0.0, 0.0, 0.0);
        let (mut core, mut clat, mut clon) = (0.0, 0.0, 0.0);
        let mut members = Vec::new();
        for &i in &region {
            let p = at(i % n, i / n);
            let z = f32::from_bits(dbz[i].unwrap()) as f64;
            weight += z;
            wlat += z * p.lat;
            wlon += z * p.lon;
            if z >= 50.0 {
                core += z;
                clat += z * p.lat;
                clon += z * p.lon;
            }
            let (ix, iy) = ((i % n) as i64, (i / n) as i64);
            let velocity = speed(ix, iy);
            let mut spans = Vec::new();
            if let Some(va) = velocity {
                for dy in -3..=3 {
                    for dx in -3..=3 {
                        if let Some(vb) = speed(ix + dx, iy + dy) {
                            spans.push(Span { dx, dy, value: bits((va - vb).abs()) });
                        }
                    }
                }
            }
            let read = |product| field.value_at(p, product).map(bits);
            members.push(Member {
                ix,
                iy,
                dbz: dbz[i].unwrap(),
                velocity: velocity.map(bits),
                resolvable: haversine_km(site, p) <= 150.0,
                spans,
                cc: read(RadarProduct::CorrelationCoefficient),
                vil: read(RadarProduct::VerticallyIntegratedLiquid),
                echo_top: read(RadarProduct::EchoTop),
            });
        }
        let centroid = Place { lat: wlat / weight, lon: wlon / weight };
        sightings.push(Sighting {
            members,
            centroid: coords(centroid),
            core_weight: core.to_bits(),
            core_centre: coords(Place { lat: clat / core, lon: clon / core }),
            distance_km: haversine_km(home, centroid).to_bits(),
            bearing: compass_16((bearing_deg(home, centroid) / 22.5).round() as u64),
        });
    }
    describe_cells(&sightings)
}

#[derive(Clone, Copy, PartialEq, Debug)]
struct Motion {
    heading_deg: f64,
    speed_kmh: f64,
}

#[derive(Clone, Copy, PartialEq, Debug)]
struct Arrival {
    minutes: f64,
    distance_km: f64,
}

struct Seen {
    id: u32,
    centroid: Place,
    max_dbz: f32,
    rotation_ms: Option<f32>,
    min_cc: Option<f32>,
    distance_km: f64,
    bearing: &'static str,
    threat: CellThreat,
    motion: Option<Motion>,
    approach: Option<Arrival>,
}

/// A motion of a cell at a place, as it bears on home.
fn course(at: Place, (vx, vy): (f64, f64), home: Place) -> Course {
    let speed_sq = vx * vx + vy * vy;
    let (rx, ry) = displacement_km(at, home);
    let hours = (rx * vx + ry * vy) / speed_sq;
    Course {
        velocity: Drift { east: vx.to_bits(), north: vy.to_bits() },
        heading_deg: vx.atan2(vy).to_degrees().rem_euclid(360.0).to_bits(),
        speed_kmh: vx.hypot(vy).to_bits(),
        speed_squared: speed_sq.to_bits(),
        minutes: (hours * 60.0).to_bits(),
        distance_km: (rx - vx * hours).hypot(ry - vy * hours).to_bits(),
    }
}

fn seen(c: &StormCell) -> Seen {
    Seen {
        id: c.id,
        centroid: place(c.centroid),
        max_dbz: f32::from_bits(c.max_dbz),
        rotation_ms: c.rotation_ms.map(f32::from_bits),
        min_cc: c.min_cc.map(f32::from_bits),
        distance_km: f64::from_bits(c.distance_km),
        bearing: c.bearing,
        threat: c.threat,
        motion: c.motion.map(|m| Motion {
            heading_deg: f64::from_bits(m.heading_deg),
            speed_kmh: f64::from_bits(m.speed_kmh),
        }),
        approach: c.approach.map(|a| Arrival {
            minutes: f64::from_bits(a.minutes),
            distance_km: f64::from_bits(a.distance_km),
        }),
    }
}

fn scan(field: &dyn Field, site: Place, home: Place) -> Vec<Seen> {
    detect(field, site, home).iter().map(seen).collect()
}

#[derive(Default)]
struct Tracker(CellTracker);

impl Tracker {
    fn track(&mut self, cells: Vec<StormCell>, at: Stamp, home: Place) -> Vec<Seen> {
        let tracks: Vec<Fix> = self.0.tracks(at);
        let gap_ms = self.0.last_at.map_or(0, |p| at.millis_since(&p));
        let hours = gap_ms as f64 / 3_600_000.0;
        let reach = 120.0 * hours + 6.0;
        let readings: Vec<Vec<PairReading>> = cells
            .iter()
            .map(|cell| {
                let here = place(cell.track_point);
                tracks
                    .iter()
                    .map(|t| {
                        let was = place(t.centroid);
                        let drift =
                            t.velocity.map(|v| (f64::from_bits(v.east), f64::from_bits(v.north)));
                        let expected = match drift {
                            Some((e, n)) => offset_km(was, e * hours, n * hours),
                            None => was,
                        };
                        let (e, n) = displacement_km(was, here);
                        let fresh = (e / hours, n / hours);
                        let blended = match drift {
                            Some((pe, pn)) => {
                                (pe + (fresh.0 - pe) * 0.5, pn + (fresh.1 - pn) * 0.5)
                            }
                            None => fresh,
                        };
                        PairReading {
                            distance_km: haversine_km(expected, here).to_bits(),
                            speed_kmh: fresh.0.hypot(fresh.1).to_bits(),
                            kept: drift.map(|d| course(here, d, home)),
                            blended: course(here, blended, home),
                        }
                    })
                    .collect()
            })
            .collect();
        let followed = self.0.track(cells, at, reach.to_bits(), &readings);
        followed.iter().map(seen).collect()
    }
}

#[test]
fn two_separate_cores_become_two_ranked_cells() {
    let a = Place { lat: 36.25, lon: -87.3 };
    let b = Place { lat: 35.6, lon: -86.6 };
    let field = FnField(move |p, product| match product {
        RadarProduct::Reflectivity if disk(a, 12.0, p) => Some(48.0),
        RadarProduct::Reflectivity if disk(b, 12.0, p) => Some(58.0),
        _ => None,
    });
    let cells = scan(&field, SITE, HOME);
    assert_eq!(cells.len(), 2);
    assert_eq!(cells[0].threat, CellThreat::Intense, "58 dBZ core must rank first");
    assert_eq!(cells[1].threat, CellThreat::Strong);
    assert!(
        haversine_km(cells[0].centroid, b) < 5.0,
        "centroid should land on the core"
    );
}

#[test]
fn weak_echo_and_speckle_are_not_cells() {
    let c = Place { lat: 36.2, lon: -87.2 };
    let weak = FnField(move |p, product| match product {
        RadarProduct::Reflectivity if disk(c, 15.0, p) => Some(35.0),
        _ => None,
    });
    assert!(scan(&weak, SITE, HOME).is_empty(), "35 dBZ is not convective");

    let speck = FnField(move |p, product| match product {
        RadarProduct::Reflectivity if disk(c, 1.5, p) => Some(60.0),
        _ => None,
    });
    assert!(scan(&speck, SITE, HOME).is_empty(), "one hot sample is speckle");
}

/// A couplet is inbound on one flank, outbound on the other. The scan must
/// combine both signs into a span rather than taking a single maximum.
#[test]
fn a_velocity_couplet_upgrades_the_cell_to_rotation() {
    let c = Place { lat: 36.3, lon: -87.0 };
    let field = FnField(move |p, product| match product {
        RadarProduct::Reflectivity if disk(c, 10.0, p) => Some(50.0),
        RadarProduct::Velocity if disk(c, 10.0, p) => {
            Some(if p.lon > c.lon { 24.0 } else { -24.0 })
        }
        RadarProduct::CorrelationCoefficient if disk(c, 10.0, p) => Some(0.97),
        _ => None,
    });
    let cells = scan(&field, SITE, HOME);
    assert_eq!(cells.len(), 1);
    assert_eq!(cells[0].threat, CellThreat::Rotation);
    assert!((cells[0].rotation_ms.unwrap() - 48.0).abs() < 0.1);
}

#[test]
fn a_correlation_collapse_inside_rotation_is_debris() {
    let c = Place { lat: 36.3, lon: -87.0 };
    let field = FnField(move |p, product| match product {
        RadarProduct::Reflectivity if disk(c, 10.0, p) => Some(52.0),
        RadarProduct::Velocity if disk(c, 10.0, p) => {
            Some(if p.lon > c.lon { 15.0 } else { -15.0 })
        }
        RadarProduct::CorrelationCoefficient if disk(c, 3.0, p) => Some(0.70),
        RadarProduct::CorrelationCoefficient if disk(c, 10.0, p) => Some(0.97),
        _ => None,
    });
    let cells = scan(&field, SITE, HOME);
    assert_eq!(cells[0].threat, CellThreat::Debris);
}

/// A uniform 20 m/s flow across a 200 km line reads inbound at one end
/// and outbound at the other from pure viewing geometry. Cluster-wide
/// extreme pairing would call that rotation; local pairing must not.
#[test]
fn a_squall_lines_opposite_ends_are_not_rotation() {
    let field = FnField(move |p, product| {
        let in_band = (p.lat - 36.3).abs() < 0.06 && (p.lon + 87.0).abs() < 1.5;
        match product {
            RadarProduct::Reflectivity if in_band => Some(46.0),
            RadarProduct::Velocity if in_band => Some((20.0 * (p.lon + 87.0) / 1.5) as f32),
            RadarProduct::CorrelationCoefficient if in_band => Some(0.97),
            _ => None,
        }
    });
    let cells = scan(&field, SITE, HOME);
    assert_eq!(cells.len(), 1);
    assert_eq!(
        cells[0].threat,
        CellThreat::Strong,
        "a smooth cross-line gradient is geometry, not a couplet: {:?}",
        cells[0].rotation_ms
    );
}

/// Storm motion is not subtracted from radial velocity, so a mesocyclone
/// in strong flow can be all-inbound. Sign-free local shear must still
/// register it, though no sample has the opposite sign.
#[test]
fn an_embedded_all_inbound_mesocyclone_still_registers() {
    let c = Place { lat: 36.3, lon: -87.0 };
    let field = FnField(move |p, product| match product {
        RadarProduct::Reflectivity if disk(c, 10.0, p) => Some(50.0),
        RadarProduct::Velocity if disk(c, 10.0, p) => {
            Some(if disk(c, 4.0, p) && p.lon > c.lon { -47.0 } else { -5.0 })
        }
        RadarProduct::CorrelationCoefficient if disk(c, 10.0, p) => Some(0.97),
        _ => None,
    });
    let cells = scan(&field, SITE, HOME);
    assert_eq!(cells[0].threat, CellThreat::Rotation);
    assert!((cells[0].rotation_ms.unwrap() - 42.0).abs() < 0.1);
}

/// Hail cores run CC 0.7-0.9. One of those on the far side of the same
/// cluster must not upgrade a couplet to a debris signature.
#[test]
fn a_distant_correlation_dip_does_not_make_debris() {
    let couplet = Place { lat: 36.3, lon: -87.3 };
    let hail = Place { lat: 36.3, lon: -86.7 };
    let field = FnField(move |p, product| {
        let in_band = (p.lat - 36.3).abs() < 0.06 && (-87.35..=-86.65).contains(&p.lon);
        match product {
            RadarProduct::Reflectivity if in_band => Some(52.0),
            RadarProduct::Velocity if in_band => {
                Some(if disk(couplet, 3.0, p) { 30.0 } else { -15.0 })
            }
            RadarProduct::CorrelationCoefficient if disk(hail, 4.0, p) => Some(0.75),
            RadarProduct::CorrelationCoefficient if in_band => Some(0.97),
            _ => None,
        }
    });
    let cells = scan(&field, SITE, HOME);
    assert_eq!(cells.len(), 1);
    assert_eq!(
        cells[0].threat,
        CellThreat::Rotation,
        "the collapse is 50 km from the couplet; min_cc={:?}",
        cells[0].min_cc
    );
}

#[test]
fn a_mesocyclone_below_the_old_bar_still_counts_as_rotation() {
    let base = CellStats {
        max_dbz: bits(55.0),
        rotation_ms: None,
        min_cc: wide(0.97),
        max_vil: None,
        max_echo_top_km: None,
    };

    for span in [25.0_f32, 30.0, 35.0, 39.0] {
        let s = CellStats { rotation_ms: wide(span), ..base };
        assert_eq!(
            classify(&s),
            CellThreat::Rotation,
            "{span} m/s of shear must not read as a plain intense cell"
        );
        assert!(
            hazards(classify(&s), None, None).contains(&Hazard::Tornado),
            "{span} m/s must earn a tornado hazard letter"
        );
    }

    let quiet = CellStats { rotation_ms: wide(20.0), ..base };
    assert_eq!(classify(&quiet), CellThreat::Intense, "below the bar stays intense");
}

#[test]
fn debris_still_outranks_bare_rotation_at_the_same_span() {
    let rotating = CellStats {
        max_dbz: bits(55.0),
        rotation_ms: wide(30.0),
        min_cc: wide(0.97),
        max_vil: None,
        max_echo_top_km: None,
    };
    let debris = CellStats { min_cc: wide(0.70), ..rotating };
    assert_eq!(classify(&rotating), CellThreat::Rotation);
    assert_eq!(classify(&debris), CellThreat::Debris);
    assert!(CellThreat::Debris > CellThreat::Rotation);
}

#[test]
fn the_nearest_cell_survives_truncation_in_an_outbreak() {
    let field = FnField(move |p, product| match product {
        RadarProduct::Reflectivity => {
            let near_home = disk(Place { lat: 35.85, lon: -87.0 }, 5.0, p);
            if near_home {
                return Some(41.0);
            }
            for k in 0..9 {
                let c = Place { lat: 36.05, lon: -87.55 + k as f64 * 0.1375 };
                if disk(c, 4.0, p) {
                    return Some(60.0);
                }
            }
            None
        }
        _ => None,
    });
    let cells = scan(&field, SITE, HOME);
    let nearest = cells
        .iter()
        .min_by(|a, b| a.distance_km.total_cmp(&b.distance_km))
        .unwrap();
    assert!(
        nearest.distance_km < 20.0,
        "the weak cell beside home must not be truncated away"
    );

    assert_eq!(
        cells.len(),
        MAX_CELLS + 1,
        "rescuing the nearest cell appends it; it must not cost a ranked cell, \
         which in an outbreak can be a rotating one"
    );
    assert_eq!(
        cells.iter().filter(|c| c.max_dbz >= 60.0).count(),
        MAX_CELLS,
        "all eight ranked cells survive alongside the rescued one"
    );
}

/// A personal alerting tool has no business listing a storm 200 km away.
#[test]
fn cells_beyond_seventy_five_km_of_home_are_not_listed() {
    let far = Place { lat: 36.9, lon: -87.0 };
    let field = FnField(move |p, product| match product {
        RadarProduct::Reflectivity if disk(far, 12.0, p) => Some(62.0),
        _ => None,
    });
    assert!(
        scan(&field, SITE, HOME).is_empty(),
        "a 62 dBZ core 128 km away is not this user's problem yet"
    );
}

/// The beam cannot resolve a couplet at long range; a strong local shear
/// pair found out there is an artifact and must not be called rotation.
#[test]
fn shear_beyond_beam_resolution_range_is_not_rotation() {
    let far = Place { lat: SITE.lat + 2.0, lon: SITE.lon };
    let near = Place { lat: SITE.lat + 0.7, lon: SITE.lon };
    let couplet = move |c: Place| {
        FnField(move |p: Place, product| match product {
            RadarProduct::Reflectivity if disk(c, 10.0, p) => Some(50.0),
            RadarProduct::Velocity if disk(c, 10.0, p) => {
                Some(if p.lon > c.lon { 24.0 } else { -24.0 })
            }
            RadarProduct::CorrelationCoefficient if disk(c, 10.0, p) => Some(0.97),
            _ => None,
        })
    };

    let far_home = Place { lat: SITE.lat + 1.6, lon: SITE.lon };
    let far_cells = scan(&couplet(far), SITE, far_home);
    assert_eq!(far_cells.len(), 1);
    assert_eq!(
        far_cells[0].threat,
        CellThreat::Strong,
        "a 220 km couplet is beam artifact, rotation_ms={:?}",
        far_cells[0].rotation_ms
    );
    assert_eq!(far_cells[0].rotation_ms, None);

    let near_cells = scan(&couplet(near), SITE, Place { lat: SITE.lat + 0.3, lon: SITE.lon });
    assert_eq!(
        near_cells[0].threat,
        CellThreat::Rotation,
        "the same couplet at 78 km is resolvable and must still register"
    );
}

fn at_minute(m: i64) -> Stamp {
    Stamp { secs: m * 60, nanos: 0 }
}

fn core_at(c: Place) -> impl Field {
    FnField(move |p, product| match product {
        RadarProduct::Reflectivity if disk(c, 10.0, p) => Some(50.0),
        _ => None,
    })
}

#[test]
fn a_core_keeps_its_identity_and_gains_a_measured_motion() {
    let mut tracker = Tracker::default();
    let start = Place { lat: 36.1, lon: -87.2 };
    let first = tracker.track(detect(&core_at(start), SITE, HOME), at_minute(0), HOME);
    assert_eq!(first.len(), 1);
    assert!(first[0].motion.is_none(), "one fix cannot show a motion");

    let moved = Place { lat: start.lat, lon: start.lon + 0.05 };
    let second = tracker.track(detect(&core_at(moved), SITE, HOME), at_minute(5), HOME);
    assert_eq!(second[0].id, first[0].id, "the same storm must keep its id");
    let m = second[0].motion.expect("two fixes measure a motion");
    assert!(
        angular_difference_deg(m.heading_deg, 90.0) < 15.0,
        "the core moved due east, heading reads {}",
        m.heading_deg
    );
    assert!((m.speed_kmh - 54.0).abs() < 15.0, "{}", m.speed_kmh);
}

/// Ranking is rebuilt every volume. Identity must survive that, or a
/// selection silently slides onto a different storm.
#[test]
fn a_ranking_change_does_not_move_an_identity_to_another_storm() {
    let west = Place { lat: 36.1, lon: -87.3 };
    let east = Place { lat: 36.1, lon: -86.7 };
    let pair = |west_dbz: f32, east_dbz: f32| {
        FnField(move |p, product| match product {
            RadarProduct::Reflectivity if disk(west, 10.0, p) => Some(west_dbz),
            RadarProduct::Reflectivity if disk(east, 10.0, p) => Some(east_dbz),
            _ => None,
        })
    };
    let westward = |c: &&Seen| c.centroid.lon < -87.0;
    let eastward = |c: &&Seen| c.centroid.lon > -87.0;

    let mut tracker = Tracker::default();
    let first = tracker.track(detect(&pair(58.0, 45.0), SITE, HOME), at_minute(0), HOME);
    assert_eq!(first.len(), 2);
    let west_id = first.iter().find(westward).unwrap().id;
    let east_id = first.iter().find(eastward).unwrap().id;
    assert_ne!(west_id, east_id);

    let second = tracker.track(detect(&pair(45.0, 58.0), SITE, HOME), at_minute(5), HOME);
    assert_eq!(second.iter().find(westward).unwrap().id, west_id);
    assert_eq!(second.iter().find(eastward).unwrap().id, east_id);
    assert_ne!(first[0].id, second[0].id, "the top row is now a different storm");
}

#[test]
fn a_jump_no_storm_could_make_starts_a_new_track() {
    let mut tracker = Tracker::default();
    let first =
        tracker.track(detect(&core_at(Place { lat: 36.1, lon: -87.3 }), SITE, HOME),
            at_minute(0), HOME);
    // Half a degree of longitude in five minutes is over 500 km/h.
    let second =
        tracker.track(detect(&core_at(Place { lat: 36.1, lon: -86.8 }), SITE, HOME),
            at_minute(5), HOME);
    assert_ne!(second[0].id, first[0].id);
    assert!(second[0].motion.is_none(), "a fresh track has nothing to measure from");
}

/// Position alone does not prove identity. After a long outage the core
/// sitting where the old one was may be an entirely different storm.
#[test]
fn a_long_silence_breaks_the_track_even_where_nothing_moved() {
    let c = Place { lat: 36.1, lon: -87.2 };
    let mut tracker = Tracker::default();
    let first = tracker.track(detect(&core_at(c), SITE, HOME), at_minute(0), HOME);
    let second = tracker.track(detect(&core_at(c), SITE, HOME), at_minute(45), HOME);
    assert_ne!(second[0].id, first[0].id);
}

#[test]
fn approach_times_a_closing_storm_and_ignores_a_departing_one() {
    let far = Place { lat: 36.30, lon: -87.0 };
    let near = Place { lat: 36.25, lon: -87.0 };

    let mut closing = Tracker::default();
    closing.track(detect(&core_at(far), SITE, HOME), at_minute(0), HOME);
    let inbound = closing.track(detect(&core_at(near), SITE, HOME), at_minute(5), HOME);
    let a = inbound[0].approach.expect("a storm heading at home has an arrival");
    assert!(a.distance_km < 8.0, "a direct hit reads near zero, got {}", a.distance_km);
    assert!((a.minutes - 50.0).abs() < 15.0, "{}", a.minutes);

    let mut leaving = Tracker::default();
    leaving.track(detect(&core_at(near), SITE, HOME), at_minute(0), HOME);
    let outbound = leaving.track(detect(&core_at(far), SITE, HOME), at_minute(5), HOME);
    assert!(
        outbound[0].approach.is_none(),
        "a storm already receding has no arrival to report"
    );
}

/// Polling can hand back the volume it just delivered. A zero-length step
/// must not divide the motion by it.
#[test]
fn a_repeated_volume_keeps_the_track_and_its_motion_intact() {
    let a = Place { lat: 36.1, lon: -87.2 };
    let b = Place { lat: 36.1, lon: -87.15 };
    let mut tracker = Tracker::default();
    tracker.track(detect(&core_at(a), SITE, HOME), at_minute(0), HOME);
    let moved = tracker.track(detect(&core_at(b), SITE, HOME), at_minute(5), HOME);
    let repeat = tracker.track(detect(&core_at(b), SITE, HOME), at_minute(5), HOME);
    assert_eq!(repeat[0].id, moved[0].id);
    assert_eq!(
        repeat[0].motion, moved[0].motion,
        "a repeat teaches nothing and must change nothing"
    );
}

#[test]
fn hazard_letters_follow_the_cell_diagnostics() {
    assert_eq!(
        hazards(CellThreat::Rotation, wide(30.0), wide(12.0)),
        vec![Hazard::Tornado, Hazard::Wind, Hazard::Lightning, Hazard::Rain]
    );
    assert_eq!(hazards(CellThreat::Hail, wide(10.0), wide(9.5)),
        vec![Hazard::Hail, Hazard::Lightning, Hazard::Rain]);
    assert_eq!(hazards(CellThreat::Strong, None, wide(5.0)), vec![Hazard::Rain]);
    assert_eq!(
        hazards(CellThreat::Debris, wide(40.0), None),
        vec![Hazard::Tornado, Hazard::Wind, Hazard::Rain]
    );
}

#[test]
fn the_classification_ladder_orders_the_threats() {
    let base = || CellStats {
        max_dbz: bits(45.0),
        rotation_ms: None,
        min_cc: None,
        max_vil: None,
        max_echo_top_km: None,
    };
    assert_eq!(classify(&base()), CellThreat::Strong);
    assert_eq!(classify(&CellStats { max_dbz: bits(56.0), ..base() }), CellThreat::Intense);
    assert_eq!(classify(&CellStats { max_vil: wide(50.0), ..base() }), CellThreat::Hail);
    assert_eq!(
        classify(&CellStats { max_echo_top_km: wide(15.0), ..base() }),
        CellThreat::Hail
    );
    assert_eq!(
        classify(&CellStats { rotation_ms: wide(45.0), ..base() }),
        CellThreat::Rotation
    );
    assert_eq!(
        classify(&CellStats { rotation_ms: wide(30.0), min_cc: wide(0.7), ..base() }),
        CellThreat::Debris
    );
    assert_eq!(
        classify(&CellStats { rotation_ms: wide(10.0), min_cc: wide(0.7), ..base() }),
        CellThreat::Strong,
        "a correlation dip without rotation is rain mixture, not debris"
    );
}

#[test]
fn distance_and_bearing_are_measured_from_home() {
    let c = Place { lat: 36.3, lon: -87.0 };
    let field = FnField(move |p, product| match product {
        RadarProduct::Reflectivity if disk(c, 10.0, p) => Some(45.0),
        _ => None,
    });
    let cells = scan(&field, SITE, HOME);
    assert_eq!(cells[0].bearing, "N", "cell is due north of home");
    assert!((cells[0].distance_km - 61.0).abs() < 6.0, "{}", cells[0].distance_km);
}

#[test]
fn the_constants_are_the_numbers_they_stand_for() {
    assert_eq!(f32::from_bits(CELL_MIN_DBZ), 40.0);
    assert_eq!(f32::from_bits(weatui::radar::cells::TDS_MAX_CC), 0.85);
    assert_eq!(f32::from_bits(weatui::radar::cells::TDS_MIN_ROTATION), 25.0);
    assert_eq!(f32::from_bits(weatui::radar::cells::HAIL_VIL), 45.0);
    assert_eq!(f32::from_bits(weatui::radar::cells::HAIL_ECHO_TOP_KM), 14.0);
    assert_eq!(f32::from_bits(weatui::radar::cells::INTENSE_DBZ), 55.0);
    assert_eq!(f32::from_bits(weatui::radar::cells::WIND_HAZARD_MS), 26.0);
    assert_eq!(f32::from_bits(weatui::radar::cells::CORE_DBZ), 50.0);
    assert_eq!(f64::from_bits(weatui::radar::cells::MAX_CELL_DISTANCE_KM), 75.0);
    assert_eq!(f64::from_bits(weatui::radar::cells::MAX_TRACK_SPEED_KMH), 120.0);
    assert_eq!(f64::from_bits(weatui::radar::cells::MAX_ETA_MINUTES), 120.0);
    assert_eq!(f64::from_bits(weatui::radar::cells::MIN_MOTION_KMH), 3.0);
    assert_eq!(f64::from_bits(weatui::radar::cells::MIN_MOTION_SQUARED), 9.0);
}

#[test]
fn letters_and_labels() {
    let letters: String = [
        Hazard::Tornado,
        Hazard::Hail,
        Hazard::Wind,
        Hazard::Lightning,
        Hazard::Rain,
    ]
    .iter()
    .map(|h| h.letter())
    .collect();
    assert_eq!(letters, "THWLR");
    assert_eq!(CellThreat::Debris.label(), "debris");
    assert_eq!(CellThreat::Hail.label(), "hail");
    assert_eq!(CellThreat::Intense.label(), "intense");
    assert_eq!(CellThreat::Strong.label(), "strong");
}

fn member(ix: i64, velocity: Option<f32>, spans: &[(i64, i64, f32)], cc: f32) -> Member {
    Member {
        ix,
        iy: 0,
        dbz: bits(50.0),
        velocity: velocity.map(bits),
        resolvable: true,
        spans: spans.iter().map(|s| Span { dx: s.0, dy: s.1, value: bits(s.2) }).collect(),
        cc: Some(bits(cc)),
        vil: None,
        echo_top: None,
    }
}

#[test]
fn the_couplet_lies_between_its_two_samples() {
    let members = vec![
        member(0, Some(-10.0), &[(3, 0, 40.0)], 0.9),
        member(3, Some(30.0), &[(-3, 0, 40.0)], 0.8),
        member(9, None, &[], 0.1),
    ];
    let c = strongest_couplet(&members).unwrap();
    assert_eq!((c.x, c.y, f32::from_bits(c.span)), (1, 0, 40.0));
    let s = survey(&members);
    assert_eq!(s.stats.min_cc, wide(0.8), "the collapse at 9 is not at the couplet");
    assert_eq!(s.max_abs_velocity, wide(30.0));
    assert!(s.rotation_measurable);
    assert_eq!(s.core_samples, 3);
}

#[test]
fn rotation_out_of_range_is_unknown_rather_than_absent() {
    let mut m = member(0, Some(-40.0), &[(0, 0, 80.0)], 0.1);
    m.resolvable = false;
    let s = survey(&vec![m]);
    assert!(!s.rotation_measurable);
    assert_eq!(s.stats.rotation_ms, None);
    assert_eq!(s.stats.min_cc, None);
    assert_eq!(s.max_abs_velocity, wide(40.0));
}

#[test]
fn the_nearest_and_the_gravest_are_listed() {
    let template = detect(&core_at(Place { lat: 36.1, lon: -87.2 }), SITE, HOME).remove(0);
    let cells: Vec<StormCell> = (0..12)
        .map(|k| StormCell {
            id: k,
            max_dbz: bits(40.0 + k as f32),
            distance_km: (10.0 + k as f64).to_bits(),
            hazards: Vec::new(),
            ..template
        })
        .collect();
    let listed = rank(cells);
    let ids: Vec<u32> = listed.iter().map(|c| c.id).collect();
    assert_eq!(ids, vec![11, 10, 9, 8, 7, 6, 5, 4, 0]);
}

#[test]
fn an_arrival_has_to_lie_ahead_and_soon() {
    let base = Course {
        velocity: Drift { east: 0, north: 0 },
        heading_deg: 90.0_f64.to_bits(),
        speed_kmh: 10.0_f64.to_bits(),
        speed_squared: 100.0_f64.to_bits(),
        minutes: 5.0_f64.to_bits(),
        distance_km: 2.0_f64.to_bits(),
    };
    let m = |v: f64| approach(&Course { minutes: v.to_bits(), ..base });
    assert!(m(120.0).is_some());
    assert_eq!(m(0.5).map(|a| (a.minutes, a.distance_km)), Some((0.5_f64.to_bits(), base.distance_km)));
    assert!(m(0.0).is_none() && m(-1.0).is_none() && m(120.5).is_none());
    assert!(approach(&Course { speed_squared: 8.9_f64.to_bits(), ..base }).is_none());
    assert!(motion_from(&Course { speed_kmh: 2.9_f64.to_bits(), ..base }).is_none());
    let slow = motion_from(&Course { speed_kmh: 3.0_f64.to_bits(), ..base }).unwrap();
    assert_eq!(slow.heading_deg, base.heading_deg);
}

#[test]
fn regions_are_joined_by_their_sides_only() {
    let z = wide(45.0);
    let o = wide(10.0);
    let grid = vec![
        z, z, o, z,
        z, z, o, z,
        o, o, z, o,
        z, z, z, None,
    ];
    let mut found: Vec<Vec<usize>> = storm_regions(&grid, 4);
    for r in &mut found {
        r.sort();
    }
    assert_eq!(found, vec![vec![0, 1, 4, 5], vec![10, 12, 13, 14]]);
}

#[test]
fn no_track_goes_on_as_two_cells() {
    let two = FnField(|p: Place, product| match product {
        RadarProduct::Reflectivity if disk(Place { lat: 36.1, lon: -87.25 }, 6.0, p) => Some(50.0),
        RadarProduct::Reflectivity if disk(Place { lat: 36.1, lon: -87.0 }, 6.0, p) => Some(50.0),
        _ => None,
    });
    let mut tracker = Tracker::default();
    let one = core_at(Place { lat: 36.1, lon: -87.1 });
    let first = tracker.track(detect(&one, SITE, HOME), at_minute(0), HOME);
    let second = tracker.track(detect(&two, SITE, HOME), at_minute(10), HOME);
    assert_eq!(second.len(), 2);
    assert_eq!(second.iter().filter(|c| c.id == first[0].id).count(), 1);
    assert_ne!(second[0].id, second[1].id);
    assert!(first.iter().chain(&second).all(|c| c.id >= 1));
    let third = tracker.track(detect(&two, SITE, HOME), at_minute(60), HOME);
    let before = second.iter().map(|c| c.id).max().unwrap();
    assert!(third.iter().all(|c| c.id > before && c.motion.is_none() && c.approach.is_none()));
}
