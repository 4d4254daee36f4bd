use weatui::alert::filter::ThreatTier;
use weatui::conditions::{Conditions, HourlyForecast};
use weatui::config::{Alerts, Colormap, Config, Location, Radar, Render};
use weatui::geo::{compass_16, Coords};
use weatui::radar::cells::{CellThreat, StormCell};
use weatui::radar::ring::RadarFrame;
use weatui::radar::{DbzGrid, RadarProduct};
use weatui::render::colormap::{product_shade, Shade};
use weatui::render::labels::Area;
use weatui::render::overlay::{PixelOverlay, HOME_MARKER, LETHAL_OUTLINE, WATCH_OUTLINE};
use weatui::render::Rgb;
use weatui::time::Stamp;
use weatui::tui::app::{
    backfill_progress, newest_seen, refresh_interval, App, FrameConditions, MapMove,
};
use weatui::tui::horizon::ForecastHorizon;
use weatui::tui::keys::Action;
use weatui::tui::scene::{
    augmentation_spots, banner, banner_area, build_overlay, centred, drawn_cells, echo_summary,
    nearest_echo_km, paint_product_overlays, wants_banner, Dot, EchoText, Marker, Outline,
    OverlayLayer, Scene,
};

const EARTH_RADIUS_KM: f64 = 6371.0088;
const NOW: Stamp = Stamp { secs: 1_785_000_000, nanos: 0 };

fn minutes_later(m: i64) -> Stamp {
    Stamp { secs: NOW.secs + 60 * m, nanos: 0 }
}

fn haversine_km(a: (f64, f64), b: (f64, f64)) -> f64 {
    let (lat1, lat2) = (a.0.to_radians(), b.0.to_radians());
    let (dlat, dlon) = ((b.0 - a.0).to_radians(), (b.1 - a.1).to_radians());
    let h = (dlat / 2.0).sin().powi(2) + lat1.cos() * lat2.cos() * (dlon / 2.0).sin().powi(2);
    2.0 * EARTH_RADIUS_KM * h.sqrt().asin()
}

fn compass_bearing(a: (f64, f64), b: (f64, f64)) -> &'static str {
    let (lat1, lat2) = (a.0.to_radians(), b.0.to_radians());
    let dlon = (b.1 - a.1).to_radians();
    let y = dlon.sin() * lat2.cos();
    let x = lat1.cos() * lat2.sin() - lat1.sin() * lat2.cos() * dlon.cos();
    compass_16((y.atan2(x).to_degrees().rem_euclid(360.0) / 22.5).round() as u64)
}

/// A field of one reflectivity and one reading of every other moment, everywhere.
#[derive(Clone, Copy)]
struct Storm {
    refl: f32,
    moment: f32,
    supports_moments: bool,
}

fn storm(refl: f32, moment: f32) -> Storm {
    Storm { refl, moment, supports_moments: true }
}

fn config() -> Config {
    Config {
        location: Location { zip: Some("73019".to_string()), lat: None, lon: None },
        alerts: Alerts::default(),
        radar: Radar::default(),
        render: Render::default(),
    }
}

fn fresh() -> App<Storm> {
    App::new(&config(), "KTLX", "28", "UTC")
}

fn app_showing(refl: f32, moment: f32) -> App<Storm> {
    let mut app = fresh();
    app.ring.push(RadarFrame { captured_at: NOW, field: storm(refl, moment), projected: false });
    app
}

fn without_augs(mut app: App<Storm>) -> App<Storm> {
    app.product_overlays.clear();
    app
}

fn rgb(shade: Shade, value: f32) -> Rgb {
    match shade {
        Shade::Flat(c) => c,
        Shade::Between(lo, hi) => {
            let (a, b) = (f32::from_bits(lo.value), f32::from_bits(hi.value));
            let t = ((value - a) / (b - a)).clamp(0.0, 1.0);
            let mix = |x: u8, y: u8| (x as f32 + (y as f32 - x as f32) * t).round() as u8;
            (mix(lo.rgb.0, hi.rgb.0), mix(lo.rgb.1, hi.rgb.1), mix(lo.rgb.2, hi.rgb.2))
        }
    }
}

fn flat_grid(width: usize, height: usize, value: f32) -> DbzGrid {
    let mut g = DbzGrid::new(width, height);
    for y in 0..height {
        for x in 0..width {
            g.set(x, y, Some(value.to_bits()));
        }
    }
    g
}

/// The overlay of a map with home at its centre.
fn overlay_of(app: &App<Storm>, width: usize, height: usize) -> PixelOverlay {
    let centre = (width as i64 / 2, height as i64 / 2);
    let field = app.ring.current().unwrap().field;
    let echo = flat_grid(width, height, field.refl);
    let mut dots = Vec::new();
    let layers: Vec<OverlayLayer> = app
        .product_overlays
        .iter()
        .map(|p| OverlayLayer {
            product: *p,
            grid: if field.supports_moments {
                Some(flat_grid(width, height, field.moment))
            } else {
                None
            },
        })
        .collect();
    for spots in paint_product_overlays(&echo, &layers, app.colormap) {
        for spot in spots {
            let c = rgb(spot.shade, field.moment);
            dots.push(Dot { x: spot.x as i64, y: spot.y as i64, rgb: c });
        }
    }
    let scene = Scene {
        ring_points: Vec::new(),
        dots,
        outlines: Vec::new(),
        markers: app.cells.iter().map(|c| Marker { at: centre, threat: c.threat }).collect(),
        selected: app.selected_cell,
        on_live_frame: app.on_live_frame(),
        home: centre,
    };
    build_overlay(width, height, &scene)
}

#[test]
fn selecting_a_product_beyond_the_list_is_a_no_op() {
    let mut app = fresh();
    app.apply(Action::SelectProduct(0));
    assert_eq!(app.product, RadarProduct::Reflectivity);
    app.apply(Action::SelectProduct(99));
    assert_eq!(app.product, RadarProduct::Reflectivity, "out of range must not change it");
}

#[test]
fn the_banner_compass_names_the_direction_of_the_nearest_echo() {
    let home = (36.0, -87.0);
    assert_eq!(compass_bearing(home, (38.0, -87.0)), "N");
    assert_eq!(compass_bearing(home, (34.0, -87.0)), "S");
    assert_eq!(compass_bearing(home, (36.0, -85.0)), "E");
    assert_eq!(compass_bearing(home, (36.0, -89.0)), "W");
    assert_eq!(compass_bearing(home, (34.5, -88.9)), "SW");
}

/// Sweeps the surroundings of home for a disk of 30 dBZ.
fn nearest_disk(centre: (f64, f64), radius_km: f64) -> Option<(f64, &'static str)> {
    let home = (36.0, -87.0);
    let mut places = Vec::new();
    for i in 0..64 {
        for j in 0..64 {
            places.push((home.0 - 8.0 + 0.25 * i as f64, home.1 - 8.0 + 0.25 * j as f64));
        }
    }
    let samples: Vec<Option<u32>> = places
        .iter()
        .map(|p| if haversine_km(centre, *p) <= radius_km { Some(30.0_f32.to_bits()) } else { None })
        .collect();
    let far: Vec<u64> = places.iter().map(|p| haversine_km(home, *p).to_bits()).collect();
    let at = nearest_echo_km(&samples, &far, RadarProduct::Reflectivity, Colormap::Threat)?;
    Some((f64::from_bits(far[at]), compass_bearing(home, places[at])))
}

/// A blank frame must tell where the weather is, so that an empty view reads
/// as "clear here" rather than as a failure.
#[test]
fn nearest_echo_is_found_outside_the_viewport() {
    let (km, dir) = nearest_disk((33.5, -89.6), 40.0).expect("echo within the search radius");
    assert!((250.0..400.0).contains(&km), "unexpected distance {km}");
    assert_eq!(dir, "SW");
}

#[test]
fn a_field_with_no_echo_anywhere_reports_none() {
    assert!(nearest_disk((0.0, 0.0), 1.0).is_none());
}

#[test]
fn a_reading_too_faint_to_draw_is_no_echo() {
    let near = 1.0_f64.to_bits();
    let samples = vec![Some(2.0_f32.to_bits()), None, Some(20.0_f32.to_bits())];
    assert_eq!(
        nearest_echo_km(&samples, &vec![near; 3], RadarProduct::Reflectivity, Colormap::Threat),
        Some(2)
    );
}

fn app_with_cells(n: usize) -> App<Storm> {
    let mut app = app_showing(45.0, 0.98);
    app.cells = (0..n)
        .map(|i| {
            let at = Coords {
                lat: (36.0 + i as f64 * 0.3).to_bits(),
                lon: (-87.0_f64).to_bits(),
            };
            StormCell {
                id: 0,
                centroid: at,
                track_point: at,
                max_dbz: 50.0_f32.to_bits(),
                rotation_ms: None,
                rotation_measurable: true,
                min_cc: None,
                max_vil: None,
                max_echo_top_km: None,
                distance_km: 30.0_f64.to_bits(),
                bearing: "N",
                threat: CellThreat::Strong,
                hazards: Vec::new(),
                velocity: None,
                motion: None,
                approach: None,
            }
        })
        .collect();
    app
}

/// Cell markers describe the newest observed volume only; drawn on a forecast
/// frame they would bracket echo they do not belong to.
#[test]
fn cell_markers_stay_off_forecast_frames() {
    let mut app = app_with_cells(1);
    let on_observed = overlay_of(&app, 20, 20).painted();
    app.ring.push(RadarFrame {
        captured_at: minutes_later(30),
        field: storm(45.0, 0.98),
        projected: true,
    });
    app.ring.jump_newest();
    let on_forecast = overlay_of(&app, 20, 20).painted();
    assert!(
        on_forecast < on_observed,
        "markers must vanish on the forecast frame: {on_forecast} vs {on_observed}"
    );
}

fn observed(at: Stamp) -> Conditions {
    Conditions {
        station: "KM02".into(),
        observed_at: Some(at),
        description: None,
        temp_f: None,
        dewpoint_f: None,
        humidity_pct: None,
        wind_mph: None,
        wind_from_deg: None,
        visibility_mi: None,
        rain_last_hour_in: None,
    }
}

fn hour(valid: Stamp) -> HourlyForecast {
    HourlyForecast {
        valid,
        temp_f: Some(78.0_f32.to_bits()),
        dewpoint_f: None,
        humidity_pct: None,
        wind_mph: None,
        wind_dir: None,
        short: Some("Sunny".into()),
    }
}

#[test]
fn frame_conditions_pick_forecast_for_future_and_observation_for_past() {
    let mut app = app_showing(45.0, 0.98);
    app.hourly = vec![hour(minutes_later(60))];
    app.obs_history = vec![observed(minutes_later(-50))];

    assert!(
        app.frame_conditions().is_none(),
        "the newest observed frame IS now; the current block covers it"
    );

    app.ring.push(RadarFrame {
        captured_at: minutes_later(45),
        field: storm(45.0, 0.98),
        projected: true,
    });
    app.ring.jump_newest();
    match app.frame_conditions() {
        Some((_, FrameConditions::Forecast(i))) => {
            assert_eq!(app.hourly[i].temp_f, Some(78.0_f32.to_bits()));
        }
        other => panic!("expected the hourly forecast, got {:?}", other.is_some()),
    }

    app.ring.push(RadarFrame {
        captured_at: minutes_later(-45),
        field: storm(45.0, 0.98),
        projected: false,
    });
    app.ring.jump_oldest();
    match app.frame_conditions() {
        Some((at, FrameConditions::Observed(i))) => {
            assert_eq!(at, minutes_later(-45));
            assert_eq!(app.obs_history[i].observed_at, Some(minutes_later(-50)));
        }
        other => panic!("expected the past observation, got {:?}", other.is_some()),
    }
}

#[test]
fn cycling_wraps_and_pans_the_map_to_the_cell() {
    let mut app = app_with_cells(2);
    let moved = app.apply(Action::CellNext);
    assert_eq!(app.selected_cell, Some(0));
    assert!(matches!(moved, MapMove::ToCell(0)), "selecting a cell must pan to it");
    app.apply(Action::CellNext);
    assert_eq!(app.selected_cell, Some(1));
    app.apply(Action::CellNext);
    assert_eq!(app.selected_cell, Some(0), "cycling wraps");
    app.apply(Action::CellPrev);
    assert_eq!(app.selected_cell, Some(1), "prev wraps backwards");
}

#[test]
fn cycling_with_no_cells_explains_itself_instead_of_panicking() {
    let mut app = app_with_cells(0);
    app.apply(Action::CellNext);
    assert_eq!(app.selected_cell, None);
    assert_eq!(app.status, "no storm cells detected");
    app.apply(Action::CellPrev);
    assert_eq!(app.selected_cell, None);
}

/// An empty sky and a failed fetch look the same on screen, and only this line
/// tells them apart.
#[test]
fn echo_summary_separates_an_empty_sky_from_a_missing_frame() {
    let empty = DbzGrid::new(4, 4);
    assert_eq!(
        echo_summary(&empty, RadarProduct::Reflectivity, Colormap::Threat),
        "no data in view"
    );

    let mut below_threshold = DbzGrid::new(4, 4);
    below_threshold.set(1, 1, Some((-10.0_f32).to_bits()));
    assert_eq!(
        echo_summary(&below_threshold, RadarProduct::Reflectivity, Colormap::Threat),
        "no echo in view",
        "HRRR fills its grid with a no-echo floor; that is data, not absence"
    );

    let mut storm = DbzGrid::new(4, 4);
    storm.set(0, 0, Some(45.0_f32.to_bits()));
    storm.set(2, 2, Some(20.0_f32.to_bits()));
    assert_eq!(echo_summary(&storm, RadarProduct::Reflectivity, Colormap::Threat), "2 cells");
    assert_eq!(drawn_cells(&storm, RadarProduct::Reflectivity, Colormap::Threat), 2);
}

/// The layer set must survive a background poll, which overwrites `status`.
#[test]
fn the_layer_summary_lists_the_base_then_each_augmentation() {
    let mut app = app_showing(30.0, 0.98);
    assert_eq!(
        app.layer_summary(),
        "reflectivity dBZ + velocity + corr coeff",
        "velocity and debris detection must be on by default"
    );

    app.apply(Action::SelectProduct(1));
    assert_eq!(app.layer_summary(), "echo top km + velocity + corr coeff");

    app.apply(Action::ToggleProductOverlay(0));
    app.apply(Action::ToggleProductOverlay(1));
    assert_eq!(app.layer_summary(), "echo top km");
}

#[test]
fn augmentations_default_to_velocity_and_debris() {
    let app = app_showing(30.0, 0.98);
    assert_eq!(
        app.product_overlays,
        vec![RadarProduct::Velocity, RadarProduct::CorrelationCoefficient]
    );
}

#[test]
fn toggling_an_augmentation_adds_then_removes() {
    let mut app = app_showing(30.0, 0.98);
    app.apply(Action::ToggleProductOverlay(1));
    assert_eq!(app.product_overlays, vec![RadarProduct::Velocity]);
    app.apply(Action::ToggleProductOverlay(2));
    assert_eq!(
        app.product_overlays,
        vec![RadarProduct::Velocity, RadarProduct::DifferentialReflectivity]
    );
}

#[test]
fn an_augmentation_paints_its_diagnostic_tail_inside_echo() {
    let debris = app_showing(45.0, 0.45);
    let painted = overlay_of(&debris, 20, 20);
    let expected = product_shade(
        0.45_f32.to_bits(),
        RadarProduct::CorrelationCoefficient,
        debris.colormap,
    )
    .map(|s| rgb(s, 0.45));
    assert_eq!(painted.get(3, 3), expected, "a debris signature inside a core must be drawn");
}

#[test]
fn ordinary_readings_do_not_cover_the_base_even_inside_echo() {
    let rain = app_showing(45.0, 0.98);
    let bare = overlay_of(&without_augs(app_showing(45.0, 0.98)), 20, 20).painted();
    assert_eq!(
        overlay_of(&rain, 20, 20).painted(),
        bare,
        "healthy rain has nothing diagnostic to highlight"
    );
}

/// Biologicals collapse correlation and drift at jet speed on a clear summer
/// night; without real echo beneath them they must not be drawn.
#[test]
fn augmentations_stay_dark_outside_real_echo() {
    let bugs = app_showing(10.0, 0.20);
    let bare = overlay_of(&without_augs(app_showing(10.0, 0.20)), 20, 20).painted();
    assert_eq!(
        overlay_of(&bugs, 20, 20).painted(),
        bare,
        "a correlation collapse in 10 dBZ clear-air return is bugs, not debris"
    );
}

#[test]
fn a_frame_that_cannot_produce_the_augmentation_keeps_its_base() {
    let plain = Storm { refl: 40.0, moment: 0.0, supports_moments: false };
    let shown = |overlays: Vec<RadarProduct>| {
        let mut app = without_augs(app_showing(45.0, 0.45));
        app.product_overlays = overlays;
        app.ring.push(RadarFrame {
            captured_at: minutes_later(30),
            field: plain,
            projected: true,
        });
        app.ring.jump_newest();
        overlay_of(&app, 20, 20).painted()
    };
    assert_eq!(
        shown(vec![RadarProduct::Velocity]),
        shown(Vec::new()),
        "a forecast frame skips unsupported augmentations instead of blanking"
    );
}

#[test]
fn warning_geometry_survives_an_augmentation_painted_beneath_it() {
    let app = app_showing(45.0, 0.20);
    let overlay = overlay_of(&app, 20, 20);
    assert_eq!(
        overlay.get(10 + 1, 10),
        Some(HOME_MARKER),
        "home must stay visible through a full-coverage overlay"
    );
}

#[test]
fn centred_rect_fits_inside_a_small_terminal() {
    let area = Area { x: 0, y: 0, width: 20, height: 6 };
    let c = centred(58, 18, area);
    assert!(c.width <= area.width && c.height <= area.height);
    let wide = Area { x: 2, y: 1, width: 100, height: 40 };
    let m = centred(58, 18, wide);
    assert_eq!((m.x, m.y, m.width, m.height), (23, 12, 58, 18));
}

#[test]
fn the_gravest_outline_is_painted_last() {
    let square = vec![(2, 2), (8, 2), (8, 8), (2, 8)];
    let outline = |tier| Outline { tier, rings: vec![square.clone()] };
    let scene = Scene {
        ring_points: vec![(0, 0)],
        dots: Vec::new(),
        outlines: vec![outline(ThreatTier::Lethal), outline(ThreatTier::Watch)],
        markers: Vec::new(),
        selected: None,
        on_live_frame: true,
        home: (15, 15),
    };
    let overlay = build_overlay(20, 20, &scene);
    assert_eq!(overlay.get(5, 2), Some(LETHAL_OUTLINE));
    assert_ne!(LETHAL_OUTLINE, WATCH_OUTLINE);
    assert!(overlay.get(0, 0).is_some());
}

#[test]
fn a_banner_tells_what_is_missing() {
    let near = Some(EchoText { distance: "312".to_string(), direction: "SW".to_string() });
    assert_eq!(
        banner(RadarProduct::Reflectivity, "KOHX", true, &near),
        " NO REFLECTIVITY IN VIEW \n KOHX \n nearest 312 km SW \n zo zooms out \u{b7} hjkl pan "
    );
    assert_eq!(
        banner(RadarProduct::EchoTop, "KOHX", true, &None),
        " NO ECHO TOP IN VIEW \n KOHX \n none within 800 km "
    );
    assert_eq!(
        banner(RadarProduct::Velocity, "HRRR", false, &None),
        " VELOCITY UNAVAILABLE ON THIS FRAME \n HRRR did not provide it "
    );
    assert!(wants_banner(0, 0, true));
    assert!(!wants_banner(1, 0, true) && !wants_banner(0, 1, true) && !wants_banner(0, 0, false));
    let map = Area { x: 0, y: 0, width: 60, height: 20 };
    assert_eq!(banner_area("ab\ncdef", map).map(|a| (a.width, a.height)), Some((4, 2)));
}

#[test]
fn every_arrival_leaves_its_word() {
    let mut app = fresh();
    assert_eq!(app.status, "KTLX selected, 28 km away, waiting for first volume");
    app.take_radar(NOW, storm(45.0, 0.9), "0.5", Some(backfill_progress(1, 3)), None);
    assert!(app.status.contains("backfill 1/3"), "{}", app.status);
    app.take_forecast(minutes_later(15), storm(30.0, 0.9), 15, true, 0, 8);
    assert_eq!(app.status, format!("HRRR {} | +15min | 1/8", ForecastHorizon::Near.label()));
    assert_eq!(app.ring.len(), 2);
    app.take_forecast(minutes_later(30), storm(30.0, 0.9), 30, false, 1, 8);
    assert_eq!(app.ring.len(), 3);
    app.take_forecast(minutes_later(45), storm(30.0, 0.9), 45, true, 0, 8);
    assert_eq!(app.ring.len(), 2, "a new batch replaces the old one");
    app.radar_failed("timeout");
    assert_eq!(app.status, "radar fetch failed: timeout");
    app.forecast_failed("404");
    assert_eq!(app.status, "forecast unavailable: 404");
    app.take_conditions(None, Vec::new(), Vec::new(), Some("dns".to_string()));
    assert_eq!(app.status, "conditions unavailable: dns");
    app.take_alerts(Vec::new(), true, 7, None, Some("down".to_string()));
    assert!(app.status.contains("down"), "{}", app.status);
    assert_eq!((app.stale, app.stale_secs), (true, 7));
}

#[test]
fn a_missing_report_keeps_the_last_one() {
    let mut app = fresh();
    app.take_conditions(
        Some(observed(NOW)),
        vec![observed(NOW)],
        vec![hour(NOW)],
        None,
    );
    app.take_conditions(None, Vec::new(), Vec::new(), None);
    assert!(app.conditions.is_some());
    assert_eq!((app.obs_history.len(), app.hourly.len()), (1, 1));
}

#[test]
fn a_selection_beyond_the_new_list_is_dropped() {
    let mut app = app_with_cells(3);
    app.apply(Action::CellPrev);
    assert_eq!(app.selected_cell, Some(2));
    app.take_radar(minutes_later(5), storm(45.0, 0.9), "0.5", None, Some(Vec::new()));
    assert_eq!(app.selected_cell, None);
}

#[test]
fn playback_is_kept_between_its_limits() {
    let mut app = fresh();
    assert_eq!(app.playback_ns, 450_000_000);
    app.rescale_playback(true, 1);
    assert_eq!(app.playback_ns, 60_000_000);
    app.rescale_playback(false, u64::MAX);
    assert_eq!(app.playback_ns, 4_000_000_000);
    app.rescale_playback(true, 300_000_000);
    assert_eq!(app.playback_ns, 300_000_000);
    assert!(!app.advance_if_due(299_999_999));
    assert!(app.advance_if_due(300_000_000));
}

#[test]
fn the_bottom_line_ends_with_the_status() {
    let mut app = fresh();
    app.radar_failed("x");
    assert_eq!(
        app.bottom_line("no data in view"),
        "reflectivity dBZ + velocity + corr coeff | no data in view | radar fetch failed: x"
    );
    assert_eq!(refresh_interval(5), 30);
    assert_eq!(refresh_interval(60), 60);
}

#[test]
fn toggling_twice_restores_the_set() {
    let mut app = fresh();
    app.apply(Action::ToggleProductOverlay(2));
    let before = app.product_overlays.clone();
    app.apply(Action::ToggleProductOverlay(3));
    app.apply(Action::ToggleProductOverlay(3));
    assert_eq!(app.product_overlays, before);
}

#[test]
fn help_quit_and_the_map_answer_their_keys() {
    let mut app = fresh();
    app.apply(Action::ToggleHelp);
    assert!(app.show_help);
    assert!(matches!(app.apply(Action::PanEast), MapMove::Pan { east: 1, north: 0 }));
    assert!(matches!(app.apply(Action::ZoomIn), MapMove::ZoomIn));
    assert!(matches!(app.apply(Action::RecentreHome), MapMove::Home));
    app.apply(Action::CycleForecast);
    assert_eq!(app.horizon, ForecastHorizon::Mid);
    assert!(matches!(app.apply(Action::Quit), MapMove::Stay));
    assert!(app.quit && app.show_help);
}

#[test]
fn each_layer_paints_its_own_spots_in_order() {
    let mut echo = flat_grid(2, 1, 45.0);
    echo.set(1, 0, Some(10.0_f32.to_bits()));
    let layer = |product, grid| OverlayLayer { product, grid };
    let layers = vec![
        layer(RadarProduct::Velocity, Some(flat_grid(2, 1, 35.0))),
        layer(RadarProduct::SpectrumWidth, None),
        layer(RadarProduct::CorrelationCoefficient, Some(flat_grid(2, 1, 0.45))),
    ];
    let painted = paint_product_overlays(&echo, &layers, Colormap::Threat);
    let places: Vec<Vec<(usize, usize)>> =
        painted.iter().map(|s| s.iter().map(|p| (p.x, p.y)).collect()).collect();
    assert_eq!(places, vec![vec![(0, 0)], vec![], vec![(0, 0)]]);
    let alone = augmentation_spots(
        &echo,
        &flat_grid(2, 1, 0.45),
        RadarProduct::CorrelationCoefficient,
        Colormap::Threat,
    );
    assert_eq!(alone[0].shade, painted[2][0].shade);
}

#[test]
fn history_does_not_make_the_radar_look_older() {
    assert_eq!(newest_seen(None, NOW), NOW);
    assert_eq!(newest_seen(Some(NOW), minutes_later(-5)), NOW);
    assert_eq!(newest_seen(Some(NOW), minutes_later(5)), minutes_later(5));
}
