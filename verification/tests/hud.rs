use weatui::alert::filter::ThreatTier;
use weatui::alert::state::ActiveAlert;
use weatui::alert::{Alert, Feature, ParamValue, Parameter, Properties};
use weatui::geo::compass_16;
use weatui::radar::cells::CellThreat;
use weatui::render::glyph;
use weatui::render::hud::{
    cells_lines, conditions_lines, frame_block_row, frame_conditions_lines, threat_rgb,
    tier_color, tier_glyph, ApproachText, CellReadout, ConditionsText, FrameText, Hud, HudEntry,
    TrackText,
};
use weatui::render::line::Line;
use weatui::time::{parse_timestamp, Stamp};

const COLD: f32 = 32.0;
const HOT: f32 = 95.0;

fn text_of(lines: &[Line]) -> Vec<String> {
    lines.iter().map(|l| l.spans.iter().map(|s| s.text.as_str()).collect()).collect()
}

fn joined(lines: &[Line]) -> String {
    text_of(lines).join("\n")
}

fn beam_height_km_at(range_km: f64) -> f64 {
    let radius = 6371.0 * 4.0 / 3.0;
    let tilt = 0.5_f64.to_radians();
    (range_km * range_km + radius * radius + 2.0 * range_km * radius * tilt.sin()).sqrt() - radius
}

fn cell(threat: CellThreat) -> CellReadout {
    CellReadout {
        threat,
        distance: format!("{:.0}", 42.0),
        bearing: "NE".to_string(),
        dbz: format!("{:.0}", 57.0),
        track: None,
        approach: None,
        rotation: Some(format!("{:.0}", 46.0)),
        rotation_measurable: true,
        beam_height: Some(format!("{:.1}", beam_height_km_at(120.0))),
        cc: Some(format!("{:.2}", 0.78)),
        vil: Some(format!("{:.0}", 48.0)),
        top: Some(format!("{:.1}", 14.3)),
    }
}

fn reading(v: Option<f32>, unit: &str) -> String {
    match v {
        Some(x) if unit == " mi" && x < 3.0 => format!("{x:.1}{unit}"),
        Some(x) => {
            let r = if x.round() == 0.0 { 0.0 } else { x.round() };
            format!("{r:.0}{unit}")
        }
        None => format!("--{unit}"),
    }
}

/// A report of the readings that tests care for.
struct Report {
    station: &'static str,
    observed_at: Option<Stamp>,
    description: Option<&'static str>,
    temp_f: Option<f32>,
    dewpoint_f: Option<f32>,
    humidity_pct: Option<f32>,
    wind_mph: Option<f32>,
    wind_dir: Option<&'static str>,
    visibility_mi: Option<f32>,
    rain_last_hour_in: Option<f32>,
}

const BLANK: Report = Report {
    station: "KBNA",
    observed_at: None,
    description: None,
    temp_f: None,
    dewpoint_f: None,
    humidity_pct: None,
    wind_mph: None,
    wind_dir: None,
    visibility_mi: None,
    rain_last_hour_in: None,
};

fn shown(r: &Report) -> ConditionsText {
    ConditionsText {
        station: r.station.to_string(),
        observed_at: r.observed_at,
        description: r.description.map(str::to_string),
        temp_f: r.temp_f.map(f32::to_bits),
        temp: reading(r.temp_f, "\u{b0}F"),
        dew: reading(r.dewpoint_f, "\u{b0}F"),
        humidity: reading(r.humidity_pct, "%"),
        wind: reading(r.wind_mph, " mph"),
        wind_dir: r.wind_dir.unwrap_or("").to_string(),
        sees: r.visibility_mi.is_some(),
        visibility: reading(r.visibility_mi, " mi"),
        rain_in: r.rain_last_hour_in.map(f32::to_bits),
        rain: format!("{:.2}", r.rain_last_hour_in.unwrap_or(0.0)),
    }
}

fn now() -> Stamp {
    parse_timestamp("2026-08-02T23:45:00Z").unwrap()
}

fn quiet() -> Hud<'static> {
    Hud {
        active: Vec::new(),
        stale: false,
        stale_secs: 0,
        reporter_silent: false,
        radar_age_min: None,
        site: "KOHX",
        peak: None,
        peak_units: "dBZ",
        conditions: None,
        cold_below_f: COLD.to_bits(),
        hot_above_f: HOT.to_bits(),
        cells: Vec::new(),
        selected_cell: None,
        zone: "America/Chicago",
        now: now(),
    }
}

#[test]
fn unmeasurable_rotation_reads_as_unknown_not_as_calm() {
    let mut c = cell(CellThreat::Strong);
    c.rotation = None;

    c.rotation_measurable = true;
    let measured = joined(&cells_lines(&vec![c.clone()], Some(0)));
    assert!(!measured.contains("unknown"), "a real null reading is not unknown: {measured}");

    c.rotation_measurable = false;
    let unknown = joined(&cells_lines(&vec![c], Some(0)));
    assert!(
        unknown.contains("\u{394}v unknown"),
        "out of beam range must not render as absence of rotation: {unknown}"
    );
}

#[test]
fn beam_height_uses_range_from_the_radar_not_distance_from_home() {
    let mut c = cell(CellThreat::Strong);
    c.distance = format!("{:.0}", 10.0);
    c.beam_height = Some(format!("{:.1}", beam_height_km_at(150.0)));
    let text = joined(&cells_lines(&vec![c], Some(0)));
    let shown: f64 = text
        .split("beam \u{2248}")
        .nth(1)
        .and_then(|t| t.split(' ').next())
        .and_then(|t| t.parse().ok())
        .expect("beam height should render");
    assert!(
        shown > 2.0,
        "a cell 10 km from home but 150 km from the radar is under a high beam, got {shown}"
    );
}

#[test]
fn cells_render_ranked_with_detail_on_the_selection() {
    let cells = vec![cell(CellThreat::Rotation), cell(CellThreat::Strong)];
    let joined = joined(&cells_lines(&cells, Some(0)));
    assert!(joined.contains("maybe rot"), "{joined}");
    assert!(joined.contains("42 km NE"), "{joined}");
    assert!(joined.contains("57 dBZ"), "{joined}");
    assert!(joined.contains("\u{394}v 46 m/s"), "{joined}");
    assert!(joined.contains("cc 0.78"), "{joined}");
    assert!(
        joined.contains("beam \u{2248}"),
        "the beam height at the cell's range says whether the radar can see \
         the low-level circulation at all: {joined}"
    );
    assert!(
        joined.contains("VIL \u{2265}48 \u{b7} top \u{2265}14.3 km"),
        "beam-limited readings must display as floors: {joined}"
    );
    assert_eq!(
        joined.matches("\u{394}v").count(),
        1,
        "detail line belongs to the selected cell only: {joined}"
    );
}

#[test]
fn a_stale_feed_does_not_duplicate_the_sections() {
    let mut hud = quiet();
    hud.stale = true;
    hud.stale_secs = 400;
    hud.conditions = Some(shown(&Report { temp_f: Some(74.0), ..BLANK }));
    hud.cells = vec![cell(CellThreat::Strong)];
    let joined = joined(&hud.lines());
    assert_eq!(joined.matches("storm cells").count(), 1, "{joined}");
    assert_eq!(joined.matches("74\u{b0}F").count(), 1, "{joined}");
    assert!(joined.contains("FEED STALE"), "{joined}");
}

#[test]
fn a_tracked_cell_shows_its_heading_and_its_arrival() {
    let mut c = cell(CellThreat::Rotation);
    let (heading, kmh) = (90.0_f64, 55.6_f64);
    c.track = Some(TrackText {
        heading: compass_16((heading / 22.5).round() as u64).to_string(),
        knots: format!("{:.0}", kmh / 1.852),
    });
    c.approach = Some(ApproachText {
        distance: format!("{:.0}", 3.0),
        minutes: format!("{:.0}", 18.0),
    });
    let joined = joined(&cells_lines(&vec![c], Some(0)));
    assert!(joined.contains("\u{2192}E 30 kt"), "{joined}");
    assert!(joined.contains("nearest 3 km in 18m"), "{joined}");
}

#[test]
fn no_cells_means_no_section_rather_than_an_empty_header() {
    assert!(cells_lines(&Vec::new(), None).is_empty());
}

/// The panel reads top-down as: what the sky is doing, whether it can kill
/// you, then the numbers.
#[test]
fn the_panel_orders_sky_then_warnings_then_readings() {
    let mut hud = quiet();
    hud.conditions = Some(shown(&Report {
        description: Some("Mostly Cloudy"),
        temp_f: Some(74.0),
        visibility_mi: Some(10.0),
        ..BLANK
    }));
    let text = text_of(&hud.lines());
    let at = |needle: &str| {
        text.iter()
            .position(|l| l.contains(needle))
            .unwrap_or_else(|| panic!("{needle:?} missing from {text:?}"))
    };
    assert!(at("Mostly Cloudy") < at("no active warnings"), "{text:?}");
    assert!(at("no active warnings") < at("74\u{b0}F"), "{text:?}");
}

/// The block of the shown frame stands at the bottom of the panel, apart from
/// the current conditions, and vanishes when what is above needs the room.
#[test]
fn the_frame_block_is_anchored_to_the_panel_bottom() {
    let block = frame_conditions_lines(
        &FrameText {
            at: now(),
            forecast: true,
            conditions: shown(&Report {
                temp_f: Some(78.0),
                description: Some("Chance Showers"),
                ..BLANK
            }),
        },
        "America/Chicago",
        COLD.to_bits(),
        HOT.to_bits(),
    );
    let top = quiet().lines().len() as u16;
    let inner_top: u16 = 1;
    let first = inner_top + frame_block_row(18, top, block.len() as u16).unwrap();
    let row = |y: u16| -> String {
        if y < first {
            return String::new();
        }
        text_of(&block)[(y - first) as usize].clone()
    };
    assert!(row(15).contains("(forecast)"), "header at bottom: {:?}", row(15));
    assert!(row(16).contains("Chance Showers"), "{:?}", row(16));
    assert!(row(18).contains("%"), "{:?}", row(18));
    assert!(
        (3..14).all(|y| !row(y).contains("(forecast)")),
        "the block must not sit next to the current conditions"
    );
    assert_eq!(frame_block_row(18, 14, 4), None);
    assert_eq!(frame_block_row(4, 0, 4), None);
    assert_eq!(frame_block_row(18, 13, 4), Some(14));
}

#[test]
fn a_forecast_frame_shows_its_own_moments_conditions() {
    let frame = FrameText {
        at: now(),
        forecast: true,
        conditions: shown(&Report {
            temp_f: Some(78.0),
            dewpoint_f: Some(69.0),
            humidity_pct: Some(62.0),
            wind_mph: Some(8.0),
            wind_dir: Some("WSW"),
            description: Some("Chance Showers"),
            ..BLANK
        }),
    };
    let text =
        text_of(&frame_conditions_lines(&frame, "America/Chicago", COLD.to_bits(), HOT.to_bits()));
    assert!(text[0].contains("18:45 CDT"), "frame time in the location's zone: {text:?}");
    assert!(text[0].contains("(forecast)"), "{text:?}");
    assert_eq!(text[1], "Chance Showers", "plain English on top here too");
    assert!(text[2].contains("78\u{b0}F"), "{text:?}");
    assert!(text[3].contains("8 mph WSW"), "{text:?}");
}

#[test]
fn a_past_frame_shows_the_observation_including_visibility() {
    let at = parse_timestamp("2026-08-02T04:00:00Z").unwrap();
    let frame = FrameText {
        at,
        forecast: false,
        conditions: shown(&Report {
            station: "KM02",
            observed_at: Some(at),
            description: Some("Fog"),
            temp_f: Some(66.0),
            dewpoint_f: Some(65.0),
            humidity_pct: Some(97.0),
            wind_mph: Some(3.0),
            wind_dir: Some("N"),
            visibility_mi: Some(0.5),
            rain_last_hour_in: None,
        }),
    };
    let text =
        text_of(&frame_conditions_lines(&frame, "America/Chicago", COLD.to_bits(), HOT.to_bits()));
    assert!(text[0].contains("(observed)"), "{text:?}");
    assert_eq!(text[1], "Fog");
    assert!(text.iter().any(|l| l.contains("0.5 mi vis")), "{text:?}");
}

#[test]
fn conditions_render_readings_and_mark_missing_sensors() {
    let c = shown(&Report {
        observed_at: Some(Stamp { secs: now().secs - 24 * 60, nanos: 0 }),
        description: Some("Partly Cloudy"),
        temp_f: Some(74.0),
        humidity_pct: Some(61.0),
        wind_mph: Some(8.0),
        wind_dir: Some("SSW"),
        visibility_mi: Some(0.25),
        rain_last_hour_in: Some(0.12),
        ..BLANK
    });
    let joined = joined(&conditions_lines(&c, COLD.to_bits(), HOT.to_bits(), now()));
    assert!(joined.contains("74\u{b0}F"), "{joined}");
    assert!(joined.contains("--\u{b0}F"), "a dead dewpoint sensor must show as --: {joined}");
    assert!(joined.contains("8 mph SSW"), "{joined}");
    assert!(joined.contains("0.2 mi"), "sub-3-mile visibility keeps a decimal: {joined}");
    assert!(joined.contains("0.12 in/h"), "{joined}");
    assert!(joined.contains("KBNA \u{b7} 24m old"), "{joined}");
}

#[test]
fn dry_hours_hide_the_rain_reading_entirely() {
    let c = shown(&Report { rain_last_hour_in: Some(0.0), ..BLANK });
    let joined = joined(&conditions_lines(&c, COLD.to_bits(), HOT.to_bits(), now()));
    assert!(!joined.contains("in/h"), "zero rain is not a reading worth a line: {joined}");
    assert!(joined.contains("KBNA"), "{joined}");
    assert!(!joined.contains("m old"), "no timestamp means no age claim: {joined}");
}

#[test]
fn tornado_products_get_the_rotation_glyph() {
    assert_eq!(tier_glyph("Tornado Warning", ThreatTier::Lethal), glyph::TORNADO);
}

#[test]
fn flood_and_thunderstorm_products_are_distinguishable() {
    let flood = tier_glyph("Flash Flood Warning", ThreatTier::Lethal);
    let storm = tier_glyph("Severe Thunderstorm Warning", ThreatTier::Severe);
    assert_eq!(flood, glyph::FLOOD);
    assert_eq!(storm, glyph::THUNDERSTORM);
    assert_ne!(flood, storm);
}

#[test]
fn special_weather_statement_gets_the_wind_glyph() {
    assert_eq!(
        tier_glyph("Special Weather Statement", ThreatTier::Severe),
        glyph::STRONG_WIND
    );
}

#[test]
fn unknown_event_falls_back_to_a_tier_appropriate_glyph() {
    assert_eq!(tier_glyph("Something Novel", ThreatTier::Watch), glyph::STORM_WARNING);
    assert_eq!(tier_glyph("Something Novel", ThreatTier::Lethal), glyph::TORNADO);
}

#[test]
fn every_glyph_used_sits_in_a_range_the_configured_font_covers() {
    for g in [
        glyph::TORNADO,
        glyph::THUNDERSTORM,
        glyph::FLOOD,
        glyph::STRONG_WIND,
        glyph::STORM_WARNING,
        glyph::NO_DATA,
        glyph::REFRESH,
        glyph::THERMOMETER,
        glyph::HUMIDITY,
        glyph::RAINDROP,
    ] {
        let c = g as u32;
        assert!((0xe300..=0xe3e3).contains(&c), "{c:x} outside the weather range");
    }
    for g in [glyph::PLAY, glyph::PAUSE, glyph::CLOCK, glyph::EYE] {
        let c = g as u32;
        assert!((0xf000..=0xf381).contains(&c), "{c:x} outside the covered range");
    }
}

#[test]
fn tier_colours_are_distinct() {
    assert_ne!(tier_color(ThreatTier::Lethal), tier_color(ThreatTier::Severe));
    assert_ne!(tier_color(ThreatTier::Severe), tier_color(ThreatTier::Watch));
}

#[test]
fn quiet_hud_says_so_explicitly_rather_than_rendering_blank() {
    let text = joined(&quiet().lines());
    assert!(text.contains("no active warnings"), "got: {text}");
}

fn hud_text(stale: bool, secs: u64, reporter_silent: bool, radar_age: Option<i64>) -> String {
    let mut hud = quiet();
    hud.stale = stale;
    hud.stale_secs = secs;
    hud.reporter_silent = reporter_silent;
    hud.radar_age_min = radar_age;
    joined(&hud.lines())
}

#[test]
fn a_dead_monitor_reads_differently_from_a_quiet_feed() {
    let feed_down = hud_text(true, 420, false, None);
    assert!(feed_down.contains("FEED STALE"), "got: {feed_down}");

    let monitor_dead = hud_text(true, 420, true, None);
    assert!(monitor_dead.contains("MONITOR DEAD"), "got: {monitor_dead}");
    assert!(monitor_dead.contains("NOT BEING WARNED"));
}

#[test]
fn an_old_radar_volume_says_so_instead_of_looking_current() {
    let fresh = hud_text(false, 0, false, Some(3));
    assert!(fresh.contains("3m ago"), "got: {fresh}");
    assert!(!fresh.contains("OLD"));

    let stale = hud_text(false, 0, false, Some(90));
    assert!(stale.contains("RADAR 90m OLD"), "got: {stale}");
}

#[test]
fn no_radar_frame_yet_claims_no_age_at_all() {
    let none = hud_text(false, 0, false, None);
    assert!(!none.contains("ago"), "got: {none}");
    assert!(!none.contains("OLD"), "got: {none}");
}

#[test]
fn stale_feed_states_plainly_that_warnings_are_not_arriving() {
    let text = hud_text(true, 420, false, None);
    assert!(text.contains("NOT BEING WARNED"), "got: {text}");
    assert!(text.contains("420"));
}

fn active(event: &str, tier: ThreatTier, motion: bool) -> ActiveAlert {
    let text = |s: &str| vec![ParamValue::Text(s.to_string())];
    let mut parameters = vec![
        Parameter { name: "maxWindGust".to_string(), values: text("70 MPH") },
        Parameter { name: "tornadoDetection".to_string(), values: text("OBSERVED") },
    ];
    if motion {
        parameters
            .push(Parameter { name: "eventMotionDescription".to_string(), values: text("m") });
    }
    ActiveAlert {
        alert: Alert::from_feature(Feature {
            geometry: None,
            properties: Properties {
                id: None,
                event: event.to_string(),
                certainty: None,
                headline: Some("Take cover now".to_string()),
                instruction: None,
                area_desc: Some("Davidson, TN".to_string()),
                expires: Some("2026-08-03T00:15:00Z".to_string()),
                parameters,
            },
        }),
        tier,
    }
}

#[test]
fn graver_alerts_come_first_and_the_border_follows_them() {
    let watch = active("Tornado Watch", ThreatTier::Watch, false);
    let warning = active("Tornado Warning", ThreatTier::Lethal, true);
    let entry = |a| HudEntry { active: a, inside: false, eta_minutes: None, motion_observed: None };
    let mut hud = quiet();
    hud.active = vec![entry(&watch), entry(&warning)];
    assert_eq!(hud.alert_order(), vec![1, 0]);
    assert_eq!(hud.border(), tier_color(ThreatTier::Lethal));
    let text = joined(&hud.lines());
    assert!(text.find("Tornado Warning").unwrap() < text.find("Tornado Watch").unwrap(), "{text}");
    assert!(!text.contains("no active warnings"), "{text}");
    assert!(text.contains("19:15 CDT"), "the end of the warning, in the zone of home: {text}");
}

#[test]
fn an_arrival_is_told_in_minutes() {
    let warning = active("Tornado Warning", ThreatTier::Lethal, true);
    let mut hud = quiet();
    hud.active = vec![HudEntry {
        active: &warning,
        inside: true,
        eta_minutes: Some(12),
        motion_observed: Some(now()),
    }];
    let text = joined(&hud.lines());
    assert!(text.contains("12"), "{text}");
}

#[test]
fn temperatures_are_coloured_at_their_limits() {
    let style = |f: f32| {
        let c = shown(&Report { temp_f: Some(f), ..BLANK });
        conditions_lines(&c, COLD.to_bits(), HOT.to_bits(), now())[0].spans[1].style.fg
    };
    assert_eq!(style(32.0), (100, 160, 255));
    assert_eq!(style(95.0), (255, 90, 80));
    assert_eq!(style(70.0), (140, 140, 150));
}

#[test]
fn a_cell_looks_as_grave_as_it_is() {
    let all = [
        CellThreat::Strong,
        CellThreat::Intense,
        CellThreat::Hail,
        CellThreat::Rotation,
        CellThreat::Debris,
    ];
    for a in all {
        for b in all {
            assert_eq!(threat_rgb(a) == threat_rgb(b), a == b);
        }
    }
}
