use weatui::radar::hrrr::{
    cycle_candidates, forecastable, grid_index, latest_cycle, layer_outcome, leads_every,
    range_header, record_byte_range, selector_of, subh_stem, valid_at, ForecastStep, GridTemplate,
    HrrrField, IndexError, Layer, LayerError, LayerOutcome, BUCKET, MAX_LEAD_MINUTES,
};
use weatui::radar::RadarProduct;
use weatui::time::Stamp;

#[test]
fn a_fresh_cycle_gives_two_hours_of_quarter_hourly_steps() {
    let steps = leads_every(15, 0, 120);
    assert_eq!(steps.len(), 8);
    assert_eq!(steps[0].lead_minutes(), 15);
    assert_eq!(steps[7].lead_minutes(), 120);
}

#[test]
fn an_aged_cycle_still_yields_a_full_window_starting_after_now() {
    let age = 95;
    let steps = leads_every(15, age, age + 120);
    assert_eq!(steps.len(), 8, "an old cycle must not shrink the horizon");
    assert!(
        steps.iter().all(|s| s.lead_minutes() > age as i64),
        "every step must be in the future: {:?}",
        steps.iter().map(|s| s.lead_minutes()).collect::<Vec<_>>()
    );
    assert_eq!(steps[0].lead_minutes(), 105, "first step snaps to the next multiple");
}

#[test]
fn leads_are_always_multiples_of_their_interval() {
    for age in [0u16, 1, 7, 14, 15, 16, 59, 95, 121] {
        for interval in [15u16, 60] {
            for step in leads_every(interval, age, age + 360) {
                assert_eq!(
                    step.lead_minutes() % interval as i64,
                    0,
                    "age {age} interval {interval} produced {}",
                    step.lead_minutes()
                );
            }
        }
    }
}

#[test]
fn leads_never_run_past_what_hrrr_publishes() {
    let steps = leads_every(60, 900, 900 + 1080);
    assert!(!steps.is_empty());
    assert!(
        steps.iter().all(|s| s.lead_minutes() <= MAX_LEAD_MINUTES as i64),
        "generated a lead beyond HRRR's range"
    );
    assert_eq!(steps.last().unwrap().lead_minutes(), MAX_LEAD_MINUTES as i64);
}

#[test]
fn a_window_entirely_beyond_the_model_range_is_empty_not_wrapped() {
    assert!(leads_every(60, 1080, 1200).is_empty());
}

#[test]
fn leads_map_onto_the_published_file_layout() {
    for (lead, expected_file) in [
        (15, 1),
        (30, 1),
        (45, 1),
        (60, 1),
        (75, 2),
        (90, 2),
        (120, 2),
        (135, 3),
        (360, 6),
        (1080, 18),
    ] {
        assert_eq!(
            ForecastStep::new(lead).file_hour(),
            expected_file,
            "{lead} min belongs in wrfsubhf{expected_file:02}"
        );
    }
}

#[test]
fn no_lead_ever_resolves_to_the_analysis_file() {
    for lead in [0u16, 1, 15, 59, 60] {
        assert!(
            ForecastStep::new(lead).file_hour() >= 1,
            "wrfsubhf00 is the analysis and carries no forecast"
        );
    }
}

#[test]
fn the_object_key_matches_the_published_layout() {
    let cycle = Stamp { secs: 1_769_774_400, nanos: 0 };
    let stem = subh_stem(cycle, ForecastStep::new(90));
    assert!(stem.starts_with("hrrr."), "got {stem}");
    assert!(stem.contains("/conus/hrrr.t"), "got {stem}");
    assert!(stem.ends_with("wrfsubhf02.grib2"), "got {stem}");
    assert!(
        subh_stem(cycle, ForecastStep::new(15)).ends_with("wrfsubhf01.grib2"),
        "the first quarter-hour lives in f01, not f00"
    );
}

#[test]
fn degenerate_grids_are_an_error() {
    let full = vec![0; 6];
    assert_eq!(HrrrField::decode_layer(&template(), &full), Ok(()));
    for t in [
        GridTemplate { ni: 0, ..template() },
        GridTemplate { nj: 0, ..template() },
        GridTemplate { dx: 0, ..template() },
        GridTemplate { dy: 0, ..template() },
    ] {
        assert_eq!(HrrrField::decode_layer(&t, &full), Err(LayerError::Degenerate), "{t:?}");
    }
}

#[test]
fn the_whole_object_key() {
    let cycle = Stamp { secs: 1_769_774_400, nanos: 0 };
    assert_eq!(
        subh_stem(cycle, ForecastStep::new(90)),
        "hrrr.20260130/conus/hrrr.t12z.wrfsubhf02.grib2"
    );
    assert!(BUCKET.starts_with("https://noaa-hrrr"));
}

const INDEX: &str = "1:0:d=2026013012:REFC:entire atmosphere:15 min fcst:\n\
    2:4711:d=2026013012:RETOP:cloud top:15 min fcst:\n\
    3:x:d=2026013012:VIL:entire atmosphere:15 min fcst:\n\
    4:9000:d=2026013012:REFC:entire atmosphere:30 min fcst:\n";

#[test]
fn a_record_runs_to_the_start_of_the_next() {
    let find = |selector: &str, lead: i64| record_byte_range(INDEX, selector, lead);
    assert_eq!(find("REFC:entire atmosphere", 15), Ok((0, Some(4711))));
    assert_eq!(find("RETOP:cloud top", 15), Ok((4711, None)), "the next offset is no number");
    assert_eq!(find("REFC:entire atmosphere", 30), Ok((9000, None)));
    assert_eq!(find("VIL:entire atmosphere", 15), Err(IndexError::Malformed));
    assert_eq!(find("REFC:entire atmosphere", 5), Err(IndexError::Missing));
    assert_eq!(range_header(0, Some(4711)), "bytes=0-4710");
    assert_eq!(range_header(9000, None), "bytes=9000-");
    assert_eq!(range_header(0, Some(0)), "bytes=0-0");
}

#[test]
fn only_three_products_are_forecast() {
    assert_eq!(
        forecastable(),
        vec![
            RadarProduct::Reflectivity,
            RadarProduct::EchoTop,
            RadarProduct::VerticallyIntegratedLiquid
        ]
    );
    assert_eq!(selector_of(RadarProduct::EchoTop), Some("RETOP:cloud top"));
    assert_eq!(selector_of(RadarProduct::Velocity), None);
}

#[test]
fn a_layer_that_fails_is_left_out_unless_it_is_the_base() {
    assert_eq!(layer_outcome(RadarProduct::EchoTop, false), LayerOutcome::GoWithout);
    assert_eq!(layer_outcome(RadarProduct::Reflectivity, false), LayerOutcome::Abandon);
    assert_eq!(layer_outcome(RadarProduct::EchoTop, true), LayerOutcome::Keep);
}

#[test]
fn the_newest_published_cycle_is_taken() {
    let now = Stamp { secs: 1_769_774_400 + 1_999, nanos: 5 };
    let candidates = cycle_candidates(now);
    let ages: Vec<i64> = candidates.iter().map(|c| 1_769_774_400 - c.secs).collect();
    assert_eq!(ages, vec![3600, 7200, 10800, 14400, 18000, 21600]);
    let published = vec![false, false, true, true, false, true];
    assert_eq!(latest_cycle(&candidates, &published), Some(candidates[2]));
    assert_eq!(latest_cycle(&candidates, &vec![false; 6]), None);
}

fn template() -> GridTemplate {
    GridTemplate {
        lambert: true,
        scanning_mode: 0x40,
        ni: 3,
        nj: 2,
        first_lat: 21_138_123,
        first_lon: 237_280_472,
        lad: 38_500_000,
        lov: 262_500_000,
        latin1: 38_500_000,
        latin2: 38_500_000,
        dx: 3_000_000,
        dy: 3_000_000,
    }
}

#[test]
fn each_fault_of_a_layer_has_its_own_error() {
    let full = vec![0; 6];
    assert_eq!(
        HrrrField::decode_layer(&GridTemplate { lambert: false, ..template() }, &full),
        Err(LayerError::NotLambert)
    );
    assert_eq!(
        HrrrField::decode_layer(&GridTemplate { scanning_mode: 0, ..template() }, &full),
        Err(LayerError::ScanningMode(0))
    );
    assert_eq!(
        HrrrField::decode_layer(&template(), &vec![0; 5]),
        Err(LayerError::ValueCount(5))
    );
}

#[test]
fn cells_are_numbered_row_by_row() {
    assert_eq!(grid_index(3, 2, 0, 0), Some(0));
    assert_eq!(grid_index(3, 2, 2, 1), Some(5));
    for outside in [(3, 0), (0, 2), (-1, 0), (0, -1)] {
        assert_eq!(grid_index(3, 2, outside.0, outside.1), None);
    }
}

#[test]
fn a_value_that_is_no_number_is_absent() {
    let layer = Layer {
        product: RadarProduct::EchoTop,
        values: vec![9.5_f32.to_bits(), f32::NAN.to_bits(), f32::INFINITY.to_bits()],
    };
    let field = HrrrField::from_layers(vec![layer], Stamp { secs: 0, nanos: 0 }, 75);
    assert_eq!(field.label, "HRRR +75min");
    assert!(field.supports(RadarProduct::EchoTop));
    assert!(!field.supports(RadarProduct::Reflectivity));
    assert_eq!(field.raw_value(RadarProduct::EchoTop, 0), Some(9.5_f32.to_bits()));
    for i in [1, 2, 3] {
        assert_eq!(field.raw_value(RadarProduct::EchoTop, i), None);
    }
    assert_eq!(field.raw_value(RadarProduct::Reflectivity, 0), None);
}

#[test]
fn a_lead_beyond_every_file_names_the_last_number() {
    assert_eq!(ForecastStep::new(15_300).file_hour(), 255);
    for lead in [15_301, 15_360, 15_361, u16::MAX] {
        assert_eq!(ForecastStep::new(lead).file_hour(), 255);
    }
    let cycle = Stamp { secs: 1_769_774_400, nanos: 0 };
    assert!(subh_stem(cycle, ForecastStep::new(15_360)).ends_with("wrfsubhf255.grib2"));
}

#[test]
fn a_forecast_is_valid_its_lead_after_its_run() {
    let cycle = Stamp { secs: 1_769_774_400, nanos: 0 };
    assert_eq!(valid_at(cycle, 75), Some(Stamp { secs: 1_769_778_900, nanos: 0 }));
    assert_eq!(valid_at(cycle, 0), Some(cycle));
    assert_eq!(valid_at(cycle, i64::MAX), None);
    let leap = Stamp { secs: 1_483_228_799, nanos: 1_500_000_000 };
    assert_eq!(valid_at(leap, 0), Some(leap));
    assert_eq!(
        valid_at(leap, 15),
        Some(Stamp { secs: 1_483_229_699, nanos: 500_000_000 })
    );
    assert_eq!(
        valid_at(leap, -1),
        Some(Stamp { secs: 1_483_228_740, nanos: 500_000_000 })
    );
}
