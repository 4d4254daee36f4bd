use weatui::radar::hrrr::ForecastStep;
use weatui::time::Stamp;
use weatui::tui::horizon::{upcoming, Batch, ForecastHorizon, MAX_FORECAST_FRAMES};

/// How late cycles are published, in minutes. The first is the ideal that never happens.
const CYCLE_AGES: [i64; 5] = [0, 35, 65, 95, 125];

#[test]
fn the_default_horizon_is_two_hours_at_quarter_hour_steps() {
    let steps = ForecastHorizon::Near.steps(0);
    assert_eq!(steps.len(), 8);
    assert_eq!(steps.first().unwrap().lead_minutes(), 15);
    assert_eq!(steps.last().unwrap().lead_minutes(), 120);
}

#[test]
fn an_aged_cycle_still_delivers_a_full_two_hour_horizon() {
    for age in CYCLE_AGES {
        let steps = ForecastHorizon::Near.steps(age);
        assert_eq!(
            steps.len(),
            8,
            "a cycle {} minutes old collapsed the horizon to {} frames",
            age,
            steps.len()
        );
        assert!(
            steps.iter().all(|s| s.lead_minutes() > age),
            "every step must still be ahead of now for a {}-minute-old cycle",
            age
        );
    }
}

#[test]
fn every_horizon_has_strictly_increasing_distinct_leads() {
    for age in CYCLE_AGES {
        for horizon in [ForecastHorizon::Near, ForecastHorizon::Mid, ForecastHorizon::Long] {
            let leads: Vec<i64> = horizon
                .steps(age)
                .iter()
                .map(|s| s.lead_minutes())
                .collect();
            assert!(!leads.is_empty(), "{horizon:?} produced no steps at age {age}");
            assert!(
                leads.windows(2).all(|w| w[0] < w[1]),
                "{horizon:?} leads not increasing at age {age}: {leads:?}"
            );
        }
    }
}

#[test]
fn no_horizon_exceeds_the_reserved_ring_headroom() {
    for age in CYCLE_AGES {
        for horizon in [ForecastHorizon::Near, ForecastHorizon::Mid, ForecastHorizon::Long] {
            let n = horizon.steps(age).len();
            assert!(
                n <= MAX_FORECAST_FRAMES,
                "{horizon:?} needs {n} frames at age {age} but {MAX_FORECAST_FRAMES} are reserved"
            );
        }
    }
}

#[test]
fn a_negative_cycle_age_is_treated_as_a_fresh_cycle() {
    let steps = ForecastHorizon::Near.steps(-30);
    assert_eq!(steps.first().unwrap().lead_minutes(), 15);
}

#[test]
fn horizons_cycle_back_to_the_start() {
    let mut h = ForecastHorizon::Near;
    for _ in 0..3 {
        h = h.next();
    }
    assert_eq!(h, ForecastHorizon::Near);
}

#[test]
fn horizon_labels_are_distinct() {
    let labels: Vec<&str> = [ForecastHorizon::Near, ForecastHorizon::Mid, ForecastHorizon::Long]
        .iter()
        .map(|h| h.label())
        .collect();
    assert_eq!(labels.len(), 3);
    assert_ne!(labels[0], labels[1]);
    assert_ne!(labels[1], labels[2]);
}

#[test]
fn steps_already_past_are_left_out() {
    let cycle = Stamp { secs: 0, nanos: 0 };
    let steps: Vec<ForecastStep> = [15, 30, 45].iter().map(|m| ForecastStep::new(*m)).collect();
    let left = upcoming(cycle, &steps, Stamp { secs: 1800, nanos: 0 });
    assert_eq!(left.len(), 1);
    assert_eq!(left[0].lead_minutes(), 45);
    assert_eq!(upcoming(cycle, &steps, Stamp { secs: 1799, nanos: 999_999_999 }).len(), 2);
}

#[test]
fn only_the_first_frame_of_a_batch_clears_the_old_ones() {
    let mut b = Batch::new();
    assert!(b.frame());
    assert!(!b.frame());
    assert!(!b.frame());
}

#[test]
fn the_mid_horizon_turns_hourly_after_the_quarters() {
    let leads: Vec<i64> =
        ForecastHorizon::Mid.steps(0).iter().map(|s| s.lead_minutes()).collect();
    assert_eq!(leads[..8], [15, 30, 45, 60, 75, 90, 105, 120]);
    assert!(leads[8..].iter().all(|m| m % 60 == 0 && *m > 120));
}
