use weatui::time::{display_zone, parse_timestamp, Stamp};

fn at(s: &str) -> Stamp {
    parse_timestamp(s).unwrap()
}

#[test]
fn an_offset_is_taken_into_account() {
    assert_eq!(at("2026-07-27T07:00:00Z").secs, 1_785_135_600);
    assert_eq!(at("2026-07-27T02:00:00-05:00"), at("2026-07-27T07:00:00Z"));
    assert_eq!(at("2026-07-27T07:00:00.25Z").nanos, 250_000_000);
    assert_eq!(parse_timestamp("2026-07-27 at seven"), None);
    assert_eq!(parse_timestamp(""), None);
}

#[test]
fn the_date_and_the_hour_are_those_of_utc() {
    let t = at("2026-07-27T23:59:59-05:00");
    assert_eq!(t.date(), "20260728");
    assert_eq!(t.hour(), 4);
    assert_eq!(t.second_of_day(), 4 * 3600 + 59 * 60 + 59);
    assert_eq!(Stamp { secs: -1, nanos: 0 }.second_of_day(), 86_399);
    assert_eq!(Stamp { secs: -1, nanos: 0 }.date(), "19691231");
}

#[test]
fn a_clock_is_shown_in_its_zone() {
    let t = at("2026-07-27T19:05:00Z");
    assert_eq!(t.clock_in("UTC").as_deref(), Some("19:05 UTC"));
    assert_eq!(t.clock_in("America/Chicago").as_deref(), Some("14:05 CDT"));
    assert_eq!(t.clock_in("America/Nowhere"), None);
}

#[test]
fn an_unknown_zone_is_shown_as_utc() {
    assert_eq!(display_zone(Some("America/Chicago".to_string())), "America/Chicago");
    assert_eq!(display_zone(Some("Mars/Olympus".to_string())), "UTC");
    assert_eq!(display_zone(None), "UTC");
}

#[test]
fn elapsed_times_are_cut_toward_zero() {
    let a = Stamp { secs: 0, nanos: 500_000_000 };
    let b = Stamp { secs: 1, nanos: 0 };
    assert_eq!(b.millis_since(&a), 500);
    assert_eq!(a.millis_since(&b), -500);
    let c = Stamp { secs: 120, nanos: 499_999_999 };
    assert_eq!(c.minutes_since(&a), 1);
    assert_eq!(a.minutes_since(&c), 0);
    assert!(a.is_before(&b) && !b.is_before(&a));
}

#[test]
fn a_leap_second_is_counted_once() {
    let leap = at("2016-12-31T23:59:60.500Z");
    assert_eq!(leap.nanos, 1_500_000_000);
    let noon = at("2016-12-31T12:00:00Z");
    assert_eq!(leap.millis_since(&noon), 43_200_500);
    assert_eq!(noon.millis_since(&leap), -43_200_500);
    let late = at("2016-06-30T23:59:59Z");
    let early = Stamp { secs: late.secs - 60, nanos: 1_250_000_000 };
    assert_eq!(late.millis_since(&early), 59_750);
}
