use weatui::alert::poll::{
    alerts_url, backoff_secs, parse_max_age, AnswerStep, PollError, PollOutcome, Poller,
    MAX_BACKOFF_SECS, USER_AGENT,
};
use weatui::alert::{AlertCollection, Feature, Properties};

fn poller(base: u64) -> Poller {
    Poller::new("35.0000", "-97.0000", base)
}

fn feature(event: &str) -> Feature {
    Feature {
        geometry: None,
        properties: Properties {
            id: None,
            event: event.to_string(),
            certainty: None,
            headline: None,
            instruction: None,
            area_desc: None,
            expires: None,
            parameters: Vec::new(),
        },
    }
}

#[test]
fn a15_user_agent_carries_contact_information() {
    assert!(USER_AGENT.contains('@'), "no contact address: {USER_AGENT}");
    assert!(USER_AGENT.starts_with("weatui"));
}

#[test]
fn a9_max_age_is_read_from_the_live_header_form() {
    assert_eq!(parse_max_age("public, max-age=4, s-maxage=5"), Some(4));
    assert_eq!(parse_max_age("max-age=30"), Some(30));
    assert_eq!(parse_max_age("no-cache"), None);
    assert_eq!(parse_max_age(""), None);
    assert_eq!(parse_max_age("max-age=notanumber"), None);
}

#[test]
fn url_pins_the_point_query_to_four_decimals() {
    let (lat, lon) = (35.205661_f64, -97.442738_f64);
    let u = alerts_url(&format!("{lat:.4}"), &format!("{lon:.4}"));
    assert_eq!(u, "https://api.weather.gov/alerts/active?point=35.2057,-97.4427");
}

#[test]
fn backoff_grows_then_saturates() {
    assert_eq!(backoff_secs(0, 5), 5);
    assert_eq!(backoff_secs(1, 5), 10);
    assert_eq!(backoff_secs(2, 5), 20);
    assert_eq!(backoff_secs(3, 5), 40);
    assert_eq!(backoff_secs(20, 5), MAX_BACKOFF_SECS);
}

#[test]
fn healthy_poller_waits_at_least_the_configured_interval() {
    assert_eq!(poller(5).next_delay(), 5);
}

#[test]
fn server_max_age_below_configured_interval_does_not_speed_up_polling() {
    let mut p = poller(10);
    p.server_max_age = Some(4);
    assert_eq!(p.next_delay(), 10);
}

#[test]
fn failures_switch_the_delay_to_backoff() {
    let mut p = poller(5);
    p.consecutive_failures = 3;
    assert_eq!(p.next_delay(), 40);
}

#[test]
fn the_servers_own_lifetime_is_honoured_where_it_is_longer() {
    let mut p = poller(5);
    assert!(matches!(
        p.answered(200, String::new(), Some("public, max-age=60".to_string())),
        AnswerStep::ReadBody
    ));
    assert_eq!(p.server_max_age, Some(60));
    assert_eq!(p.next_delay(), 60);
    assert!(matches!(p.answered(304, String::new(), None), AnswerStep::Unchanged));
    assert_eq!(p.server_max_age, None);
    assert_eq!(p.next_delay(), 5);
}

#[test]
fn every_kind_of_failure_is_counted_until_an_answer_comes() {
    let mut p = poller(5);
    assert_eq!(p.unreachable("dns".to_string()).message(), "alert request failed: dns");
    assert_eq!(p.consecutive_failures, 1);
    match p.answered(429, String::new(), None) {
        AnswerStep::Failed(e) => {
            assert_eq!(e.message(), "api.weather.gov rate limited the request")
        }
        other => panic!("{other:?}"),
    }
    match p.answered(503, "503 down".to_string(), None) {
        AnswerStep::Failed(e) => {
            assert_eq!(e.message(), "alert request returned an error status: 503 down")
        }
        other => panic!("{other:?}"),
    }
    assert_eq!(p.consecutive_failures, 3);
    assert_eq!(p.next_delay(), 40);
    assert!(matches!(p.answered(200, String::new(), None), AnswerStep::ReadBody));
    assert_eq!(p.consecutive_failures, 3, "nothing is settled before the body is read");
    assert!(p.read(None, Err("eof".to_string())).is_err());
    assert_eq!(p.consecutive_failures, 4);
    assert_eq!(p.next_delay(), 80);
    assert!(matches!(p.answered(304, String::new(), None), AnswerStep::Unchanged));
    assert_eq!(p.consecutive_failures, 0);
}

#[test]
fn an_answer_that_cannot_be_read_makes_the_poller_back_off() {
    let mut p = poller(5);
    for delay in [10, 20, 40, 80, 160, 300, 300] {
        p.answered(200, String::new(), Some("max-age=4".to_string()));
        assert!(p.read(None, Err("html".to_string())).is_err());
        assert_eq!(p.next_delay(), delay);
    }
    p.answered(200, String::new(), Some("max-age=9".to_string()));
    assert!(p.read(None, Ok(AlertCollection { features: Vec::new() })).is_ok());
    assert_eq!(p.next_delay(), 9);
}

#[test]
fn a_tag_is_kept_only_with_a_body_that_could_be_read() {
    let mut p = poller(5);
    let bad = p.read(Some("\"v1\"".to_string()), Err("eof".to_string()));
    match bad {
        Err(PollError::Body(e)) => assert_eq!(e, "eof"),
        other => panic!("{other:?}"),
    }
    assert_eq!(p.etag, None);
    let good = AlertCollection { features: vec![feature("A"), feature("B")] };
    match p.read(Some("\"v2\"".to_string()), Ok(good)) {
        Ok(PollOutcome::Updated(alerts)) => {
            let events: Vec<&str> =
                alerts.iter().map(|a| a.properties.event.as_str()).collect();
            assert_eq!(events, vec!["A", "B"]);
        }
        other => panic!("{other:?}"),
    }
    assert_eq!(p.etag.as_deref(), Some("\"v2\""));
    assert_eq!(
        PollError::Body("eof".to_string()).message(),
        "alert response was not the expected GeoJSON: eof"
    );
}

#[test]
fn the_first_directive_that_can_be_read_counts() {
    assert_eq!(parse_max_age(" max-age=x , max-age= 7 "), Some(7));
    assert_eq!(parse_max_age("s-maxage=5"), None);
    assert_eq!(parse_max_age("max-age=18446744073709551616"), None);
    assert_eq!(parse_max_age("max-age=18446744073709551615"), Some(u64::MAX));
}

#[test]
fn backoff_never_overflows() {
    assert_eq!(backoff_secs(16, 1), 300);
    assert_eq!(backoff_secs(u32::MAX, u64::MAX), 300);
    assert_eq!(backoff_secs(0, u64::MAX), u64::MAX);
    assert_eq!(backoff_secs(5, 0), 0);
}
