use weatui::alert::filter::ThreatTier;
use weatui::alert::state::Notification;
use weatui::config::{NotifyLevels, Scripts, Urgency};
use weatui::notify::{
    body_for, build_args, damage_threat_banner, delivery_outcome, dispatch, script_env, send,
    send_gap_recovery, send_stale_warning, summary_for, tiers_with_no_working_channel, urgency_for,
};

fn test_notification(tier: ThreatTier) -> Notification {
    Notification {
        key: "test".to_string(),
        tier,
        event: "Tornado Warning".into(),
        headline: Some("Tornado Warning until 9:15 PM".into()),
        area: Some("Hickman County".into()),
        instruction: None,
        damage_threat: None,
        tornado_detection: None,
    }
}

fn notification(tier: ThreatTier, event: &str) -> Notification {
    Notification {
        key: "KTLX.TO.W.12".to_string(),
        tier,
        event: event.to_string(),
        headline: Some("Tornado Warning until 3:15 PM CDT".to_string()),
        area: Some("Cleveland, OK".to_string()),
        instruction: None,
        damage_threat: None,
        tornado_detection: None,
    }
}

#[test]
fn a12_lethal_and_severe_map_to_critical_urgency() {
    let levels = NotifyLevels::default();
    assert_eq!(urgency_for(ThreatTier::Lethal, &levels), Urgency::Critical);
    assert_eq!(urgency_for(ThreatTier::Severe, &levels), Urgency::Critical);
}

#[test]
fn watch_tier_maps_to_normal_urgency() {
    assert_eq!(
        urgency_for(ThreatTier::Watch, &NotifyLevels::default()),
        Urgency::Normal
    );
}

#[test]
fn a12_critical_urgency_reaches_the_notify_send_command_line() {
    let args = build_args("s", "b", Urgency::Critical);
    let joined = args.join(" ");
    assert!(joined.contains("-u critical"), "got: {joined}");
    assert!(joined.contains("-a weatui"));
}

#[test]
fn summary_leads_with_the_threat_tier() {
    let s = summary_for(&notification(ThreatTier::Lethal, "Tornado Warning"));
    assert!(s.starts_with("[LETHAL]"), "got: {s}");
    assert!(s.contains("Tornado Warning"));
}

#[test]
fn body_includes_eta_when_a_motion_vector_was_available() {
    let b = body_for(&notification(ThreatTier::Lethal, "Tornado Warning"), Some(11));
    assert!(b.contains("11 min"), "got: {b}");
}

#[test]
fn a_tornado_emergency_does_not_read_like_a_routine_warning() {
    let routine = notification(ThreatTier::Lethal, "Tornado Warning");
    let mut emergency = routine.clone();
    emergency.damage_threat = Some("CATASTROPHIC".to_string());

    let a = body_for(&routine, Some(12));
    let b = body_for(&emergency, Some(12));
    assert_ne!(a, b, "an emergency must not notify identically to a warning");
    assert!(b.contains("TORNADO EMERGENCY"), "got: {b}");
}

#[test]
fn a_pds_and_an_observed_tornado_reach_the_notification_body() {
    let mut n = notification(ThreatTier::Lethal, "Tornado Warning");
    n.damage_threat = Some("CONSIDERABLE".to_string());
    n.tornado_detection = Some("OBSERVED".to_string());
    let b = body_for(&n, None);
    assert!(b.contains("PARTICULARLY DANGEROUS SITUATION"), "got: {b}");
    assert!(b.contains("Tornado observed"), "got: {b}");
}

#[test]
fn the_shelter_instruction_reaches_the_notification_body() {
    let mut n = notification(ThreatTier::Lethal, "Tornado Warning");
    n.instruction = Some("TAKE COVER NOW! Move to a basement.".to_string());
    assert!(body_for(&n, None).contains("TAKE COVER NOW"));
}

#[test]
fn the_critical_tier_asks_the_daemon_for_a_sound() {
    let critical = build_args("s", "b", Urgency::Critical).join(" ");
    assert!(critical.contains("sound-name"), "got: {critical}");
    let normal = build_args("s", "b", Urgency::Normal).join(" ");
    assert!(!normal.contains("sound-name"), "got: {normal}");
}

#[test]
fn a_stale_feed_reaches_the_tier_script_not_just_the_desktop() {
    let scripts =
        Scripts { lethal: Some("/opt/hook.sh".to_string()), severe: None, watch: None };
    let run = send_stale_warning(420, &scripts).script.unwrap();
    assert_eq!(run.script, "/opt/hook.sh");
    let event = run.env.iter().find(|v| v.name == "WEATUI_EVENT").map(|v| v.value.as_str());
    assert_eq!(
        format!("{} {}", run.tier, event.unwrap()),
        "LETHAL ALERT FEED STALE",
        "a setup of scripts alone must still learn that the feed died"
    );
}

#[test]
fn body_falls_back_to_the_event_name_when_nothing_else_is_present() {
    let n = Notification {
        key: "k".to_string(),
        tier: ThreatTier::Severe,
        event: "Special Weather Statement".to_string(),
        headline: None,
        area: None,
        instruction: None,
        damage_threat: None,
        tornado_detection: None,
    };
    assert_eq!(body_for(&n, None), "Special Weather Statement");
}

#[test]
fn notification_body_is_plain_ascii_for_daemon_font_safety() {
    let b = body_for(&notification(ThreatTier::Lethal, "Tornado Warning"), Some(5));
    assert!(b.is_ascii(), "non-ascii would risk tofu in mako: {b}");
}

#[test]
fn stale_warning_states_plainly_that_warnings_are_not_arriving() {
    let args = build_args(
        "[weatui] ALERT FEED STALE",
        "No successful poll of api.weather.gov for 5 min.\nYou are NOT being warned about severe weather right now.",
        Urgency::Critical,
    );
    assert!(args.join(" ").contains("NOT being warned"));
}

#[test]
fn a_none_level_skips_the_desktop_daemon_entirely() {
    let levels = NotifyLevels {
        lethal: Urgency::Silent,
        severe: Urgency::Silent,
        watch: Urgency::Silent,
    };
    let n = test_notification(ThreatTier::Lethal);
    assert!(send(&n, &levels, Some(12)).is_none(), "notify-send must not be attempted");
}

#[test]
fn the_script_environment_carries_the_whole_alert() {
    let env = script_env(&test_notification(ThreatTier::Lethal), Some(12));
    let get = |k: &str| env.iter().find(|v| v.name == k).map(|v| v.value.as_str());
    assert_eq!(get("WEATUI_TIER"), Some("LETHAL"));
    assert_eq!(get("WEATUI_EVENT"), Some("Tornado Warning"));
    assert_eq!(get("WEATUI_HEADLINE"), Some("Tornado Warning until 9:15 PM"));
    assert_eq!(get("WEATUI_AREA"), Some("Hickman County"));
    assert_eq!(get("WEATUI_ETA_MINUTES"), Some("12"));
}

#[test]
fn missing_fields_become_empty_strings_not_absent_variables() {
    let mut n = test_notification(ThreatTier::Watch);
    n.headline = None;
    n.area = None;
    let env = script_env(&n, None);
    let get = |k: &str| env.iter().find(|v| v.name == k).map(|v| v.value.as_str());
    assert_eq!(get("WEATUI_HEADLINE"), Some(""));
    assert_eq!(get("WEATUI_ETA_MINUTES"), Some(""));
}

#[test]
fn dispatch_runs_the_tier_script() {
    let silent = NotifyLevels {
        lethal: Urgency::Silent,
        severe: Urgency::Silent,
        watch: Urgency::Silent,
    };
    let scripts =
        Scripts { lethal: Some("/opt/hook.sh".to_string()), severe: None, watch: None };
    let d = dispatch(&test_notification(ThreatTier::Lethal), &silent, &scripts, Some(7));
    assert!(d.desktop.is_none());
    let run = d.script.unwrap();
    let get = |k: &str| run.env.iter().find(|v| v.name == k).map(|v| v.value.as_str());
    assert_eq!(run.script, "/opt/hook.sh");
    assert_eq!(run.event, "Tornado Warning");
    assert_eq!(
        format!(
            "{} {} {}",
            run.tier,
            get("WEATUI_EVENT").unwrap(),
            get("WEATUI_ETA_MINUTES").unwrap()
        ),
        "LETHAL Tornado Warning 7"
    );
}

#[test]
fn a_missing_script_fails_loudly_without_touching_the_notification() {
    let silent = NotifyLevels {
        lethal: Urgency::Silent,
        severe: Urgency::Silent,
        watch: Urgency::Silent,
    };
    let scripts = Scripts {
        lethal: Some("/nonexistent/weatui-hook".into()),
        severe: None,
        watch: None,
    };
    let d = dispatch(&test_notification(ThreatTier::Lethal), &silent, &scripts, None);
    let failure = Err(format!("{}: no such file", d.script.unwrap().script));
    let err = delivery_outcome(Ok(()), failure).unwrap_err();
    assert!(err.contains("/nonexistent/weatui-hook"), "{err}");
}

#[test]
fn a_tier_without_a_script_dispatches_cleanly() {
    let silent = NotifyLevels {
        lethal: Urgency::Silent,
        severe: Urgency::Silent,
        watch: Urgency::Silent,
    };
    let n = test_notification(ThreatTier::Severe);
    let d = dispatch(&n, &silent, &Scripts::default(), None);
    assert!(d.desktop.is_none() && d.script.is_none());
    assert!(delivery_outcome(Ok(()), Ok(())).is_ok());
}

#[test]
fn the_body_tells_the_gravest_facts_first() {
    let mut n = notification(ThreatTier::Lethal, "Tornado Warning");
    n.damage_threat = Some("catastrophic".to_string());
    n.tornado_detection = Some("RADAR INDICATED".to_string());
    n.instruction = Some("Take cover.".to_string());
    assert_eq!(
        body_for(&n, Some(-3)),
        "TORNADO EMERGENCY\nTornado radar indicated\nTornado Warning until 3:15 PM CDT\n\
         Cleveland, OK\nEstimated arrival in -3 min\nTake cover."
    );
    assert_eq!(summary_for(&n), "[LETHAL] Tornado Warning");
    assert_eq!(damage_threat_banner("minor"), "Damage threat: MINOR");
}

#[test]
fn the_whole_command_line_is_fixed() {
    assert_eq!(
        build_args("s", "b", Urgency::Critical),
        vec!["-u", "critical", "-a", "weatui", "-h", "string:sound-name:alarm-clock-elapsed", "s", "b"]
    );
    assert_eq!(build_args("s", "b", Urgency::Low), vec!["-u", "low", "-a", "weatui", "s", "b"]);
    let n = notification(ThreatTier::Watch, "Tornado Watch");
    assert_eq!(
        send(&n, &NotifyLevels::default(), None).unwrap()[..5],
        ["-u", "normal", "-a", "weatui", "[WATCH] Tornado Watch"]
    );
}

#[test]
fn a_stale_feed_is_announced_whatever_the_levels() {
    let d = send_stale_warning(420, &Scripts::default());
    assert!(d.script.is_none());
    let args = d.desktop.unwrap();
    assert_eq!(args[1], "critical");
    assert_eq!(args[6], "[weatui] ALERT FEED STALE");
    assert_eq!(
        args[7],
        "No successful poll of api.weather.gov for 7 min.\n\
         You are NOT being warned about severe weather right now."
    );
}

#[test]
fn both_failures_of_a_delivery_are_told() {
    let e = |s: &str| Err(s.to_string());
    assert_eq!(delivery_outcome(e("a"), e("b")).unwrap_err(), "a; b");
    assert_eq!(delivery_outcome(e("a"), Ok(())).unwrap_err(), "a");
    assert_eq!(delivery_outcome(Ok(()), e("b")).unwrap_err(), "b");
}

#[test]
fn a_silenced_tier_without_a_script_that_runs_reaches_no_one() {
    let levels = NotifyLevels {
        lethal: Urgency::Silent,
        severe: Urgency::Low,
        watch: Urgency::Silent,
    };
    assert_eq!(tiers_with_no_working_channel(&levels, false, false, false), vec!["LETHAL", "WATCH"]);
    assert_eq!(tiers_with_no_working_channel(&levels, true, false, false), vec!["WATCH"]);
    assert!(tiers_with_no_working_channel(&levels, true, true, true).is_empty());
}

#[test]
fn a_script_finds_everything_that_the_body_tells() {
    let mut n = test_notification(ThreatTier::Lethal);
    n.damage_threat = Some("CATASTROPHIC".to_string());
    n.tornado_detection = Some("OBSERVED".to_string());
    n.instruction = Some("Take cover.".to_string());
    let env = script_env(&n, Some(12));
    let pairs: Vec<(&str, &str)> =
        env.iter().map(|v| (v.name.as_str(), v.value.as_str())).collect();
    assert_eq!(
        pairs,
        vec![
            ("WEATUI_TIER", "LETHAL"),
            ("WEATUI_EVENT", "Tornado Warning"),
            ("WEATUI_HEADLINE", "Tornado Warning until 9:15 PM"),
            ("WEATUI_AREA", "Hickman County"),
            ("WEATUI_ETA_MINUTES", "12"),
            ("WEATUI_DAMAGE_THREAT", "CATASTROPHIC"),
            ("WEATUI_TORNADO_DETECTION", "OBSERVED"),
            ("WEATUI_INSTRUCTION", "Take cover."),
        ]
    );
    let bare = script_env(&test_notification(ThreatTier::Watch), None);
    assert!(bare[4..].iter().all(|v| v.value.is_empty()));
}

#[test]
fn the_end_of_a_gap_goes_to_both_channels() {
    let scripts = Scripts { lethal: Some("/opt/hook.sh".to_string()), severe: None, watch: None };
    let d = send_gap_recovery(10_800, &NotifyLevels::default(), &scripts);
    let args = d.desktop.unwrap();
    assert_eq!(args[6], "[LETHAL] ALERT FEED RECOVERED");
    assert_eq!(
        args[7],
        "No poll of api.weather.gov succeeded for 180 min.\n\
         A warning that was issued and expired in that time was not delivered."
    );
    let run = d.script.unwrap();
    assert_eq!((run.tier, run.event.as_str()), ("LETHAL", "ALERT FEED RECOVERED"));
    let silent = NotifyLevels {
        lethal: Urgency::Silent,
        severe: Urgency::Critical,
        watch: Urgency::Critical,
    };
    let quiet = send_gap_recovery(10_800, &silent, &Scripts::default());
    assert!(quiet.desktop.is_none() && quiet.script.is_none());
}
