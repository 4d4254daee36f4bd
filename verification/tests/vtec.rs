use weatui::alert::vtec::{VtecAction, VtecCode, VtecError};

#[test]
fn a5_parses_the_live_sample_from_api_weather_gov() {
    let v = VtecCode::parse("/O.NEW.KDLH.SV.W.0087.260727T0700Z-260727T0800Z/").unwrap();
    assert_eq!(v.product_class, 'O');
    assert_eq!(v.action, VtecAction::New);
    assert_eq!(v.office, "KDLH");
    assert_eq!(v.phenomenon, "SV");
    assert_eq!(v.significance, 'W');
    assert_eq!(v.etn, 87);
    assert_eq!(v.phenomenon_significance(), "SV.W");
    assert!(v.is_operational());
}

#[test]
fn parses_the_second_live_sample() {
    let v = VtecCode::parse("/O.NEW.KAKQ.SV.W.0201.260727T0729Z-260727T0815Z/").unwrap();
    assert_eq!(v.office, "KAKQ");
    assert_eq!(v.etn, 201);
    assert_eq!(v.phenomenon_significance(), "SV.W");
}

#[test]
fn tornado_warning_key_is_distinguishable() {
    let v = VtecCode::parse("/O.NEW.KTLX.TO.W.0012.260727T0700Z-260727T0730Z/").unwrap();
    assert_eq!(v.phenomenon_significance(), "TO.W");
    assert!(v.action.is_first_issuance());
}

#[test]
fn continuation_is_not_a_first_issuance() {
    let v = VtecCode::parse("/O.CON.KTLX.TO.W.0012.260727T0700Z-260727T0730Z/").unwrap();
    assert!(!v.action.is_first_issuance());
    assert!(!v.action.terminates_event());
}

#[test]
fn cancel_expire_and_upgrade_all_terminate() {
    for action in ["CAN", "EXP", "UPG"] {
        let raw = format!("/O.{action}.KTLX.TO.W.0012.260727T0700Z-260727T0730Z/");
        assert!(
            VtecCode::parse(&raw).unwrap().action.terminates_event(),
            "{action} should terminate"
        );
    }
}

#[test]
fn event_key_is_stable_across_actions() {
    let new = VtecCode::parse("/O.NEW.KTLX.TO.W.0012.260727T0700Z-260727T0730Z/").unwrap();
    let con = VtecCode::parse("/O.CON.KTLX.TO.W.0012.260727T0705Z-260727T0730Z/").unwrap();
    assert_eq!(new.event_key(), con.event_key());
}

#[test]
fn different_etn_is_a_different_event() {
    let a = VtecCode::parse("/O.NEW.KTLX.TO.W.0012.260727T0700Z-260727T0730Z/").unwrap();
    let b = VtecCode::parse("/O.NEW.KTLX.TO.W.0013.260727T0700Z-260727T0730Z/").unwrap();
    assert_ne!(a.event_key(), b.event_key());
}

#[test]
fn vtec_malformed_input_errors_and_never_panics() {
    for bad in [
        "",
        "/",
        "garbage",
        "/O.NEW.KDLH/",
        "/O.XXX.KDLH.SV.W.0087.260727T0700Z-260727T0800Z/",
        "/O.NEW.KDLH.SVR.W.0087.260727T0700Z-260727T0800Z/",
        "/O.NEW.KDLH.SV.W.notanumber.260727T0700Z-260727T0800Z/",
        "/O.NEW..SV.W.0087.260727T0700Z-260727T0800Z/",
    ] {
        assert!(VtecCode::parse(bad).is_err(), "expected Err for {bad:?}");
    }
}

#[test]
fn parse_all_skips_unparseable_lines_such_as_h_vtec() {
    let raws = vec![
        "/O.NEW.KDLH.SV.W.0087.260727T0700Z-260727T0800Z/".to_string(),
        "/00000000T0000Z-000000T0000Z/00/NN/0.0/".to_string(),
    ];
    let parsed = VtecCode::parse_all(&raws);
    assert_eq!(parsed.len(), 1);
    assert_eq!(parsed[0].phenomenon_significance(), "SV.W");
}

#[test]
fn each_fault_of_a_code_has_its_own_error() {
    let cases = [
        ("/O.NEW.KDLH/", VtecError::FieldCount(3)),
        ("/OO.NEW.KDLH.SV.W.0087.x/", VtecError::ProductClass),
        ("/.NEW.KDLH.SV.W.0087.x/", VtecError::ProductClass),
        ("/O.NEW..SV.W.0087.x/", VtecError::Office),
        ("/O.NEW.KDLH.SVR.W.0087.x/", VtecError::Phenomenon),
        ("/O.NEW.KDLH.SV.WW.0087.x/", VtecError::Significance),
        ("/O.NEW.KDLH.SV.W.65536.x/", VtecError::TrackingNumber),
        ("/O.NEW.KDLH.SV.W.-1.x/", VtecError::TrackingNumber),
        ("/O.NEW.KDLH.SV.W..x/", VtecError::TrackingNumber),
        ("/O.new.KDLH.SV.W.0087.x/", VtecError::Action),
    ];
    for (raw, want) in cases {
        assert_eq!(VtecCode::parse(raw).unwrap_err(), want, "{raw}");
    }
}

#[test]
fn white_space_slashes_and_a_plus_sign_do_not_count() {
    let v = VtecCode::parse("  //O.UPG.KTLX.TO.W.+65535.x//\r\n").unwrap();
    assert_eq!(v.etn, 65535);
    assert_eq!(v.action, VtecAction::Upg);
    assert_eq!(v.key_text(), "KTLX.TO.W.65535");
}

#[test]
fn every_action_code_is_known() {
    let cases = [
        ("NEW", VtecAction::New),
        ("CON", VtecAction::Con),
        ("EXT", VtecAction::Ext),
        ("EXA", VtecAction::Exa),
        ("EXB", VtecAction::Exb),
        ("UPG", VtecAction::Upg),
        ("CAN", VtecAction::Can),
        ("EXP", VtecAction::Exp),
        ("COR", VtecAction::Cor),
        ("ROU", VtecAction::Rou),
    ];
    for (code, want) in cases {
        assert_eq!(VtecAction::parse(code), Ok(want));
    }
    assert_eq!(VtecAction::parse("NEWS"), Err(VtecError::Action));
}

#[test]
fn codes_on_several_lines_of_one_text_are_all_read() {
    let raws = vec![
        "/O.CAN.KTLX.TO.A.0012.a-b/\n/O.NEW.KTLX.TO.W.0013.a-b/".to_string(),
        "nothing\n/O.EXP.KTLX.SV.W.0014.a-b/".to_string(),
    ];
    let parsed = VtecCode::parse_all(&raws);
    let etns: Vec<u16> = parsed.iter().map(|v| v.etn).collect();
    assert_eq!(etns, vec![12, 13, 14]);
}

#[test]
fn significance_belongs_to_the_key() {
    let warning = VtecCode::parse("/O.NEW.KTLX.TO.W.0012.a-b/").unwrap();
    let watch = VtecCode::parse("/O.NEW.KTLX.TO.A.0012.a-b/").unwrap();
    assert_ne!(warning.event_key(), watch.event_key());
    assert_eq!(warning.key_text(), "KTLX.TO.W.12");
    assert_eq!(watch.key_text(), "KTLX.TO.A.12");
}
