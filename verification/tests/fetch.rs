use weatui::radar::fetch::{
    archive_time, arrange, column_value, echo_top, newest_volumes, observed_at,
    recent_archive_ids, supports, tilt_value, vil_layers, wants_yesterday, Gate, Tilt,
    TiltReading,
};
use weatui::radar::RadarProduct;
use weatui::time::Stamp;

fn bits(v: f32) -> u32 {
    v.to_bits()
}

fn gate(v: f32) -> Option<Gate> {
    Some(Gate { value: bits(v), valid: true })
}

fn cut(v: f32, cc: f32) -> TiltReading {
    TiltReading { value: gate(v), correlation: gate(cc) }
}

const LEAST: f32 = 0.90;

#[test]
fn a_gate_that_nothing_vouches_for_is_masked() {
    let read = |r: TiltReading| tilt_value(RadarProduct::Reflectivity, r, true, bits(LEAST));
    assert_eq!(read(cut(40.0, 0.95)), Some(bits(40.0)));
    assert_eq!(read(cut(40.0, 0.90)), Some(bits(40.0)));
    assert_eq!(read(cut(40.0, 0.80)), None);
    assert_eq!(read(TiltReading { value: gate(40.0), correlation: None }), None);
    let unsure = Some(Gate { value: bits(0.99), valid: false });
    assert_eq!(read(TiltReading { value: gate(40.0), correlation: unsure }), None);
    assert_eq!(read(TiltReading { value: unsure, correlation: gate(0.99) }), None);
}

#[test]
fn without_dual_polarisation_nothing_is_masked() {
    let r = TiltReading { value: gate(40.0), correlation: None };
    assert_eq!(tilt_value(RadarProduct::Reflectivity, r, false, bits(LEAST)), Some(bits(40.0)));
    assert_eq!(tilt_value(RadarProduct::Velocity, r, true, bits(LEAST)), Some(bits(40.0)));
}

#[test]
fn the_column_is_reduced_as_the_product_asks() {
    let cuts = vec![
        TiltReading { value: None, correlation: None },
        cut(20.0, 0.99),
        cut(50.0, 0.99),
        cut(60.0, 0.10),
    ];
    let read = |p| column_value(p, &cuts, true, bits(LEAST));
    assert_eq!(read(RadarProduct::Reflectivity), Some(bits(50.0)));
    assert_eq!(read(RadarProduct::Velocity), Some(bits(20.0)));
    assert_eq!(column_value(RadarProduct::Velocity, &Vec::new(), true, bits(LEAST)), None);
}

#[test]
fn the_echo_top_is_the_highest_cut_with_echo() {
    let cuts = vec![cut(30.0, 0.99), cut(18.0, 0.99), cut(17.9, 0.99)];
    let heights = vec![bits(1.0), bits(4.0), bits(9.0)];
    assert_eq!(echo_top(&cuts, &heights, true, bits(LEAST)), Some(bits(4.0)));
    assert_eq!(vil_layers(&cuts, true, bits(LEAST)), Some(vec![0, 1, 2]));
    assert_eq!(vil_layers(&vec![cut(30.0, 0.99)], true, bits(LEAST)), None);
}

fn tilt(elevation: f32, correlation: bool) -> Tilt {
    Tilt {
        elevation: bits(elevation),
        velocity: false,
        correlation,
        differential_reflectivity: false,
        spectrum_width: false,
    }
}

#[test]
fn cuts_are_arranged_from_the_lowest() {
    let tilts = vec![tilt(2.4, true), tilt(0.5, false), tilt(0.9, true)];
    let a = arrange(&tilts).unwrap();
    assert_eq!(a.order, vec![1, 2, 0]);
    assert!(a.dual_pol);
    assert_eq!(a.lowest_elevation, bits(0.9), "the mask lets nothing of the lowest through");
    assert!(arrange(&Vec::new()).is_none());
    assert!(supports(&tilts, RadarProduct::EchoTop));
    assert!(supports(&tilts, RadarProduct::Reflectivity));
    assert!(supports(&tilts, RadarProduct::CorrelationCoefficient));
    assert!(!supports(&tilts, RadarProduct::Velocity));
    assert!(!supports(&vec![tilt(0.5, true)], RadarProduct::VerticallyIntegratedLiquid));
}

#[test]
fn the_name_of_an_archived_volume_tells_its_moment() {
    let t = archive_time("KTLX20130520_195603_V06").unwrap();
    assert_eq!(t, Stamp { secs: 1_369_079_763, nanos: 0 });
    assert_eq!(archive_time("not a volume"), None);
}

fn names(list: &[&str]) -> Vec<String> {
    list.iter().map(|s| s.to_string()).collect()
}

#[test]
fn the_newest_volumes_are_listed_oldest_first() {
    let today = names(&["KTLX20130520_000102_V06", "KTLX20130520_000602_V06"]);
    let yesterday = names(&[
        "KTLX20130519_235000_V06",
        "KTLX20130519_235500_V06",
        "KTLX20130519_235500_V06_MDM",
    ]);
    assert!(wants_yesterday(today.len(), 3));
    assert!(!wants_yesterday(today.len(), 2));
    assert_eq!(
        recent_archive_ids(&today, &yesterday, 3),
        names(&[
            "KTLX20130519_235500_V06",
            "KTLX20130520_000102_V06",
            "KTLX20130520_000602_V06"
        ])
    );
    assert_eq!(
        recent_archive_ids(&today, &yesterday, 1),
        names(&["KTLX20130520_000602_V06"])
    );
    assert_eq!(newest_volumes(&today, &vec![true, false], 5), names(&[today[0].as_str()]));
}

#[test]
fn the_name_is_believed_before_the_scan_and_the_clock() {
    let s = |secs: i64| Stamp { secs, nanos: 0 };
    assert_eq!(observed_at(Some(s(1)), Some(s(2)), s(3)), s(1));
    assert_eq!(observed_at(None, Some(s(2)), s(3)), s(2));
    assert_eq!(observed_at(None, None, s(3)), s(3));
}

#[test]
fn the_first_of_equal_tops_is_kept() {
    let cuts = vec![cut(30.0, 0.99), cut(30.0, 0.99)];
    let top = |a: f32, b: f32| {
        echo_top(&cuts, &vec![bits(a), bits(b)], true, bits(LEAST)).map(f32::from_bits)
    };
    assert!(top(-0.0, 0.0).unwrap().is_sign_negative());
    assert!(top(0.0, -0.0).unwrap().is_sign_positive());
    assert!(top(f32::NAN, 4.0).unwrap().is_nan(), "nothing is greater than what is no number");
    assert_eq!(top(4.0, f32::NAN), Some(4.0));
}
