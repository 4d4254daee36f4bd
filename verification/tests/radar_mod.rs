use weatui::radar::{ColumnReduction, DbzGrid, RadarProduct};

fn bits(v: f32) -> u32 {
    v.to_bits()
}

#[test]
fn ordinary_readings_are_not_notable_enough_to_cover_the_base() {
    for (product, ordinary) in [
        (RadarProduct::Reflectivity, 20.0),
        (RadarProduct::Velocity, 5.0),
        (RadarProduct::Velocity, -5.0),
        (RadarProduct::CorrelationCoefficient, 0.99),
        (RadarProduct::DifferentialReflectivity, 0.5),
        (RadarProduct::SpectrumWidth, 2.0),
        (RadarProduct::EchoTop, 4.0),
        (RadarProduct::VerticallyIntegratedLiquid, 5.0),
    ] {
        assert!(!product.is_notable(bits(ordinary)), "{product:?} at {ordinary}");
    }
}

#[test]
fn diagnostic_readings_are_notable() {
    for (product, diagnostic) in [
        (RadarProduct::Reflectivity, 55.0),
        (RadarProduct::Velocity, 35.0),
        (RadarProduct::Velocity, -35.0),
        (RadarProduct::CorrelationCoefficient, 0.4),
        (RadarProduct::DifferentialReflectivity, 5.0),
        (RadarProduct::DifferentialReflectivity, -2.0),
        (RadarProduct::SpectrumWidth, 9.0),
        (RadarProduct::EchoTop, 12.0),
        (RadarProduct::VerticallyIntegratedLiquid, 45.0),
    ] {
        assert!(product.is_notable(bits(diagnostic)), "{product:?} at {diagnostic}");
    }
}

/// Velocity is signed, so a threshold applied to the raw value rather than
/// its magnitude would show outbound rotation and hide inbound.
#[test]
fn velocity_notability_is_symmetric_about_zero() {
    for speed in [15.0f32, 20.0, 25.0, 60.0] {
        assert_eq!(
            RadarProduct::Velocity.is_notable(bits(speed)),
            RadarProduct::Velocity.is_notable(bits(-speed)),
            "{speed} m/s"
        );
    }
}

/// The dual-pol and Doppler moments describe the near-ground
/// air, so reducing them over the whole column reports a gate kilometres
/// above the one being asked about.
#[test]
fn near_ground_moments_read_the_lowest_cut() {
    for product in [
        RadarProduct::CorrelationCoefficient,
        RadarProduct::Velocity,
        RadarProduct::DifferentialReflectivity,
    ] {
        assert_eq!(product.reduction(), ColumnReduction::LowestCut, "{product:?}");
    }
}

#[test]
fn new_grid_is_entirely_empty() {
    let g = DbzGrid::new(4, 6);
    assert_eq!(g.populated_cells(), 0);
    assert_eq!(g.value_range(), None);
    assert_eq!(g.get(0, 0), None);
}

#[test]
fn set_and_get_round_trip() {
    let mut g = DbzGrid::new(4, 6);
    g.set(2, 3, Some(bits(45.5)));
    assert_eq!(g.get(2, 3), Some(bits(45.5)));
    assert_eq!(g.populated_cells(), 1);
}

#[test]
fn out_of_bounds_access_is_none_rather_than_a_panic() {
    let mut g = DbzGrid::new(4, 6);
    g.set(99, 99, Some(bits(10.0)));
    assert_eq!(g.get(99, 99), None);
    assert_eq!(g.get(4, 0), None);
    assert_eq!(g.get(0, 6), None);
    assert_eq!(g.populated_cells(), 0);
}

#[test]
fn value_range_spans_only_populated_cells() {
    let mut g = DbzGrid::new(3, 3);
    g.set(0, 0, Some(bits(10.0)));
    g.set(1, 1, Some(bits(60.0)));
    g.set(2, 2, Some(bits(35.0)));
    assert_eq!(g.value_range(), Some((bits(10.0), bits(60.0))));
}

#[test]
fn the_thresholds_of_notability_are_inclusive() {
    let cases = [
        (RadarProduct::Reflectivity, 35.0_f32, 34.999),
        (RadarProduct::Velocity, -20.0, -19.999),
        (RadarProduct::CorrelationCoefficient, 0.8999, 0.90),
        (RadarProduct::DifferentialReflectivity, 3.0, 2.999),
        (RadarProduct::DifferentialReflectivity, -1.001, -1.0),
        (RadarProduct::SpectrumWidth, 6.0, 5.999),
        (RadarProduct::EchoTop, 9.0, 8.999),
        (RadarProduct::VerticallyIntegratedLiquid, 25.0, 24.999),
    ];
    for (product, yes, no) in cases {
        assert!(product.is_notable(bits(yes)), "{product:?} at {yes}");
        assert!(!product.is_notable(bits(no)), "{product:?} at {no}");
    }
}

#[test]
fn every_product_has_its_words() {
    let words = [
        (RadarProduct::Reflectivity, "reflectivity", "dBZ"),
        (RadarProduct::Velocity, "velocity", "m/s"),
        (RadarProduct::CorrelationCoefficient, "corr coeff", ""),
        (RadarProduct::DifferentialReflectivity, "diff refl", "dB"),
        (RadarProduct::EchoTop, "echo top", "km"),
    ];
    for (product, label, units) in words {
        assert_eq!((product.label(), product.units()), (label, units));
    }
}

#[test]
fn a_reading_of_no_number_spans_nothing() {
    let mut g = DbzGrid::new(2, 1);
    g.set(0, 0, Some(bits(f32::NAN)));
    assert_eq!(g.populated_cells(), 1);
    g.set(1, 0, Some(bits(-4.0)));
    assert_eq!(g.value_range(), Some((bits(-4.0), bits(-4.0))));
    g.set(1, 0, None);
    assert_eq!(g.get(1, 0), None);
}
