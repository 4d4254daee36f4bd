use weatui::config::Colormap;
use weatui::radar::RadarProduct;
use weatui::render::colormap::{
    dbz_shade, product_shade, sample, sample_clamped, Shade, Stop, NO_DATA,
};
use weatui::render::Rgb;

const MIN_ECHO_LUMINANCE: f32 = 55.0;

const ALL: [RadarProduct; 7] = [
    RadarProduct::Reflectivity,
    RadarProduct::Velocity,
    RadarProduct::CorrelationCoefficient,
    RadarProduct::DifferentialReflectivity,
    RadarProduct::SpectrumWidth,
    RadarProduct::EchoTop,
    RadarProduct::VerticallyIntegratedLiquid,
];

/// The colour of a shade: between two stops, in proportion.
fn rgb(shade: Shade, value: f32) -> Rgb {
    match shade {
        Shade::Flat(c) => c,
        Shade::Between(lo, hi) => {
            let (a, b) = (f32::from_bits(lo.value), f32::from_bits(hi.value));
            let t = ((value - a) / (b - a)).clamp(0.0, 1.0);
            let mix = |x: u8, y: u8| (x as f32 + (y as f32 - x as f32) * t).round() as u8;
            (mix(lo.rgb.0, hi.rgb.0), mix(lo.rgb.1, hi.rgb.1), mix(lo.rgb.2, hi.rgb.2))
        }
    }
}

fn luminance(c: Rgb) -> f32 {
    0.2126 * c.0 as f32 + 0.7152 * c.1 as f32 + 0.0722 * c.2 as f32
}

fn dbz_to_rgb(dbz: f32, map: Colormap) -> Option<Rgb> {
    dbz_shade(dbz.to_bits(), map).map(|s| rgb(s, dbz))
}

fn cell_rgb(dbz: Option<f32>, map: Colormap) -> Rgb {
    dbz.and_then(|v| dbz_to_rgb(v, map)).unwrap_or(NO_DATA)
}

fn product_rgb(value: f32, product: RadarProduct, map: Colormap) -> Option<Rgb> {
    product_shade(value.to_bits(), product, map).map(|s| rgb(s, value))
}

fn product_cell_rgb(value: Option<f32>, product: RadarProduct, map: Colormap) -> Rgb {
    value.and_then(|v| product_rgb(v, product, map)).unwrap_or(NO_DATA)
}

#[test]
fn weak_returns_are_transparent_in_every_map() {
    for map in [Colormap::Threat, Colormap::Nws, Colormap::Mono] {
        assert_eq!(dbz_to_rgb(-20.0, map), None, "{map:?}");
        assert_eq!(dbz_to_rgb(0.0, map), None, "{map:?}");
    }
}

#[test]
fn missing_data_renders_as_background() {
    assert_eq!(cell_rgb(None, Colormap::Threat), NO_DATA);
    assert_eq!(cell_rgb(Some(-30.0), Colormap::Threat), NO_DATA);
}

#[test]
fn extreme_reflectivity_saturates_rather_than_wrapping() {
    for map in [Colormap::Threat, Colormap::Nws, Colormap::Mono] {
        let top = dbz_to_rgb(200.0, map).unwrap();
        let last = dbz_to_rgb(80.0, map).unwrap();
        assert_eq!(top, last, "{map:?} should clamp at the top stop");
    }
}

fn separation(a: Rgb, b: Rgb) -> i32 {
    (a.0 as i32 - b.0 as i32).abs()
        + (a.1 as i32 - b.1 as i32).abs()
        + (a.2 as i32 - b.2 as i32).abs()
}

fn step_separations() -> Vec<(f32, i32)> {
    let mut out = Vec::new();
    let mut previous = dbz_to_rgb(5.0, Colormap::Threat).unwrap();
    for step in 1..14 {
        let dbz = 5.0 + step as f32 * 5.0;
        let current = dbz_to_rgb(dbz, Colormap::Threat).unwrap();
        out.push((dbz, separation(previous, current)));
        previous = current;
    }
    out
}

/// A hue ramp is deliberately not luminance-monotonic: yellow near 40 dBZ
/// is the luminance peak of saturated colour, and red above it is darker.
/// What must hold is that no two adjacent levels collapse together.
#[test]
fn no_two_adjacent_threat_levels_collapse_into_each_other() {
    for (dbz, sep) in step_separations() {
        assert!(sep > 20, "{dbz} dBZ is indistinguishable from the level below: {sep}");
    }
}

/// Ordinary weather never leaves the bottom of the scale, so the faintest
/// echo has to be obviously brighter than empty sky.
#[test]
fn the_faintest_echo_is_clearly_brighter_than_empty_sky() {
    for map in [Colormap::Threat, Colormap::Mono] {
        let l = luminance(dbz_to_rgb(5.0, map).unwrap());
        assert!(
            l >= MIN_ECHO_LUMINANCE,
            "{map:?} 5 dBZ luminance {l} is too close to the {} background",
            luminance(NO_DATA)
        );
    }
}

/// Nws reproduces the published NWS scale, whose whole value is matching
/// what people already recognise, so it is deliberately exempt from the
/// visibility floor the other two obey.
#[test]
fn the_nws_map_is_left_authentic_rather_than_brightened() {
    assert_eq!(dbz_to_rgb(5.0, Colormap::Nws), Some((4, 233, 231)));
    assert_eq!(dbz_to_rgb(75.0, Colormap::Nws), Some((248, 0, 253)));
}

/// Every level in the range ordinary weather actually occupies must be
/// legible, not just technically distinct from its neighbour.
#[test]
fn the_sub_severe_range_stays_legible_throughout() {
    for step in 0..7 {
        let dbz = 5.0 + step as f32 * 5.0;
        let l = luminance(dbz_to_rgb(dbz, Colormap::Threat).unwrap());
        assert!(l >= MIN_ECHO_LUMINANCE, "{dbz} dBZ luminance {l} is too dark");
    }
}

/// Nothing dangerous may be dimmer than the
/// faintest thing on the scale.
#[test]
fn no_severe_level_is_dimmer_than_the_faintest_echo() {
    let floor = luminance(dbz_to_rgb(5.0, Colormap::Threat).unwrap());
    for step in 9..=15 {
        let dbz = step as f32 * 5.0;
        let l = luminance(dbz_to_rgb(dbz, Colormap::Threat).unwrap());
        assert!(
            l >= floor,
            "{dbz} dBZ luminance {l} is below the {floor} of the weakest echo"
        );
    }
}

/// Mono exists precisely for the grayscale and colour-blind case the hue
/// ramp cannot serve, so it must be strictly luminance-monotonic.
#[test]
fn mono_ramp_brightens_monotonically_with_reflectivity() {
    let mut previous = 0.0;
    for step in 0..13 {
        let dbz = 5.0 + step as f32 * 5.0;
        let l = luminance(dbz_to_rgb(dbz, Colormap::Mono).unwrap());
        assert!(l > previous, "luminance fell at {dbz} dBZ: {l} <= {previous}");
        previous = l;
    }
}

#[test]
fn infinite_reflectivity_is_treated_as_no_data() {
    assert!(dbz_to_rgb(f32::INFINITY, Colormap::Threat).is_none());
    assert!(dbz_to_rgb(f32::NEG_INFINITY, Colormap::Threat).is_none());
}

/// The severe threshold must be an obvious visual break, not a gradient.
#[test]
fn threat_ramp_jumps_hard_at_the_fifty_dbz_severe_threshold() {
    let below = dbz_to_rgb(44.0, Colormap::Threat).unwrap();
    let above = dbz_to_rgb(51.0, Colormap::Threat).unwrap();
    let separation = (below.0 as i32 - above.0 as i32).abs()
        + (below.1 as i32 - above.1 as i32).abs()
        + (below.2 as i32 - above.2 as i32).abs();
    assert!(separation > 120, "50 dBZ break too subtle: {separation}");
}

#[test]
fn interpolation_lands_between_its_neighbouring_stops() {
    let lo = dbz_to_rgb(35.0, Colormap::Threat).unwrap();
    let hi = dbz_to_rgb(40.0, Colormap::Threat).unwrap();
    let mid = dbz_to_rgb(37.5, Colormap::Threat).unwrap();
    assert!(mid.0 > lo.0 && mid.0 < hi.0, "{lo:?} {mid:?} {hi:?}");
}

/// Inbound must be green and outbound red. Inverting this reads a storm
/// approaching as one departing, which is the whole point of the product.
#[test]
fn velocity_is_green_inbound_and_red_outbound() {
    let inbound = product_rgb(-30.0, RadarProduct::Velocity, Colormap::Threat).unwrap();
    let outbound = product_rgb(30.0, RadarProduct::Velocity, Colormap::Threat).unwrap();
    assert!(inbound.1 > inbound.0, "inbound should be green-dominant: {inbound:?}");
    assert!(outbound.0 > outbound.1, "outbound should be red-dominant: {outbound:?}");
}

#[test]
fn velocity_near_zero_is_suppressed_so_the_couplet_stands_out() {
    assert_eq!(product_rgb(0.0, RadarProduct::Velocity, Colormap::Threat), None);
    assert_eq!(product_rgb(0.5, RadarProduct::Velocity, Colormap::Threat), None);
    assert!(product_rgb(5.0, RadarProduct::Velocity, Colormap::Threat).is_some());
}

#[test]
fn velocity_beyond_the_scale_clamps_rather_than_vanishing() {
    let extreme = product_rgb(-120.0, RadarProduct::Velocity, Colormap::Threat);
    assert_eq!(extreme, product_rgb(-40.0, RadarProduct::Velocity, Colormap::Threat));
    assert!(extreme.is_some(), "a fast inbound gate is still a measurement");
}

/// Low correlation is the alarming value, not the high one: a collapse
/// under strong reflectivity is lofted debris.
#[test]
fn correlation_puts_the_alarming_colour_at_the_bottom() {
    let debris = product_rgb(0.4, RadarProduct::CorrelationCoefficient, Colormap::Threat)
        .unwrap();
    let rain = product_rgb(0.99, RadarProduct::CorrelationCoefficient, Colormap::Threat)
        .unwrap();
    assert!(debris.0 > debris.2, "low CC should be warm: {debris:?}");
    assert!(rain.2 > rain.0, "high CC should be cool: {rain:?}");
}

#[test]
fn every_product_renders_something_across_its_working_range() {
    for (product, samples) in [
        (RadarProduct::Reflectivity, vec![10.0, 35.0, 60.0]),
        (RadarProduct::Velocity, vec![-30.0, -5.0, 5.0, 30.0]),
        (RadarProduct::CorrelationCoefficient, vec![0.3, 0.85, 0.99]),
        (RadarProduct::DifferentialReflectivity, vec![-1.0, 1.0, 5.0]),
        (RadarProduct::SpectrumWidth, vec![1.0, 5.0, 11.0]),
        (RadarProduct::EchoTop, vec![3.0, 9.0, 15.0]),
        (RadarProduct::VerticallyIntegratedLiquid, vec![5.0, 30.0, 65.0]),
    ] {
        for v in samples {
            assert!(
                product_rgb(v, product, Colormap::Threat).is_some(),
                "{product:?} produced nothing at {v}"
            );
        }
    }
}

#[test]
fn no_product_paints_a_colour_for_a_nan_reading() {
    for product in &ALL {
        assert_eq!(product_rgb(f32::NAN, *product, Colormap::Threat), None, "{product:?}");
        assert_eq!(
            product_cell_rgb(Some(f32::NAN), *product, Colormap::Threat),
            NO_DATA
        );
        assert_eq!(product_cell_rgb(None, *product, Colormap::Threat), NO_DATA);
    }
}

/// Reflectivity is the only product whose ramp is a user preference; the
/// rest encode physical conventions that a setting must not override.
#[test]
fn only_reflectivity_responds_to_the_configured_colormap() {
    let a = product_rgb(30.0, RadarProduct::Reflectivity, Colormap::Threat);
    let b = product_rgb(30.0, RadarProduct::Reflectivity, Colormap::Nws);
    assert_ne!(a, b);

    for product in [RadarProduct::Velocity, RadarProduct::CorrelationCoefficient] {
        let value = if product == RadarProduct::Velocity { 20.0 } else { 0.7 };
        assert_eq!(
            product_rgb(value, product, Colormap::Threat),
            product_rgb(value, product, Colormap::Nws),
            "{product:?} must ignore the colormap setting"
        );
    }
}

/// A clear sky reports echo top 0 m and VIL 0 kg/m2 as real values, not
/// missing data. Painting them would fill every cloudless cell.
#[test]
fn zero_echo_top_and_zero_vil_are_invisible() {
    assert_eq!(product_rgb(0.0, RadarProduct::EchoTop, Colormap::Threat), None);
    assert_eq!(
        product_rgb(-0.999, RadarProduct::EchoTop, Colormap::Threat),
        None,
        "negative RETOP is a missing-value sentinel scaled to km"
    );
    assert_eq!(
        product_rgb(0.0, RadarProduct::VerticallyIntegratedLiquid, Colormap::Threat),
        None
    );
    assert_eq!(
        product_rgb(0.4, RadarProduct::VerticallyIntegratedLiquid, Colormap::Threat),
        None
    );
}

#[test]
fn severe_echo_tops_and_vil_paint_hot_colours() {
    let deep = product_rgb(15.0, RadarProduct::EchoTop, Colormap::Threat).unwrap();
    assert!(deep.0 > deep.2, "a 15 km top should be warm: {deep:?}");
    let hail = product_rgb(65.0, RadarProduct::VerticallyIntegratedLiquid, Colormap::Threat)
        .unwrap();
    assert!(hail.0 > hail.2, "65 kg/m2 is a hail signature and should be warm: {hail:?}");
}

#[test]
fn mono_map_is_grey_at_every_level() {
    for step in 0..13 {
        let c = dbz_to_rgb(5.0 + step as f32 * 5.0, Colormap::Mono).unwrap();
        assert_eq!(c.0, c.1);
        assert_eq!(c.1, c.2);
    }
}

#[test]
fn nan_reflectivity_does_not_panic() {
    assert!(dbz_to_rgb(f32::NAN, Colormap::Threat).is_none());
    assert_eq!(cell_rgb(Some(f32::NAN), Colormap::Threat), NO_DATA);
}

#[test]
fn a_reading_at_a_stop_has_its_colour() {
    assert_eq!(dbz_to_rgb(5.0, Colormap::Threat), Some((46, 88, 140)));
    assert_eq!(dbz_to_rgb(40.0, Colormap::Threat), Some((238, 232, 66)));
    assert_eq!(dbz_to_rgb(10.0, Colormap::Threat), Some((43, 114, 173)));
    assert_eq!(dbz_to_rgb(70.0, Colormap::Threat), Some((255, 255, 255)));
}

#[test]
fn a_reading_below_the_ramp_is_dropped_or_clamped() {
    let stop = |v: f32, c: u8| Stop { value: v.to_bits(), rgb: (c, c, c) };
    let stops = vec![stop(10.0, 1), stop(20.0, 2)];
    let at = |v: f32| sample(&stops, v.to_bits());
    let clamped = |v: f32| sample_clamped(&stops, v.to_bits());
    assert_eq!(at(9.0), None);
    assert_eq!(clamped(9.0).map(|s| rgb(s, 9.0)), Some((1, 1, 1)));
    assert_eq!(at(25.0), Some(Shade::Flat((2, 2, 2))));
    assert_eq!(clamped(25.0).map(|s| rgb(s, 25.0)), Some((2, 2, 2)));
    assert_eq!(clamped(f32::NAN), None);
    assert_eq!(at(15.0), Some(Shade::Between(stops[0], stops[1])));
}
