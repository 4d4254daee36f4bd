//! From readings to colours.
//!
//! A reading, the bit pattern of a single, falls on a stop of its palette or between two of
//! them. Mixing the two is left to whoever draws.

use vstd::prelude::*;
use crate::config::Colormap;
#[allow(unused_imports)]
use crate::ieee::{
    above32, at_least32, finite, ge32, gt32, is_finite, magnitude, unsigned,
};
use crate::radar::RadarProduct;
use crate::render::Rgb;

verus! {

/// The colour of an empty pixel.
pub const NO_DATA: Rgb = (0, 0, 0);

/// One stop of a palette.
#[derive(Debug, Clone, Copy, PartialEq, Eq)]
pub struct Stop {
    pub value: u32,
    pub rgb: Rgb,
}

/// What a reading is drawn as.
#[derive(Debug, Clone, Copy, PartialEq, Eq)]
pub enum Shade {
    /// One colour.
    Flat(Rgb),
    /// A mix of two stops, by where the reading lies between them.
    Between(Stop, Stop),
}

/// The palette that is quiet below 35 dBZ and loud above 50, where hail and damaging wind are.
pub open spec fn threat_stops() -> Seq<Stop> {
    seq![
        Stop { value: 0x40A0_0000, rgb: (46, 88, 140) },
        Stop { value: 0x4170_0000, rgb: (40, 140, 205) },
        Stop { value: 0x41C8_0000, rgb: (32, 196, 178) },
        Stop { value: 0x420C_0000, rgb: (74, 222, 92) },
        Stop { value: 0x4220_0000, rgb: (238, 232, 66) },
        Stop { value: 0x4234_0000, rgb: (255, 170, 24) },
        Stop { value: 0x4248_0000, rgb: (255, 60, 60) },
        Stop { value: 0x425C_0000, rgb: (255, 80, 150) },
        Stop { value: 0x4270_0000, rgb: (255, 70, 235) },
        Stop { value: 0x4282_0000, rgb: (195, 130, 255) },
        Stop { value: 0x428C_0000, rgb: (255, 255, 255) },
    ]
}

fn list_threat_stops() -> (r: Vec<Stop>)
    ensures
        r@ == threat_stops(),
{
    let r: Vec<Stop> = vec![
        Stop { value: 0x40A0_0000, rgb: (46, 88, 140) },
        Stop { value: 0x4170_0000, rgb: (40, 140, 205) },
        Stop { value: 0x41C8_0000, rgb: (32, 196, 178) },
        Stop { value: 0x420C_0000, rgb: (74, 222, 92) },
        Stop { value: 0x4220_0000, rgb: (238, 232, 66) },
        Stop { value: 0x4234_0000, rgb: (255, 170, 24) },
        Stop { value: 0x4248_0000, rgb: (255, 60, 60) },
        Stop { value: 0x425C_0000, rgb: (255, 80, 150) },
        Stop { value: 0x4270_0000, rgb: (255, 70, 235) },
        Stop { value: 0x4282_0000, rgb: (195, 130, 255) },
        Stop { value: 0x428C_0000, rgb: (255, 255, 255) },
    ];
    assert(r@ =~= threat_stops());
    r
}

/// The palette of the weather service.
pub open spec fn nws_stops() -> Seq<Stop> {
    seq![
        Stop { value: 0x40A0_0000, rgb: (4, 233, 231) },
        Stop { value: 0x41A0_0000, rgb: (1, 159, 244) },
        Stop { value: 0x41C8_0000, rgb: (3, 0, 244) },
        Stop { value: 0x41F0_0000, rgb: (2, 253, 2) },
        Stop { value: 0x420C_0000, rgb: (1, 197, 1) },
        Stop { value: 0x4220_0000, rgb: (0, 142, 0) },
        Stop { value: 0x4234_0000, rgb: (253, 248, 2) },
        Stop { value: 0x4248_0000, rgb: (229, 188, 0) },
        Stop { value: 0x425C_0000, rgb: (253, 149, 0) },
        Stop { value: 0x4270_0000, rgb: (253, 0, 0) },
        Stop { value: 0x4282_0000, rgb: (212, 0, 0) },
        Stop { value: 0x428C_0000, rgb: (188, 0, 0) },
        Stop { value: 0x4296_0000, rgb: (248, 0, 253) },
    ]
}

fn list_nws_stops() -> (r: Vec<Stop>)
    ensures
        r@ == nws_stops(),
{
    let r: Vec<Stop> = vec![
        Stop { value: 0x40A0_0000, rgb: (4, 233, 231) },
        Stop { value: 0x41A0_0000, rgb: (1, 159, 244) },
        Stop { value: 0x41C8_0000, rgb: (3, 0, 244) },
        Stop { value: 0x41F0_0000, rgb: (2, 253, 2) },
        Stop { value: 0x420C_0000, rgb: (1, 197, 1) },
        Stop { value: 0x4220_0000, rgb: (0, 142, 0) },
        Stop { value: 0x4234_0000, rgb: (253, 248, 2) },
        Stop { value: 0x4248_0000, rgb: (229, 188, 0) },
        Stop { value: 0x425C_0000, rgb: (253, 149, 0) },
        Stop { value: 0x4270_0000, rgb: (253, 0, 0) },
        Stop { value: 0x4282_0000, rgb: (212, 0, 0) },
        Stop { value: 0x428C_0000, rgb: (188, 0, 0) },
        Stop { value: 0x4296_0000, rgb: (248, 0, 253) },
    ];
    assert(r@ =~= nws_stops());
    r
}

/// Grey, for those who cannot tell the hues apart.
pub open spec fn mono_stops() -> Seq<Stop> {
    seq![
        Stop { value: 0x40A0_0000, rgb: (62, 62, 62) },
        Stop { value: 0x428C_0000, rgb: (255, 255, 255) },
    ]
}

fn list_mono_stops() -> (r: Vec<Stop>)
    ensures
        r@ == mono_stops(),
{
    let r: Vec<Stop> = vec![
        Stop { value: 0x40A0_0000, rgb: (62, 62, 62) },
        Stop { value: 0x428C_0000, rgb: (255, 255, 255) },
    ];
    assert(r@ =~= mono_stops());
    r
}

/// Storm depth in km, hot where the tropopause is near.
pub open spec fn echo_top_stops() -> Seq<Stop> {
    seq![
        Stop { value: 0x4000_0000, rgb: (60, 90, 150) },
        Stop { value: 0x40A0_0000, rgb: (60, 150, 200) },
        Stop { value: 0x4100_0000, rgb: (90, 200, 140) },
        Stop { value: 0x4130_0000, rgb: (230, 220, 70) },
        Stop { value: 0x4160_0000, rgb: (255, 130, 40) },
        Stop { value: 0x4190_0000, rgb: (255, 70, 70) },
    ]
}

fn list_echo_top_stops() -> (r: Vec<Stop>)
    ensures
        r@ == echo_top_stops(),
{
    let r: Vec<Stop> = vec![
        Stop { value: 0x4000_0000, rgb: (60, 90, 150) },
        Stop { value: 0x40A0_0000, rgb: (60, 150, 200) },
        Stop { value: 0x4100_0000, rgb: (90, 200, 140) },
        Stop { value: 0x4130_0000, rgb: (230, 220, 70) },
        Stop { value: 0x4160_0000, rgb: (255, 130, 40) },
        Stop { value: 0x4190_0000, rgb: (255, 70, 70) },
    ];
    assert(r@ =~= echo_top_stops());
    r
}

/// Liquid water in the column, in kg/m2.
pub open spec fn vil_stops() -> Seq<Stop> {
    seq![
        Stop { value: 0x3F80_0000, rgb: (55, 80, 140) },
        Stop { value: 0x4120_0000, rgb: (60, 160, 190) },
        Stop { value: 0x41C8_0000, rgb: (110, 205, 120) },
        Stop { value: 0x4220_0000, rgb: (235, 225, 80) },
        Stop { value: 0x425C_0000, rgb: (255, 140, 45) },
        Stop { value: 0x428C_0000, rgb: (255, 65, 65) },
    ]
}

fn list_vil_stops() -> (r: Vec<Stop>)
    ensures
        r@ == vil_stops(),
{
    let r: Vec<Stop> = vec![
        Stop { value: 0x3F80_0000, rgb: (55, 80, 140) },
        Stop { value: 0x4120_0000, rgb: (60, 160, 190) },
        Stop { value: 0x41C8_0000, rgb: (110, 205, 120) },
        Stop { value: 0x4220_0000, rgb: (235, 225, 80) },
        Stop { value: 0x425C_0000, rgb: (255, 140, 45) },
        Stop { value: 0x428C_0000, rgb: (255, 65, 65) },
    ];
    assert(r@ =~= vil_stops());
    r
}

/// Toward the radar green, away from it red.
pub open spec fn velocity_stops() -> Seq<Stop> {
    seq![
        Stop { value: 0xC220_0000, rgb: (0, 255, 120) },
        Stop { value: 0xC1C8_0000, rgb: (0, 200, 90) },
        Stop { value: 0xC120_0000, rgb: (0, 130, 60) },
        Stop { value: 0xC000_0000, rgb: (40, 60, 50) },
        Stop { value: 0x4000_0000, rgb: (60, 45, 45) },
        Stop { value: 0x4120_0000, rgb: (150, 50, 40) },
        Stop { value: 0x41C8_0000, rgb: (220, 60, 50) },
        Stop { value: 0x4220_0000, rgb: (255, 120, 110) },
    ]
}

fn list_velocity_stops() -> (r: Vec<Stop>)
    ensures
        r@ == velocity_stops(),
{
    let r: Vec<Stop> = vec![
        Stop { value: 0xC220_0000, rgb: (0, 255, 120) },
        Stop { value: 0xC1C8_0000, rgb: (0, 200, 90) },
        Stop { value: 0xC120_0000, rgb: (0, 130, 60) },
        Stop { value: 0xC000_0000, rgb: (40, 60, 50) },
        Stop { value: 0x4000_0000, rgb: (60, 45, 45) },
        Stop { value: 0x4120_0000, rgb: (150, 50, 40) },
        Stop { value: 0x41C8_0000, rgb: (220, 60, 50) },
        Stop { value: 0x4220_0000, rgb: (255, 120, 110) },
    ];
    assert(r@ =~= velocity_stops());
    r
}

/// Low correlation is the alarming end.
pub open spec fn correlation_stops() -> Seq<Stop> {
    seq![
        Stop { value: 0x3E4C_CCCD, rgb: (255, 40, 40) },
        Stop { value: 0x3F19_999A, rgb: (255, 140, 40) },
        Stop { value: 0x3F4C_CCCD, rgb: (230, 220, 60) },
        Stop { value: 0x3F66_6666, rgb: (90, 160, 200) },
        Stop { value: 0x3F78_51EC, rgb: (60, 110, 190) },
        Stop { value: 0x3F86_6666, rgb: (40, 70, 150) },
    ]
}

fn list_correlation_stops() -> (r: Vec<Stop>)
    ensures
        r@ == correlation_stops(),
{
    let r: Vec<Stop> = vec![
        Stop { value: 0x3E4C_CCCD, rgb: (255, 40, 40) },
        Stop { value: 0x3F19_999A, rgb: (255, 140, 40) },
        Stop { value: 0x3F4C_CCCD, rgb: (230, 220, 60) },
        Stop { value: 0x3F66_6666, rgb: (90, 160, 200) },
        Stop { value: 0x3F78_51EC, rgb: (60, 110, 190) },
        Stop { value: 0x3F86_6666, rgb: (40, 70, 150) },
    ];
    assert(r@ =~= correlation_stops());
    r
}

/// Differential reflectivity in dB.
pub open spec fn differential_stops() -> Seq<Stop> {
    seq![
        Stop { value: 0xC000_0000, rgb: (80, 80, 160) },
        Stop { value: 0x0000_0000, rgb: (70, 110, 180) },
        Stop { value: 0x3F80_0000, rgb: (80, 200, 130) },
        Stop { value: 0x4020_0000, rgb: (230, 220, 70) },
        Stop { value: 0x4080_0000, rgb: (240, 140, 50) },
        Stop { value: 0x40C0_0000, rgb: (240, 60, 60) },
    ]
}

fn list_differential_stops() -> (r: Vec<Stop>)
    ensures
        r@ == differential_stops(),
{
    let r: Vec<Stop> = vec![
        Stop { value: 0xC000_0000, rgb: (80, 80, 160) },
        Stop { value: 0x0000_0000, rgb: (70, 110, 180) },
        Stop { value: 0x3F80_0000, rgb: (80, 200, 130) },
        Stop { value: 0x4020_0000, rgb: (230, 220, 70) },
        Stop { value: 0x4080_0000, rgb: (240, 140, 50) },
        Stop { value: 0x40C0_0000, rgb: (240, 60, 60) },
    ];
    assert(r@ =~= differential_stops());
    r
}

/// Spectrum width in m/s.
pub open spec fn spectrum_width_stops() -> Seq<Stop> {
    seq![
        Stop { value: 0x0000_0000, rgb: (40, 60, 80) },
        Stop { value: 0x4040_0000, rgb: (60, 140, 170) },
        Stop { value: 0x40C0_0000, rgb: (200, 200, 80) },
        Stop { value: 0x4110_0000, rgb: (240, 120, 50) },
        Stop { value: 0x4140_0000, rgb: (250, 60, 60) },
    ]
}

fn list_spectrum_width_stops() -> (r: Vec<Stop>)
    ensures
        r@ == spectrum_width_stops(),
{
    let r: Vec<Stop> = vec![
        Stop { value: 0x0000_0000, rgb: (40, 60, 80) },
        Stop { value: 0x4040_0000, rgb: (60, 140, 170) },
        Stop { value: 0x40C0_0000, rgb: (200, 200, 80) },
        Stop { value: 0x4110_0000, rgb: (240, 120, 50) },
        Stop { value: 0x4140_0000, rgb: (250, 60, 60) },
    ];
    assert(r@ =~= spectrum_width_stops());
    r
}

/// The shade of a reading among the stops from `k` on, where it is no less than stop `k`.
pub open spec fn shade_from(stops: Seq<Stop>, value: u32, k: int) -> Shade
    decreases stops.len() - k,
{
    if k + 1 >= stops.len() {
        Shade::Flat(stops.last().rgb)
    } else if gt32(stops[k + 1].value, value) {
        Shade::Between(stops[k], stops[k + 1])
    } else {
        shade_from(stops, value, k + 1)
    }
}

/// The shade of a reading on a palette below which there is nothing to draw. A reading that is
/// no finite number is not drawn: it would pass every comparison and paint a false extreme.
pub open spec fn sampled(stops: Seq<Stop>, value: u32) -> Option<Shade> {
    if !finite(value) || gt32(stops[0].value, value) {
        None
    } else {
        Some(shade_from(stops, value, 0))
    }
}

/// The shade of a reading on a palette whose lowest stop covers everything below it.
pub open spec fn sampled_clamped(stops: Seq<Stop>, value: u32) -> Option<Shade> {
    if !finite(value) {
        None
    } else if ge32(stops[0].value, value) {
        Some(Shade::Flat(stops[0].rgb))
    } else {
        Some(shade_from(stops, value, 0))
    }
}

fn shade(stops: &Vec<Stop>, value: u32) -> (r: Shade)
    requires
        stops@.len() > 0,
    ensures
        r == shade_from(stops@, value, 0),
{
    let n: usize = stops.len();
    let mut k: usize = 0;
    while k < n - 1
        invariant
            n == stops@.len(),
            k < n,
            shade_from(stops@, value, k as int) == shade_from(stops@, value, 0),
        decreases stops@.len() - k,
    {
        if above32(stops[k + 1].value, value) {
            return Shade::Between(stops[k], stops[k + 1]);
        }
        k += 1;
    }
    Shade::Flat(stops[stops.len() - 1].rgb)
}

/// The shade of a reading on a palette below which there is nothing to draw.
pub fn sample(stops: &Vec<Stop>, value: u32) -> (r: Option<Shade>)
    requires
        stops@.len() > 0,
    ensures
        r == sampled(stops@, value),
{
    if !is_finite(value) || above32(stops[0].value, value) {
        return None;
    }
    Some(shade(stops, value))
}

/// The shade of a reading on a palette whose lowest stop covers everything below it.
pub fn sample_clamped(stops: &Vec<Stop>, value: u32) -> (r: Option<Shade>)
    requires
        stops@.len() > 0,
    ensures
        r == sampled_clamped(stops@, value),
{
    if !is_finite(value) {
        return None;
    }
    if at_least32(stops[0].value, value) {
        return Some(Shade::Flat(stops[0].rgb));
    }
    Some(shade(stops, value))
}

/// The palette that was chosen for reflectivity.
pub open spec fn reflectivity_stops(map: Colormap) -> Seq<Stop> {
    match map {
        Colormap::Threat => threat_stops(),
        Colormap::Nws => nws_stops(),
        Colormap::Mono => mono_stops(),
    }
}

/// The shade of a reflectivity; none means that there is no echo, which is drawn as
/// background and not as a dark colour.
pub fn dbz_shade(dbz: u32, map: Colormap) -> (r: Option<Shade>)
    ensures
        r == sampled(reflectivity_stops(map), dbz),
{
    let stops = match map {
        Colormap::Threat => list_threat_stops(),
        Colormap::Nws => list_nws_stops(),
        Colormap::Mono => list_mono_stops(),
    };
    sample(&stops, dbz)
}

/// The shade of a reading. Reflectivity has the chosen palette; the other moments have
/// conventions that a preference must not override. A velocity below 1 m/s is not drawn, and
/// an echo top or an amount of liquid below its palette means that there is no storm.
pub open spec fn shade_of(value: u32, product: RadarProduct, map: Colormap) -> Option<Shade> {
    match product {
        RadarProduct::Reflectivity => sampled(reflectivity_stops(map), value),
        RadarProduct::Velocity => if gt32(0x3F80_0000, magnitude(value)) {
            None
        } else {
            sampled_clamped(velocity_stops(), value)
        },
        RadarProduct::CorrelationCoefficient => sampled_clamped(correlation_stops(), value),
        RadarProduct::DifferentialReflectivity => sampled_clamped(differential_stops(), value),
        RadarProduct::SpectrumWidth => sampled_clamped(spectrum_width_stops(), value),
        RadarProduct::EchoTop => sampled(echo_top_stops(), value),
        RadarProduct::VerticallyIntegratedLiquid => sampled(vil_stops(), value),
    }
}

pub fn product_shade(value: u32, product: RadarProduct, map: Colormap) -> (r: Option<Shade>)
    ensures
        r == shade_of(value, product, map),
{
    match product {
        RadarProduct::Reflectivity => dbz_shade(value, map),
        RadarProduct::Velocity => {
            if above32(0x3F80_0000, unsigned(value)) {
                None
            } else {
                sample_clamped(&list_velocity_stops(), value)
            }
        },
        RadarProduct::CorrelationCoefficient => sample_clamped(&list_correlation_stops(), value),
        RadarProduct::DifferentialReflectivity => sample_clamped(&list_differential_stops(), value),
        RadarProduct::SpectrumWidth => sample_clamped(&list_spectrum_width_stops(), value),
        RadarProduct::EchoTop => sample(&list_echo_top_stops(), value),
        RadarProduct::VerticallyIntegratedLiquid => sample(&list_vil_stops(), value),
    }
}

/// The palette that is set governs reflectivity alone: the others keep the colours that their
/// readings are known by.
pub proof fn law_setting_governs_reflectivity_alone(
    value: u32,
    product: RadarProduct,
    a: Colormap,
    b: Colormap,
)
    requires
        !(product is Reflectivity),
    ensures
        shade_of(value, product, a) == shade_of(value, product, b),
{
}

/// A reading that is no finite number is never drawn, whatever the product.
pub proof fn law_corrupt_readings_are_not_drawn(value: u32, product: RadarProduct, map: Colormap)
    requires
        !finite(value),
    ensures
        shade_of(value, product, map) is None,
{
}

/// Whether the stops of a palette stand in order, none twice.
pub open spec fn rises(stops: Seq<Stop>) -> bool {
    forall|i: int, j: int|
        0 <= i < j < stops.len() ==> gt32((#[trigger] stops[j]).value, (#[trigger] stops[i]).value)
}

/// The stops of every palette rise.
pub proof fn law_palettes_rise(map: Colormap)
    ensures
        rises(reflectivity_stops(map)),
        rises(velocity_stops()),
        rises(correlation_stops()),
        rises(differential_stops()),
        rises(spectrum_width_stops()),
        rises(echo_top_stops()),
        rises(vil_stops()),
{
}

proof fn lemma_shade_from(stops: Seq<Stop>, value: u32, k: int)
    requires
        rises(stops),
        0 <= k < stops.len(),
        finite(value),
        !gt32(stops[k].value, value),
        forall|i: int| 0 <= i < stops.len() ==> finite((#[trigger] stops[i]).value),
    ensures
        shade_from(stops, value, k) matches Shade::Between(lo, hi) ==> ge32(value, lo.value) && gt32(
            hi.value,
            value,
        ) && exists|i: int|
            0 <= i < stops.len() - 1 && lo == #[trigger] stops[i] && hi == stops[i + 1],
        shade_from(stops, value, k) matches Shade::Flat(rgb) ==> ge32(value, stops.last().value)
            && rgb == stops.last().rgb,
        ge32(value, stops.last().value) ==> shade_from(stops, value, k) is Flat,
    decreases stops.len() - k,
{
    assert(finite(stops[k].value));
    if k + 1 < stops.len() {
        assert(finite(stops[k + 1].value));
        assert(finite(stops[stops.len() - 1].value));
        if k + 1 < stops.len() - 1 {
            assert(gt32(stops[stops.len() - 1].value, stops[k + 1].value));
        }
        if !gt32(stops[k + 1].value, value) {
            lemma_shade_from(stops, value, k + 1);
        }
    }
}

/// A reading is mixed from the two neighbouring stops that it lies between, and has the colour of
/// the last stop from there on. Below the first stop it is not drawn, or has that stop's colour
/// where the palette covers what lies below it.
pub proof fn law_reading_lies_between_its_stops(stops: Seq<Stop>, value: u32)
    requires
        rises(stops),
        stops.len() > 0,
        finite(value),
        forall|i: int| 0 <= i < stops.len() ==> finite((#[trigger] stops[i]).value),
    ensures
        sampled(stops, value) is None <==> gt32(stops[0].value, value),
        sampled_clamped(stops, value) is Some,
        ge32(stops[0].value, value) ==> sampled_clamped(stops, value) == Some(
            Shade::Flat(stops[0].rgb),
        ),
        gt32(value, stops[0].value) ==> sampled_clamped(stops, value) == sampled(stops, value),
        ge32(value, stops.last().value) ==> sampled(stops, value) == Some(
            Shade::Flat(stops.last().rgb),
        ),
        ge32(value, stops[0].value) && gt32(stops.last().value, value) ==> {
            &&& sampled(stops, value) matches Some(Shade::Between(lo, hi))
            &&& ge32(value, lo.value)
            &&& gt32(hi.value, value)
            &&& exists|i: int|
                0 <= i < stops.len() - 1 && lo == #[trigger] stops[i] && hi == stops[i + 1]
        },
{
    assert(finite(stops[0].value));
    assert(finite(stops[stops.len() - 1].value));
    if !gt32(stops[0].value, value) {
        lemma_shade_from(stops, value, 0);
    }
}

/// What is drawn at all: reflectivity from 5 dBZ, a velocity of 1 m/s either way, a top from 2 km,
/// liquid from 1 kg/m2, and every finite reading of the other products.
pub proof fn law_what_is_drawn(value: u32, map: Colormap)
    requires
        finite(value),
    ensures
        shade_of(value, RadarProduct::Reflectivity, map) is Some <==> ge32(value, 0x40A0_0000),
        shade_of(value, RadarProduct::Velocity, map) is Some <==> ge32(
            magnitude(value),
            0x3F80_0000,
        ),
        shade_of(value, RadarProduct::EchoTop, map) is Some <==> ge32(value, 0x4000_0000),
        shade_of(value, RadarProduct::VerticallyIntegratedLiquid, map) is Some <==> ge32(
            value,
            0x3F80_0000,
        ),
        shade_of(value, RadarProduct::CorrelationCoefficient, map) is Some,
        shade_of(value, RadarProduct::DifferentialReflectivity, map) is Some,
        shade_of(value, RadarProduct::SpectrumWidth, map) is Some,
{
}

/// From where on a product has the colour of its last stop: 70 dBZ, or 75 in the palette of the
/// weather service, 40 m/s, a correlation of 1.05, 6 dB, a width of 12 m/s, 18 km, 70 kg/m2.
pub proof fn law_where_the_palettes_end(value: u32, map: Colormap)
    requires
        finite(value),
    ensures
        shade_of(value, RadarProduct::Reflectivity, map) matches Some(Shade::Flat(_)) ==> ge32(
            value,
            if map is Nws {
                0x4296_0000
            } else {
                0x428C_0000
            },
        ),
        ge32(value, 0x4220_0000) ==> shade_of(value, RadarProduct::Velocity, map) == Some(
            Shade::Flat((255, 120, 110)),
        ),
        ge32(0xC220_0000, value) ==> shade_of(value, RadarProduct::Velocity, map) == Some(
            Shade::Flat((0, 255, 120)),
        ),
        ge32(value, 0x3F86_6666) ==> shade_of(value, RadarProduct::CorrelationCoefficient, map)
            == Some(Shade::Flat((40, 70, 150))),
        ge32(0x3E4C_CCCD, value) ==> shade_of(value, RadarProduct::CorrelationCoefficient, map)
            == Some(Shade::Flat((255, 40, 40))),
        ge32(value, 0x40C0_0000) ==> shade_of(value, RadarProduct::DifferentialReflectivity, map)
            == Some(Shade::Flat((240, 60, 60))),
        ge32(value, 0x4140_0000) ==> shade_of(value, RadarProduct::SpectrumWidth, map) == Some(
            Shade::Flat((250, 60, 60)),
        ),
        ge32(value, 0x4190_0000) ==> shade_of(value, RadarProduct::EchoTop, map) == Some(
            Shade::Flat((255, 70, 70)),
        ),
        ge32(value, 0x428C_0000) ==> shade_of(
            value,
            RadarProduct::VerticallyIntegratedLiquid,
            map,
        ) == Some(Shade::Flat((255, 65, 65))),
{
    law_palettes_rise(map);
    let finite_stops = |stops: Seq<Stop>|
        forall|i: int| 0 <= i < stops.len() ==> finite((#[trigger] stops[i]).value);
    assert(finite_stops(reflectivity_stops(map)));
    assert(finite_stops(velocity_stops()));
    assert(finite_stops(correlation_stops()));
    assert(finite_stops(differential_stops()));
    assert(finite_stops(spectrum_width_stops()));
    assert(finite_stops(echo_top_stops()));
    assert(finite_stops(vil_stops()));
    law_reading_lies_between_its_stops(reflectivity_stops(map), value);
    law_reading_lies_between_its_stops(velocity_stops(), value);
    law_reading_lies_between_its_stops(correlation_stops(), value);
    law_reading_lies_between_its_stops(differential_stops(), value);
    law_reading_lies_between_its_stops(spectrum_width_stops(), value);
    law_reading_lies_between_its_stops(echo_top_stops(), value);
    law_reading_lies_between_its_stops(vil_stops(), value);
}

/// What comes toward the radar is green and what goes away is red; the grey palette is grey and
/// brightens; low correlation is red and high correlation blue.
pub proof fn law_colours_tell_the_readings_apart(i: int)
    ensures
        0 <= i < velocity_stops().len() ==> {
            let stop = velocity_stops()[i];
            if gt32(0, stop.value) {
                stop.rgb.1 > stop.rgb.0 && stop.rgb.1 > stop.rgb.2
            } else {
                stop.rgb.0 > stop.rgb.1 && stop.rgb.0 > stop.rgb.2
            }
        },
        0 <= i < mono_stops().len() ==> {
            let stop = mono_stops()[i];
            stop.rgb.0 == stop.rgb.1 && stop.rgb.1 == stop.rgb.2
        },
        mono_stops()[0].rgb.0 < mono_stops()[1].rgb.0,
        0 <= i < correlation_stops().len() ==> {
            let stop = correlation_stops()[i];
            if gt32(0x3F66_6666, stop.value) {
                stop.rgb.0 > stop.rgb.2
            } else {
                stop.rgb.2 > stop.rgb.0
            }
        },
{
}

/// The palette of threats is quiet below 35 dBZ, with next to no red, and glaring from 50 on; that
/// of the weather service is blue below 30, green from 30 to below 45 and red from 60 to below 75.
pub proof fn law_reflectivity_warms_with_strength(i: int)
    ensures
        0 <= i < threat_stops().len() ==> {
            let s = threat_stops()[i];
            &&& gt32(0x420C_0000, s.value) ==> s.rgb.0 < 50 && s.rgb.2 > s.rgb.0
            &&& ge32(s.value, 0x4220_0000) ==> s.rgb.0 >= 195
            &&& ge32(s.value, 0x4248_0000) ==> s.rgb.0 == 255 || s.rgb.2 == 255
        },
        0 <= i < nws_stops().len() ==> {
            let s = nws_stops()[i];
            &&& gt32(0x41F0_0000, s.value) ==> s.rgb.2 > 200 && s.rgb.0 < 10
            &&& ge32(s.value, 0x41F0_0000) && gt32(0x4234_0000, s.value) ==> s.rgb.1 > 100
                && s.rgb.0 < 10 && s.rgb.2 < 10
            &&& ge32(s.value, 0x4270_0000) && gt32(0x4296_0000, s.value) ==> s.rgb.0 > 180
                && s.rgb.1 == 0 && s.rgb.2 == 0
        },
        threat_stops().last().rgb == (255u8, 255u8, 255u8),
        nws_stops().last().rgb == (248u8, 0u8, 253u8),
{
}

} // verus!
