//! The panel beside the map: what is wrong, what is coming, what it is like.
//!
//! Numbers arrive here as texts, formatted as they are shown; what is decided by a number is
//! decided by its bit pattern.

use vstd::prelude::*;
#[allow(unused_imports)]
use vstd::string::StringExecFns;
use crate::alert::filter::ThreatTier;
use crate::alert::state::ActiveAlert;
#[allow(unused_imports)]
use crate::alert::{first_text, Alert};
#[allow(unused_imports)]
use crate::ieee::{above32, at_least32, ge32, gt32};
#[allow(unused_imports)]
use crate::order::{is_order, stable_order};
use crate::radar::cells::CellThreat;
use crate::render::glyph;
#[allow(unused_imports)]
use crate::render::line::{
    alarm, alarm_style, bold, bold_style, line_of, one, plain, plain_style, push_line, push_lines,
    said, Line, Span, Style, Words,
};
use crate::render::Rgb;
#[allow(unused_imports)]
use crate::text::{
    ascii_lower, ascii_lowered, contains, decimal, is_suffix, join, joined, lowercase_of, lowercased,
    number, occurs, occurs_at, one_char, opt_text, pad_end, pad_start, padded_end, padded_start, signed_decimal,
    signed_number, squeeze, squeezed, texts,
};
#[allow(unused_imports)]
use crate::time::{zone_clock_text, Stamp};

verus! {

/// A volume older than this, in minutes, means that the radar has stopped.
pub const RADAR_STALE_MINUTES: i64 = 15;

pub const DIM: Rgb = (140, 140, 150);

pub const FAINT: Rgb = (100, 100, 110);

pub const BRIGHT: Rgb = (200, 200, 210);

pub const WHITE: Rgb = (255, 255, 255);

pub const ALARM_RED: Rgb = (180, 0, 0);

pub const ALARM_ORANGE: Rgb = (150, 60, 0);

pub const QUIET: Rgb = (110, 140, 110);

pub const COLD_TEMP: Rgb = (100, 160, 255);

pub const HOT_TEMP: Rgb = (255, 90, 80);

pub const CALM_BORDER: Rgb = (70, 70, 80);

pub const STALE_BORDER: Rgb = (255, 64, 64);

/// 0.005 inches: less rain than this is not worth a reading.
pub const TRACE_RAIN: u32 = 0x3BA3_D70A;

/// The glyph of an event: by what its name says, else by its tier.
pub open spec fn glyph_of(event: Seq<char>, tier: ThreatTier) -> char {
    let e = ascii_lower(event);
    if occurs(e, "tornado"@) {
        glyph::TORNADO
    } else if occurs(e, "flood"@) {
        glyph::FLOOD
    } else if occurs(e, "thunderstorm"@) {
        glyph::THUNDERSTORM
    } else if occurs(e, "wind"@) || occurs(e, "statement"@) {
        glyph::STRONG_WIND
    } else {
        match tier {
            ThreatTier::Lethal => glyph::TORNADO,
            ThreatTier::Severe => glyph::THUNDERSTORM,
            ThreatTier::Watch => glyph::STORM_WARNING,
        }
    }
}

pub fn tier_glyph(event: &str, tier: ThreatTier) -> (r: char)
    ensures
        r == glyph_of(event@, tier),
        occurs(ascii_lower(event@), "tornado"@) ==> r == '\u{e36c}',
        occurs(ascii_lower(event@), "flood"@) && !occurs(ascii_lower(event@), "tornado"@) ==> r
            == '\u{e375}',
        occurs(ascii_lower(event@), "thunderstorm"@) && !occurs(ascii_lower(event@), "tornado"@)
            && !occurs(ascii_lower(event@), "flood"@) ==> r == '\u{e31d}',
        !occurs(ascii_lower(event@), "tornado"@) && !occurs(ascii_lower(event@), "flood"@)
            && !occurs(ascii_lower(event@), "thunderstorm"@) ==> r == (if occurs(
            ascii_lower(event@),
            "wind"@,
        ) || occurs(ascii_lower(event@), "statement"@) {
            '\u{e34b}'
        } else if tier is Lethal {
            '\u{e36c}'
        } else if tier is Severe {
            '\u{e31d}'
        } else {
            '\u{e3c6}'
        }),
{
    let e = ascii_lowered(event);
    if contains(e.as_str(), "tornado") {
        glyph::TORNADO
    } else if contains(e.as_str(), "flood") {
        glyph::FLOOD
    } else if contains(e.as_str(), "thunderstorm") {
        glyph::THUNDERSTORM
    } else if contains(e.as_str(), "wind") || contains(e.as_str(), "statement") {
        glyph::STRONG_WIND
    } else {
        match tier {
            ThreatTier::Lethal => glyph::TORNADO,
            ThreatTier::Severe => glyph::THUNDERSTORM,
            ThreatTier::Watch => glyph::STORM_WARNING,
        }
    }
}

/// The colour of a threat.
pub open spec fn threat_colour(threat: CellThreat) -> Rgb {
    match threat {
        CellThreat::Debris => (255, 60, 60),
        CellThreat::Rotation => (255, 190, 90),
        CellThreat::Hail => (245, 210, 70),
        CellThreat::Intense => (225, 120, 235),
        CellThreat::Strong => (150, 160, 175),
    }
}

pub fn threat_rgb(threat: CellThreat) -> (r: Rgb)
    ensures
        r == threat_colour(threat),
        threat is Debris ==> r == (255u8, 60u8, 60u8),
        threat is Rotation ==> r == (255u8, 190u8, 90u8),
        threat is Hail ==> r == (245u8, 210u8, 70u8),
        threat is Intense ==> r == (225u8, 120u8, 235u8),
        threat is Strong ==> r == (150u8, 160u8, 175u8),
{
    match threat {
        CellThreat::Debris => (255, 60, 60),
        CellThreat::Rotation => (255, 190, 90),
        CellThreat::Hail => (245, 210, 70),
        CellThreat::Intense => (225, 120, 235),
        CellThreat::Strong => (150, 160, 175),
    }
}

/// The colour of a tier.
pub open spec fn tier_colour(tier: ThreatTier) -> Rgb {
    match tier {
        ThreatTier::Lethal => (255, 64, 64),
        ThreatTier::Severe => (255, 176, 32),
        ThreatTier::Watch => (120, 200, 255),
    }
}

pub fn tier_color(tier: ThreatTier) -> (r: Rgb)
    ensures
        r == tier_colour(tier),
        tier is Lethal ==> r == (255u8, 64u8, 64u8),
        tier is Severe ==> r == (255u8, 176u8, 32u8),
        tier is Watch ==> r == (120u8, 200u8, 255u8),
{
    match tier {
        ThreatTier::Lethal => (255, 64, 64),
        ThreatTier::Severe => (255, 176, 32),
        ThreatTier::Watch => (120, 200, 255),
    }
}

/// The track of a cell: its heading and its speed in knots.
#[derive(Debug, Clone)]
pub struct TrackText {
    pub heading: String,
    pub knots: String,
}

/// The approach of a cell: how near, in kilometres, and in how many minutes.
#[derive(Debug, Clone)]
pub struct ApproachText {
    pub distance: String,
    pub minutes: String,
}

/// A storm cell as it is listed.
#[derive(Debug, Clone)]
pub struct CellReadout {
    pub threat: CellThreat,
    pub distance: String,
    pub bearing: String,
    pub dbz: String,
    pub track: Option<TrackText>,
    pub approach: Option<ApproachText>,
    pub rotation: Option<String>,
    pub rotation_measurable: bool,
    pub beam_height: Option<String>,
    pub cc: Option<String>,
    pub vil: Option<String>,
    pub top: Option<String>,
}

/// The row of a cell.
pub open spec fn cell_row(c: CellReadout, selected: bool) -> Seq<char> {
    seq![
        if selected {
            '\u{25b8}'
        } else {
            ' '
        },
    ] + seq![glyph::THUNDERSTORM] + " "@ + pad_end(c.threat.word(), 8) + " "@ + pad_start(
        c.distance@,
        3,
    ) + " km "@ + pad_end(c.bearing@, 3) + " "@ + c.dbz@ + " dBZ"@ + match c.track {
        Some(t) => "  \u{2192}"@ + t.heading@ + " "@ + t.knots@ + " kt"@,
        None => ""@,
    }
}

/// A part of a line, where there is one.
pub open spec fn part_if(o: Option<Seq<char>>) -> Seq<Seq<char>> {
    match o {
        Some(s) => seq![s],
        None => Seq::empty(),
    }
}

/// What the radar says of a selected cell. No reading is not the same as no rotation: beyond
/// the range at which the beam resolves one, it is said to be unknown.
pub open spec fn diagnosis(c: CellReadout) -> Seq<Seq<char>> {
    part_if(
        match c.approach {
            Some(a) => Some("nearest "@ + a.distance@ + " km in "@ + a.minutes@ + "m"@),
            None => None,
        },
    ) + part_if(
        match c.rotation {
            Some(v) => Some("\u{394}v "@ + v@ + " m/s"@),
            None => if c.rotation_measurable {
                None
            } else {
                Some("\u{394}v unknown (out of range)"@)
            },
        },
    ) + part_if(
        match c.beam_height {
            Some(h) => Some("beam \u{2248}"@ + h@ + " km up"@),
            None => None,
        },
    ) + part_if(
        match c.cc {
            Some(cc) => Some("cc "@ + cc@),
            None => None,
        },
    )
}

/// How deep a selected cell is. These are floors: the beam samples part of the column.
pub open spec fn depth(c: CellReadout) -> Seq<Seq<char>> {
    part_if(
        match c.vil {
            Some(v) => Some("VIL \u{2265}"@ + v@),
            None => None,
        },
    ) + part_if(
        match c.top {
            Some(t) => Some("top \u{2265}"@ + t@ + " km"@),
            None => None,
        },
    )
}

/// A line of parts, where there are any.
pub open spec fn parts_line(parts: Seq<Seq<char>>) -> Seq<Seq<Words>> {
    if parts.len() == 0 {
        Seq::empty()
    } else {
        seq![one("  "@ + join(parts, " \u{b7} "@), plain(BRIGHT))]
    }
}

/// The lines of a cell.
pub open spec fn cell_said(c: CellReadout, selected: bool) -> Seq<Seq<Words>> {
    let colour = threat_colour(c.threat);
    seq![
        one(
            cell_row(c, selected),
            if selected {
                bold(colour)
            } else {
                plain(colour)
            },
        ),
    ] + (if selected {
        parts_line(diagnosis(c)) + parts_line(depth(c))
    } else {
        Seq::empty()
    })
}

/// The lines of the first `n` cells.
pub open spec fn cells_said(cells: Seq<CellReadout>, selected: Option<usize>, n: int) -> Seq<
    Seq<Words>,
>
    decreases n,
{
    if n <= 0 {
        Seq::empty()
    } else {
        cells_said(cells, selected, n - 1) + cell_said(cells[n - 1], selected == Some((n
            - 1) as usize))
    }
}

/// The section of the storm cells; without any there is none, not even a heading.
pub open spec fn cells_section(cells: Seq<CellReadout>, selected: Option<usize>) -> Seq<
    Seq<Words>,
> {
    if cells.len() == 0 {
        Seq::empty()
    } else {
        seq![one("storm cells (live volume)"@, plain(FAINT))] + cells_said(
            cells,
            selected,
            cells.len() as int,
        )
    }
}

fn row_text(c: &CellReadout, selected: bool) -> (r: String)
    ensures
        r@ == cell_row(*c, selected),
{
    let mut out = one_char(
        if selected {
            '\u{25b8}'
        } else {
            ' '
        },
    );
    let sign = one_char(glyph::THUNDERSTORM);
    out.append(sign.as_str());
    out.append(" ");
    let label = padded_end(c.threat.label(), 8);
    out.append(label.as_str());
    out.append(" ");
    let distance = padded_start(c.distance.as_str(), 3);
    out.append(distance.as_str());
    out.append(" km ");
    let bearing = padded_end(c.bearing.as_str(), 3);
    out.append(bearing.as_str());
    out.append(" ");
    out.append(c.dbz.as_str());
    out.append(" dBZ");
    let mut track = "".to_owned();
    if let Some(t) = &c.track {
        track = "  \u{2192}".to_owned();
        track.append(t.heading.as_str());
        track.append(" ");
        track.append(t.knots.as_str());
        track.append(" kt");
    }
    out.append(track.as_str());
    out
}

fn diagnosis_parts(c: &CellReadout) -> (r: Vec<String>)
    ensures
        texts(r@) == diagnosis(*c),
{
    let mut out: Vec<String> = Vec::new();
    if let Some(a) = &c.approach {
        let mut s = "nearest ".to_owned();
        s.append(a.distance.as_str());
        s.append(" km in ");
        s.append(a.minutes.as_str());
        s.append("m");
        out.push(s);
    }
    match &c.rotation {
        Some(v) => {
            let mut s = "\u{394}v ".to_owned();
            s.append(v.as_str());
            s.append(" m/s");
            out.push(s);
        },
        None => {
            if !c.rotation_measurable {
                out.push("\u{394}v unknown (out of range)".to_owned());
            }
        },
    }
    if let Some(h) = &c.beam_height {
        let mut s = "beam \u{2248}".to_owned();
        s.append(h.as_str());
        s.append(" km up");
        out.push(s);
    }
    if let Some(cc) = &c.cc {
        let mut s = "cc ".to_owned();
        s.append(cc.as_str());
        out.push(s);
    }
    assert(texts(out@) =~= diagnosis(*c));
    out
}

fn depth_parts(c: &CellReadout) -> (r: Vec<String>)
    ensures
        texts(r@) == depth(*c),
{
    let mut out: Vec<String> = Vec::new();
    if let Some(v) = &c.vil {
        let mut s = "VIL \u{2265}".to_owned();
        s.append(v.as_str());
        out.push(s);
    }
    if let Some(t) = &c.top {
        let mut s = "top \u{2265}".to_owned();
        s.append(t.as_str());
        s.append(" km");
        out.push(s);
    }
    assert(texts(out@) =~= depth(*c));
    out
}

fn push_parts(lines: &mut Vec<Line>, parts: &Vec<String>)
    ensures
        said(final(lines)@) == said(old(lines)@) + parts_line(texts(parts@)),
{
    if parts.len() == 0 {
        assert(said(lines@) + Seq::<Seq<Words>>::empty() =~= said(lines@));
        return;
    }
    let mut s = "  ".to_owned();
    let body = joined(parts, " \u{b7} ");
    s.append(body.as_str());
    let ghost before = said(lines@);
    let ghost text = s@;
    push_line(lines, s, plain_style(BRIGHT));
    assert(said(lines@) =~= before + seq![one(text, plain(BRIGHT))]);
}

/// The section of the storm cells.
pub fn cells_lines(cells: &Vec<CellReadout>, selected: Option<usize>) -> (r: Vec<Line>)
    ensures
        said(r@) == cells_section(cells@, selected),
{
    let mut lines: Vec<Line> = Vec::new();
    assert(said(lines@) =~= Seq::<Seq<Words>>::empty());
    if cells.len() == 0 {
        return lines;
    }
    push_line(&mut lines, "storm cells (live volume)".to_owned(), plain_style(FAINT));
    let ghost head = seq![one("storm cells (live volume)"@, plain(FAINT))];
    assert(said(lines@) =~= head);
    let mut i: usize = 0;
    assert(head + cells_said(cells@, selected, 0) =~= head);
    while i < cells.len()
        invariant
            i <= cells@.len(),
            said(lines@) == head + cells_said(cells@, selected, i as int),
        decreases cells@.len() - i,
    {
        let c = &cells[i];
        let chosen: bool = match selected {
            Some(k) => k == i,
            None => false,
        };
        assert(chosen == (selected == Some(i)));
        let ghost before = said(lines@);
        let colour: Rgb = threat_rgb(c.threat);
        let style: Style = if chosen {
            bold_style(colour)
        } else {
            plain_style(colour)
        };
        let row = row_text(c, chosen);
        push_line(&mut lines, row, style);
        if chosen {
            let diag = diagnosis_parts(c);
            push_parts(&mut lines, &diag);
            let deep = depth_parts(c);
            push_parts(&mut lines, &deep);
        }
        assert(said(lines@) =~= before + cell_said(*c, chosen));
        assert(before + cell_said(*c, chosen) =~= head + cells_said(cells@, selected, i + 1));
        i += 1;
    }
    lines
}

/// Conditions as they are shown, each reading with its unit.
#[derive(Debug, Clone)]
pub struct ConditionsText {
    pub station: String,
    pub observed_at: Option<Stamp>,
    pub description: Option<String>,
    /// The temperature in degrees Fahrenheit, the bit pattern of a single.
    pub temp_f: Option<u32>,
    pub temp: String,
    pub dew: String,
    pub humidity: String,
    pub wind: String,
    pub wind_dir: String,
    /// Whether there is a reading of the visibility.
    pub sees: bool,
    pub visibility: String,
    /// The rain of the last hour in inches, the bit pattern of a single.
    pub rain_in: Option<u32>,
    pub rain: String,
}

/// The style of a temperature: cold at or below the first limit, hot at or above the second.
pub open spec fn temp_style(t: Option<u32>, cold: u32, hot: u32) -> Style {
    match t {
        Some(v) => if ge32(cold, v) {
            plain(COLD_TEMP)
        } else if ge32(v, hot) {
            plain(HOT_TEMP)
        } else {
            plain(DIM)
        },
        None => plain(DIM),
    }
}

fn style_of_temp(t: Option<u32>, cold: u32, hot: u32) -> (r: Style)
    ensures
        r == temp_style(t, cold, hot),
{
    match t {
        Some(v) => if at_least32(cold, v) {
            plain_style(COLD_TEMP)
        } else if at_least32(v, hot) {
            plain_style(HOT_TEMP)
        } else {
            plain_style(DIM)
        },
        None => plain_style(DIM),
    }
}

/// The line of the temperature and the dew point.
pub open spec fn temp_line(c: ConditionsText, cold: u32, hot: u32) -> Seq<Words> {
    seq![
        Words { text: seq![glyph::THERMOMETER] + " "@, style: plain(DIM) },
        Words { text: c.temp@, style: temp_style(c.temp_f, cold, hot) },
        Words { text: "  dew "@ + c.dew@, style: plain(DIM) },
    ]
}

fn push_temp_line(lines: &mut Vec<Line>, c: &ConditionsText, cold: u32, hot: u32)
    ensures
        said(final(lines)@) == said(old(lines)@).push(temp_line(*c, cold, hot)),
{
    let ghost before = said(lines@);
    let mut sign = one_char(glyph::THERMOMETER);
    sign.append(" ");
    let mut dew = "  dew ".to_owned();
    dew.append(c.dew.as_str());
    let mut spans: Vec<Span> = Vec::new();
    spans.push(Span { text: sign, style: plain_style(DIM) });
    spans.push(Span { text: c.temp.clone(), style: style_of_temp(c.temp_f, cold, hot) });
    spans.push(Span { text: dew, style: plain_style(DIM) });
    let line = Line { spans };
    assert(line@ =~= temp_line(*c, cold, hot));
    lines.push(line);
    assert(said(lines@) =~= before.push(temp_line(*c, cold, hot)));
}

/// The text of the humidity and the wind.
pub open spec fn air_text(c: ConditionsText) -> Seq<char> {
    seq![glyph::HUMIDITY] + " "@ + c.humidity@ + "  "@ + seq![glyph::STRONG_WIND] + " "@ + c.wind@
        + " "@ + c.wind_dir@
}

fn air_line(c: &ConditionsText) -> (r: String)
    ensures
        r@ == air_text(*c),
{
    let mut out = one_char(glyph::HUMIDITY);
    out.append(" ");
    out.append(c.humidity.as_str());
    out.append("  ");
    let wind = one_char(glyph::STRONG_WIND);
    out.append(wind.as_str());
    out.append(" ");
    out.append(c.wind.as_str());
    out.append(" ");
    out.append(c.wind_dir.as_str());
    out
}

/// The text of the visibility.
pub open spec fn sight_text(c: ConditionsText) -> Seq<char> {
    seq![glyph::EYE] + " "@ + c.visibility@ + " vis"@
}

fn sight_line(c: &ConditionsText) -> (r: String)
    ensures
        r@ == sight_text(*c),
{
    let mut out = one_char(glyph::EYE);
    out.append(" ");
    out.append(c.visibility.as_str());
    out.append(" vis");
    out
}

/// The visibility and, where it rained, how much.
pub open spec fn sight_and_rain(c: ConditionsText) -> Seq<char> {
    match c.rain_in {
        Some(rain) if gt32(rain, TRACE_RAIN) => sight_text(c) + "  "@ + seq![glyph::RAINDROP] + " "@
            + c.rain@ + " in/h"@,
        _ => sight_text(c),
    }
}

/// The station and, where it is known, how old its observation is.
pub open spec fn station_text(c: ConditionsText, now: Stamp) -> Seq<char> {
    match c.observed_at {
        Some(t) => c.station@ + " \u{b7} "@ + decimal(now.minutes_after(t) as nat) + "m old"@,
        None => c.station@,
    }
}

/// The section of the current conditions.
pub open spec fn conditions_section(c: ConditionsText, cold: u32, hot: u32, now: Stamp) -> Seq<
    Seq<Words>,
> {
    seq![
        temp_line(c, cold, hot),
        one(air_text(c), plain(DIM)),
        one(sight_and_rain(c), plain(DIM)),
        one(station_text(c, now), plain(FAINT)),
    ]
}

/// The section of the current conditions.
pub fn conditions_lines(c: &ConditionsText, cold: u32, hot: u32, now: Stamp) -> (r: Vec<Line>)
    requires
        now.wf(),
        c.observed_at matches Some(t) ==> t.wf(),
    ensures
        said(r@) == conditions_section(*c, cold, hot, now),
{
    let mut lines: Vec<Line> = Vec::new();
    push_temp_line(&mut lines, c, cold, hot);
    let air = air_line(c);
    push_line(&mut lines, air, plain_style(DIM));
    let mut sight = sight_line(c);
    if let Some(rain) = c.rain_in {
        if above32(rain, TRACE_RAIN) {
            sight.append("  ");
            let drop = one_char(glyph::RAINDROP);
            sight.append(drop.as_str());
            sight.append(" ");
            sight.append(c.rain.as_str());
            sight.append(" in/h");
        }
    }
    push_line(&mut lines, sight, plain_style(DIM));
    let mut station = c.station.clone();
    if let Some(t) = &c.observed_at {
        station.append(" \u{b7} ");
        let age = number(now.minutes_since(t));
        station.append(age.as_str());
        station.append("m old");
    }
    push_line(&mut lines, station, plain_style(FAINT));
    assert(said(lines@) =~= conditions_section(*c, cold, hot, now));
    lines
}

/// The conditions at the moment of the frame that is shown.
#[derive(Debug, Clone)]
pub struct FrameText {
    pub at: Stamp,
    /// Whether this is a forecast rather than an observation.
    pub forecast: bool,
    pub conditions: ConditionsText,
}

/// The clock at a moment, empty where the zone is unknown.
pub open spec fn clock_text(t: Stamp, zone: Seq<char>) -> Seq<char> {
    match zone_clock_text(t.secs, t.nanos, zone) {
        Some(s) => s,
        None => ""@,
    }
}

/// The section of the conditions at the frame's own moment, given the clock at that moment.
pub open spec fn frame_section(f: FrameText, clock: Seq<char>, cold: u32, hot: u32) -> Seq<
    Seq<Words>,
> {
    let c = f.conditions;
    seq![
        one(
            "at "@ + clock + (if f.forecast {
                " (forecast)"@
            } else {
                " (observed)"@
            }),
            plain(FAINT),
        ),
    ] + (match c.description {
        Some(d) => seq![one(d@, plain(DIM))],
        None => Seq::empty(),
    }) + seq![temp_line(c, cold, hot), one(air_text(c), plain(DIM))] + (if !f.forecast && c.sees {
        seq![one(sight_text(c), plain(DIM))]
    } else {
        Seq::empty()
    })
}

/// The section of the conditions at the frame's own moment, given the clock at that moment.
pub fn frame_lines_at(f: &FrameText, clock: &str, cold: u32, hot: u32) -> (r: Vec<Line>)
    ensures
        said(r@) == frame_section(*f, clock@, cold, hot),
{
    let c = &f.conditions;
    let mut lines: Vec<Line> = Vec::new();
    let mut head = "at ".to_owned();
    head.append(clock);
    if f.forecast {
        head.append(" (forecast)");
    } else {
        head.append(" (observed)");
    }
    push_line(&mut lines, head, plain_style(FAINT));
    if let Some(d) = &c.description {
        push_line(&mut lines, d.clone(), plain_style(DIM));
    }
    push_temp_line(&mut lines, c, cold, hot);
    let air = air_line(c);
    push_line(&mut lines, air, plain_style(DIM));
    if !f.forecast && c.sees {
        let sight = sight_line(c);
        push_line(&mut lines, sight, plain_style(DIM));
    }
    assert(said(lines@) =~= frame_section(*f, clock@, cold, hot));
    lines
}

/// The section of the conditions at the frame's own moment, by the clock of a zone.
pub fn frame_conditions_lines(f: &FrameText, zone: &str, cold: u32, hot: u32) -> (r: Vec<Line>)
    ensures
        said(r@) == frame_section(*f, clock_text(f.at, zone@), cold, hot),
{
    let clock = match f.at.clock_in(zone) {
        Some(s) => s,
        None => "".to_owned(),
    };
    frame_lines_at(f, clock.as_str(), cold, hot)
}

/// An alert as it is listed.
#[derive(Debug)]
pub struct HudEntry<'a> {
    pub active: &'a ActiveAlert,
    /// Whether the alert covers the watched place.
    pub inside: bool,
    /// The minutes until it arrives, where that could be told.
    pub eta_minutes: Option<i64>,
    /// When the storm's motion was observed.
    pub motion_observed: Option<Stamp>,
}

/// A line, where there is one.
pub open spec fn line_if(o: Option<Seq<Words>>) -> Seq<Seq<Words>> {
    match o {
        Some(l) => seq![l],
        None => Seq::empty(),
    }
}

/// The first text of a parameter of an alert.
pub open spec fn parameter(alert: Alert, key: Seq<char>) -> Option<Seq<char>> {
    first_text(alert.properties.said(key))
}

/// The heading of an alert.
pub open spec fn heading(e: HudEntry) -> Seq<Words> {
    let event = e.active.alert.properties.event@;
    one(
        seq![glyph_of(event, e.active.tier)] + " "@ + event + (if e.inside {
            "  [YOU]"@
        } else {
            ""@
        }),
        bold(tier_colour(e.active.tier)),
    )
}

/// When an alert arrives, and how old the motion is from which that was told.
pub open spec fn impact(e: HudEntry, now: Stamp) -> Option<Seq<Words>> {
    match e.eta_minutes {
        Some(m) => Some(
            one(
                "  "@ + seq![glyph::CLOCK] + " impact in "@ + signed_decimal(m as int) + " min"@
                    + match e.motion_observed {
                    Some(t) => " (vector "@ + decimal(now.minutes_after(t) as nat) + "m old)"@,
                    None => ""@,
                },
                plain(tier_colour(e.active.tier)),
            ),
        ),
        None => None,
    }
}

/// How certain an alert is, and until when it holds.
pub open spec fn certainty_line(alert: Alert, until: Option<Seq<char>>) -> Seq<Words> {
    let certainty = lowercase_of(
        match alert.properties.certainty {
            Some(c) => c@,
            None => "unknown"@,
        },
    );
    one(
        "  "@ + certainty + match until {
            Some(t) => " until "@ + t,
            None => ""@,
        },
        plain(BRIGHT),
    )
}

/// The lines of an alert, given the clock at which it expires.
pub open spec fn entry_said(e: HudEntry, until: Option<Seq<char>>, now: Stamp) -> Seq<Seq<Words>> {
    let alert = e.active.alert;
    let detection = match parameter(alert, "tornadoDetection"@) {
        Some(d) => Some(lowercase_of(d)),
        None => None,
    };
    seq![heading(e)] + line_if(
        framed("  tornado "@, detection, ""@, alarm(ALARM_RED)),
    ) + line_if(impact(e, now)) + line_if(
        framed(
            "  "@ + seq![glyph::STRONG_WIND] + " "@,
            parameter(alert, "maxWindGust"@),
            ""@,
            plain(BRIGHT),
        ),
    ) + line_if(
        framed("  hail "@, parameter(alert, "maxHailSize"@), " in"@, plain(BRIGHT)),
    ) + line_if(
        framed("  "@, parameter(alert, "damageThreat"@), ""@, alarm(ALARM_RED)),
    ) + line_if(Some(certainty_line(alert, until))) + line_if(
        framed("  "@, opt_text(alert.properties.area_desc), ""@, plain(DIM)),
    ) + line_if(
        match alert.properties.instruction {
            Some(i) => Some(one(squeezed(i@), bold(WHITE))),
            None => None,
        },
    )
}

/// What an optional line says.
pub open spec fn opt_said(o: Option<Line>) -> Option<Seq<Words>> {
    match o {
        Some(l) => Some(l@),
        None => None,
    }
}

fn push_maybe(lines: &mut Vec<Line>, line: Option<Line>)
    ensures
        said(final(lines)@) == said(old(lines)@) + line_if(opt_said(line)),
{
    let ghost before = said(lines@);
    match line {
        Some(l) => {
            lines.push(l);
            assert(said(lines@) =~= before + seq![l@]);
        },
        None => {
            assert(before + Seq::<Seq<Words>>::empty() =~= before);
        },
    }
}

/// A line of a lead, a text and a tail, where there is a text.
pub open spec fn framed(
    lead: Seq<char>,
    text: Option<Seq<char>>,
    tail: Seq<char>,
    style: Style,
) -> Option<Seq<Words>> {
    match text {
        Some(t) => Some(one(lead + t + tail, style)),
        None => None,
    }
}

fn framed_line(lead: &str, text: &Option<String>, tail: &str, style: Style) -> (r: Option<Line>)
    ensures
        opt_said(r) == framed(lead@, opt_text(*text), tail@, style),
{
    match text {
        Some(t) => {
            let mut s = lead.to_owned();
            s.append(t.as_str());
            s.append(tail);
            Some(line_of(s, style))
        },
        None => None,
    }
}

fn heading_line(e: &HudEntry) -> (r: Line)
    ensures
        r@ == heading(*e),
{
    let alert = &e.active.alert;
    let mut head = one_char(tier_glyph(alert.properties.event.as_str(), e.active.tier));
    head.append(" ");
    head.append(alert.properties.event.as_str());
    if e.inside {
        head.append("  [YOU]");
    } else {
        head.append("");
    }
    line_of(head, bold_style(tier_color(e.active.tier)))
}

fn impact_line(e: &HudEntry, now: Stamp) -> (r: Option<Line>)
    requires
        now.wf(),
        e.motion_observed matches Some(t) ==> t.wf(),
    ensures
        opt_said(r) == impact(*e, now),
{
    let m: i64 = match e.eta_minutes {
        Some(m) => m,
        None => {
            return None;
        },
    };
    let mut s = "  ".to_owned();
    let clock = one_char(glyph::CLOCK);
    s.append(clock.as_str());
    s.append(" impact in ");
    let minutes = signed_number(m);
    s.append(minutes.as_str());
    s.append(" min");
    let mut age = "".to_owned();
    if let Some(t) = &e.motion_observed {
        age = " (vector ".to_owned();
        let old = number(now.minutes_since(t));
        age.append(old.as_str());
        age.append("m old)");
    }
    s.append(age.as_str());
    Some(line_of(s, plain_style(tier_color(e.active.tier))))
}

fn line_of_certainty(alert: &Alert, until: &Option<String>) -> (r: Line)
    ensures
        r@ == certainty_line(*alert, opt_text(*until)),
{
    let certainty = match &alert.properties.certainty {
        Some(c) => lowercased(c.as_str()),
        None => lowercased("unknown"),
    };
    let mut s = "  ".to_owned();
    s.append(certainty.as_str());
    let mut tail = "".to_owned();
    if let Some(t) = until {
        tail = " until ".to_owned();
        tail.append(t.as_str());
    }
    s.append(tail.as_str());
    line_of(s, plain_style(BRIGHT))
}

fn lowered(o: Option<String>) -> (r: Option<String>)
    ensures
        opt_text(r) == match o {
            Some(s) => Some(lowercase_of(s@)),
            None => None,
        },
{
    match o {
        Some(s) => Some(lowercased(s.as_str())),
        None => None,
    }
}

fn instruction_line(alert: &Alert) -> (r: Option<Line>)
    ensures
        opt_said(r) == match alert.properties.instruction {
            Some(i) => Some(one(squeezed(i@), bold(WHITE))),
            None => None,
        },
{
    match &alert.properties.instruction {
        Some(i) => Some(line_of(squeeze(i.as_str()), bold_style(WHITE))),
        None => None,
    }
}

fn gust_lead() -> (r: String)
    ensures
        r@ == "  "@ + seq![glyph::STRONG_WIND] + " "@,
{
    let mut s = "  ".to_owned();
    let wind = one_char(glyph::STRONG_WIND);
    s.append(wind.as_str());
    s.append(" ");
    s
}

/// The lines of an alert, given the clock at which it expires.
pub fn entry_lines(e: &HudEntry, until: &Option<String>, now: Stamp) -> (r: Vec<Line>)
    requires
        now.wf(),
        e.motion_observed matches Some(t) ==> t.wf(),
    ensures
        said(r@) == entry_said(*e, opt_text(*until), now),
{
    let alert = &e.active.alert;
    let mut lines: Vec<Line> = Vec::new();
    assert(said(lines@) =~= Seq::<Seq<Words>>::empty());
    push_maybe(&mut lines, Some(heading_line(e)));
    assert(said(lines@) =~= seq![heading(*e)]);
    let detection = lowered(alert.tornado_detection());
    push_maybe(
        &mut lines,
        framed_line("  tornado ", &detection, "", alarm_style(ALARM_RED)),
    );
    push_maybe(&mut lines, impact_line(e, now));
    let lead = gust_lead();
    push_maybe(
        &mut lines,
        framed_line(lead.as_str(), &alert.max_wind_gust(), "", plain_style(BRIGHT)),
    );
    push_maybe(
        &mut lines,
        framed_line("  hail ", &alert.max_hail_size(), " in", plain_style(BRIGHT)),
    );
    push_maybe(
        &mut lines,
        framed_line("  ", &alert.damage_threat(), "", alarm_style(ALARM_RED)),
    );
    push_maybe(&mut lines, Some(line_of_certainty(alert, until)));
    push_maybe(
        &mut lines,
        framed_line("  ", &alert.properties.area_desc, "", plain_style(DIM)),
    );
    push_maybe(&mut lines, instruction_line(alert));
    lines
}

/// The clock of a zone when an alert expires.
pub open spec fn until_text(alert: Alert, zone: Seq<char>) -> Option<Seq<char>> {
    match alert.expiry() {
        Some(t) => zone_clock_text(t.secs, t.nanos, zone),
        None => None,
    }
}

fn until_clock(alert: &Alert, zone: &str) -> (r: Option<String>)
    ensures
        opt_text(r) == until_text(*alert, zone@),
{
    match alert.expires_at() {
        Some(t) => t.clock_in(zone),
        None => None,
    }
}

/// Everything that the panel shows.
#[derive(Debug)]
pub struct Hud<'a> {
    pub active: Vec<HudEntry<'a>>,
    pub stale: bool,
    pub stale_secs: u64,
    /// Whether the monitor stopped reporting, rather than the feed going quiet.
    pub reporter_silent: bool,
    pub radar_age_min: Option<i64>,
    pub site: &'a str,
    /// The greatest reading in view, as it is shown.
    pub peak: Option<String>,
    pub peak_units: &'static str,
    pub conditions: Option<ConditionsText>,
    pub cold_below_f: u32,
    pub hot_above_f: u32,
    pub cells: Vec<CellReadout>,
    pub selected_cell: Option<usize>,
    pub zone: &'a str,
    pub now: Stamp,
}

/// The keys by which alerts are listed: the gravest first.
pub open spec fn gravity_keys(active: Seq<HudEntry>) -> Seq<(i64, i64)> {
    active.map_values(|e: HudEntry| ((-e.active.tier.gravity()) as i64, 0i64))
}

/// The lines of the first `n` alerts in a given order.
pub open spec fn alerts_said(
    active: Seq<HudEntry>,
    order: Seq<usize>,
    zone: Seq<char>,
    now: Stamp,
    n: int,
) -> Seq<Seq<Words>>
    decreases n,
{
    if n <= 0 {
        Seq::empty()
    } else {
        let e = active[order[n - 1] as int];
        alerts_said(active, order, zone, now, n - 1) + entry_said(
            e,
            until_text(e.active.alert, zone),
            now,
        )
    }
}

impl<'a> Hud<'a> {
    /// Whether every moment is one that the calendar reaches.
    pub open spec fn wf(self) -> bool {
        &&& self.now.wf()
        &&& forall|i: int|
            0 <= i < self.active@.len() ==> ((#[trigger] self.active@[i]).motion_observed matches Some(
                t,
            ) ==> t.wf())
        &&& self.conditions matches Some(c) ==> (c.observed_at matches Some(t) ==> t.wf())
    }

    /// What is said of a silent feed, before anything else.
    pub open spec fn silence(self) -> Option<Seq<Words>> {
        if self.stale {
            Some(
                one(
                    seq![glyph::NO_DATA] + (if self.reporter_silent {
                        " MONITOR DEAD "@
                    } else {
                        " FEED STALE "@
                    }) + decimal(self.stale_secs as nat) + "s - YOU ARE NOT BEING WARNED"@,
                    alarm(ALARM_RED),
                ),
            )
        } else {
            None
        }
    }

    /// The site and the greatest reading in view.
    pub open spec fn radar_text(self) -> Seq<char> {
        match self.peak {
            Some(p) => seq![glyph::REFRESH] + " "@ + self.site@ + "  peak "@ + p@ + " "@
                + self.peak_units@,
            None => seq![glyph::REFRESH] + " "@ + self.site@,
        }
    }

    /// The line of the radar: an old volume says so instead of looking current.
    pub open spec fn radar_line(self) -> Seq<Words> {
        match self.radar_age_min {
            Some(age) => if age >= RADAR_STALE_MINUTES {
                one(
                    self.radar_text() + "  RADAR "@ + signed_decimal(age as int) + "m OLD"@,
                    alarm(ALARM_ORANGE),
                )
            } else {
                one(
                    self.radar_text() + "  "@ + signed_decimal(age as int) + "m ago"@,
                    plain(DIM),
                )
            },
            None => one(self.radar_text(), plain(DIM)),
        }
    }

    /// The sky in plain words.
    pub open spec fn sky(self) -> Option<Seq<Words>> {
        match self.conditions {
            Some(c) => match c.description {
                Some(d) => Some(one(d@, plain(DIM))),
                None => None,
            },
            None => None,
        }
    }

    /// What is said where no alert is active. A stale feed says nothing of the kind.
    pub open spec fn quiet(self) -> Option<Seq<Words>> {
        if self.active@.len() == 0 && !self.stale {
            Some(one("no active warnings"@, plain(QUIET)))
        } else {
            None
        }
    }

    /// What the panel says, the alerts in a given order. Readings stand below the alerts, so
    /// that they never push an instruction off a short screen.
    pub open spec fn panel(self, order: Seq<usize>) -> Seq<Seq<Words>> {
        line_if(self.silence()) + seq![self.radar_line()] + line_if(self.sky()) + line_if(
            self.quiet(),
        ) + alerts_said(self.active@, order, self.zone@, self.now, order.len() as int) + (
        match self.conditions {
            Some(c) => conditions_section(c, self.cold_below_f, self.hot_above_f, self.now),
            None => Seq::empty(),
        }) + cells_section(self.cells@, self.selected_cell)
    }

    fn push_radar(&self, lines: &mut Vec<Line>)
        ensures
            said(final(lines)@) == said(old(lines)@).push(self.radar_line()),
    {
        let mut text = one_char(glyph::REFRESH);
        text.append(" ");
        text.append(self.site);
        if let Some(p) = &self.peak {
            text.append("  peak ");
            text.append(p.as_str());
            text.append(" ");
            text.append(self.peak_units);
        }
        match self.radar_age_min {
            Some(age) => {
                let minutes = signed_number(age);
                if age >= RADAR_STALE_MINUTES {
                    text.append("  RADAR ");
                    text.append(minutes.as_str());
                    text.append("m OLD");
                    push_line(lines, text, alarm_style(ALARM_ORANGE));
                } else {
                    text.append("  ");
                    text.append(minutes.as_str());
                    text.append("m ago");
                    push_line(lines, text, plain_style(DIM));
                }
            },
            None => push_line(lines, text, plain_style(DIM)),
        }
    }

    /// The positions of the alerts, the gravest first.
    pub fn alert_order(&self) -> (order: Vec<usize>)
        ensures
            is_order(gravity_keys(self.active@), order@),
    {
        let mut keys: Vec<(i64, i64)> = Vec::new();
        let mut i: usize = 0;
        while i < self.active.len()
            invariant
                i <= self.active@.len(),
                keys@ == gravity_keys(self.active@).take(i as int),
            decreases self.active@.len() - i,
        {
            let key: i64 = match self.active[i].active.tier {
                ThreatTier::Watch => 0,
                ThreatTier::Severe => -1,
                ThreatTier::Lethal => -2,
            };
            keys.push((key, 0));
            i += 1;
            assert(keys@ =~= gravity_keys(self.active@).take(i as int));
        }
        assert(keys@ =~= gravity_keys(self.active@));
        stable_order(&keys)
    }

    /// The lines of the panel.
    pub fn lines(&self) -> (r: Vec<Line>)
        requires
            self.wf(),
        ensures
            exists|order: Seq<usize>| #[trigger]
                is_order(gravity_keys(self.active@), order) && said(r@) == self.panel(order),
    {
        let mut lines: Vec<Line> = Vec::new();
        if self.stale {
            let mut text = one_char(glyph::NO_DATA);
            if self.reporter_silent {
                text.append(" MONITOR DEAD ");
            } else {
                text.append(" FEED STALE ");
            }
            let secs = number(self.stale_secs);
            text.append(secs.as_str());
            text.append("s - YOU ARE NOT BEING WARNED");
            push_line(&mut lines, text, alarm_style(ALARM_RED));
        }
        assert(said(lines@) =~= line_if(self.silence()));
        self.push_radar(&mut lines);
        if let Some(c) = &self.conditions {
            if let Some(d) = &c.description {
                push_line(&mut lines, d.clone(), plain_style(DIM));
            }
        }
        if self.active.len() == 0 && !self.stale {
            push_line(&mut lines, "no active warnings".to_owned(), plain_style(QUIET));
        }
        let ghost head = line_if(self.silence()) + seq![self.radar_line()] + line_if(self.sky())
            + line_if(self.quiet());
        assert(said(lines@) =~= head);
        let order = self.alert_order();
        let mut k: usize = 0;
        assert(head + alerts_said(self.active@, order@, self.zone@, self.now, 0) =~= head);
        while k < order.len()
            invariant
                k <= order@.len(),
                self.wf(),
                is_order(gravity_keys(self.active@), order@),
                said(lines@) == head + alerts_said(
                    self.active@,
                    order@,
                    self.zone@,
                    self.now,
                    k as int,
                ),
            decreases order@.len() - k,
        {
            let at: usize = order[k];
            assert(order@[k as int] < gravity_keys(self.active@).len());
            let e = &self.active[at];
            assert(self.active@[at as int] == *e);
            let until = until_clock(&e.active.alert, self.zone);
            let more = entry_lines(e, &until, self.now);
            let ghost before = alerts_said(self.active@, order@, self.zone@, self.now, k as int);
            let ghost added = said(more@);
            push_lines(&mut lines, more);
            assert(head + before + added =~= head + (before + added));
            k += 1;
        }
        let ghost body = said(lines@);
        if let Some(c) = &self.conditions {
            let more = conditions_lines(c, self.cold_below_f, self.hot_above_f, self.now);
            push_lines(&mut lines, more);
        }
        let cells = cells_lines(&self.cells, self.selected_cell);
        push_lines(&mut lines, cells);
        assert(said(lines@) =~= self.panel(order@));
        lines
    }

    /// The colour of the panel's border: alarming while the feed is stale, else that of the
    /// gravest alert.
    pub open spec fn border_colour(self) -> Rgb {
        if self.stale {
            STALE_BORDER
        } else if exists|i: int|
            0 <= i < self.active@.len() && (#[trigger] self.active@[i]).active.tier is Lethal {
            tier_colour(ThreatTier::Lethal)
        } else if exists|i: int|
            0 <= i < self.active@.len() && (#[trigger] self.active@[i]).active.tier is Severe {
            tier_colour(ThreatTier::Severe)
        } else if self.active@.len() > 0 {
            tier_colour(ThreatTier::Watch)
        } else {
            CALM_BORDER
        }
    }

    pub fn border(&self) -> (r: Rgb)
        ensures
            r == self.border_colour(),
            self.stale ==> r == (255u8, 64u8, 64u8),
            self.active@.len() == 0 && !self.stale ==> r == (70u8, 70u8, 80u8),
            forall|i: int|
                0 <= i < self.active@.len() && (#[trigger] self.active@[i]).active.tier is Lethal
                    ==> r == (255u8, 64u8, 64u8),
            r == (120u8, 200u8, 255u8) ==> forall|i: int|
                0 <= i < self.active@.len() ==> (#[trigger] self.active@[i]).active.tier is Watch,
    {
        if self.stale {
            return STALE_BORDER;
        }
        let mut lethal: bool = false;
        let mut severe: bool = false;
        let mut i: usize = 0;
        while i < self.active.len()
            invariant
                i <= self.active@.len(),
                lethal == exists|k: int|
                    0 <= k < i && (#[trigger] self.active@[k]).active.tier is Lethal,
                severe == exists|k: int|
                    0 <= k < i && (#[trigger] self.active@[k]).active.tier is Severe,
            decreases self.active@.len() - i,
        {
            let ghost here = self.active@[i as int];
            match self.active[i].active.tier {
                ThreatTier::Lethal => {
                    lethal = true;
                    assert(here.active.tier is Lethal);
                },
                ThreatTier::Severe => {
                    severe = true;
                    assert(here.active.tier is Severe);
                },
                ThreatTier::Watch => {},
            }
            i += 1;
        }
        if lethal {
            tier_color(ThreatTier::Lethal)
        } else if severe {
            tier_color(ThreatTier::Severe)
        } else if self.active.len() > 0 {
            tier_color(ThreatTier::Watch)
        } else {
            CALM_BORDER
        }
    }
}

/// Where the section of the frame's moment stands: on the last rows of the panel, how many
/// rows down. It gives way altogether where the lines above need the room.
pub fn frame_block_row(inner_height: u16, top_lines: u16, block_lines: u16) -> (r: Option<u16>)
    ensures
        r is Some <==> inner_height > block_lines && top_lines + block_lines < inner_height,
        r matches Some(y) ==> y == inner_height - block_lines && y > top_lines,
{
    if inner_height > block_lines && (top_lines as u32) + (block_lines as u32)
        < inner_height as u32 {
        Some(inner_height - block_lines)
    } else {
        None
    }
}

/// The panel never says that all is calm while the feed is stale, and then begins with the
/// alarm.
pub proof fn law_stale_panel_begins_with_the_alarm(hud: Hud, order: Seq<usize>)
    requires
        hud.stale,
    ensures
        hud.quiet() is None,
        hud.panel(order).len() > 0,
        hud.panel(order)[0].len() == 1,
        hud.panel(order)[0][0].style == alarm(ALARM_RED),
{
    assert(hud.panel(order)[0] == hud.silence()->0);
}

/// Alerts are listed by gravity: none stands below a lesser one.
pub proof fn law_graver_alerts_come_first(active: Seq<HudEntry>, order: Seq<usize>, a: int, b: int)
    requires
        is_order(gravity_keys(active), order),
        0 <= a < b < order.len(),
    ensures
        active[order[a] as int].active.tier.gravity() >= active[order[b] as int].active.tier.gravity(),
{
    let keys = gravity_keys(active);
    assert(crate::order::precedes(keys, order[a] as int, order[b] as int));
    assert(keys[order[a] as int].0 == -active[order[a] as int].active.tier.gravity());
    assert(keys[order[b] as int].0 == -active[order[b] as int].active.tier.gravity());
}

proof fn lemma_stands_within(a: Seq<char>, b: Seq<char>, c: Seq<char>)
    ensures
        occurs(a + b + c, b),
{
    assert((a + b + c).subrange(a.len() as int, (a.len() + b.len()) as int) =~= b);
    assert(occurs_at(a + b + c, b, a.len() as int));
}

/// How many entries something that may be missing takes.
pub open spec fn count_if(there: bool) -> int {
    if there {
        1
    } else {
        0
    }
}

/// The row of a cell tells its threat, how far it is, where, how strong, and where it goes, each
/// with its unit.
#[verifier::rlimit(40)]
pub proof fn law_cell_row_tells_its_readings(c: CellReadout, selected: bool)
    ensures
        ({
            let row = cell_row(c, selected);
            &&& occurs(row, pad_end(c.threat.word(), 8))
            &&& occurs(row, pad_start(c.distance@, 3) + " km "@ + pad_end(c.bearing@, 3))
            &&& occurs(row, c.dbz@ + " dBZ"@)
            &&& c.track matches Some(t) ==> is_suffix(
                row,
                "\u{2192}"@ + t.heading@ + " "@ + t.knots@ + " kt"@,
            )
            &&& c.track is None ==> is_suffix(row, c.dbz@ + " dBZ"@)
            &&& row[0] == if selected {
                '\u{25b8}'
            } else {
                ' '
            }
        }),
{
    reveal_strlit("");
    reveal_strlit("  \u{2192}");
    reveal_strlit("\u{2192}");
    let row = cell_row(c, selected);
    let lead = seq![
        if selected {
            '\u{25b8}'
        } else {
            ' '
        },
    ] + seq![glyph::THUNDERSTORM] + " "@;
    let word = pad_end(c.threat.word(), 8);
    let place = pad_start(c.distance@, 3) + " km "@ + pad_end(c.bearing@, 3);
    let dbz = c.dbz@ + " dBZ"@;
    let tail = match c.track {
        Some(t) => "  \u{2192}"@ + t.heading@ + " "@ + t.knots@ + " kt"@,
        None => ""@,
    };
    assert(row =~= lead + word + " "@ + place + " "@ + dbz + tail);
    lemma_row_parts(row, lead, word, place, dbz, tail);
    match c.track {
        Some(t) => {
            let end = "\u{2192}"@ + t.heading@ + " "@ + t.knots@ + " kt"@;
            assert(tail.subrange(tail.len() - end.len(), tail.len() as int) =~= end);
            assert(row.subrange(row.len() - end.len(), row.len() as int) =~= tail.subrange(
                tail.len() - end.len(),
                tail.len() as int,
            ));
        },
        None => {},
    }
}

proof fn lemma_row_parts(
    row: Seq<char>,
    lead: Seq<char>,
    word: Seq<char>,
    place: Seq<char>,
    dbz: Seq<char>,
    tail: Seq<char>,
)
    requires
        row == lead + word + " "@ + place + " "@ + dbz + tail,
    ensures
        occurs(row, word),
        occurs(row, place),
        occurs(row, dbz),
        row.subrange(row.len() - tail.len(), row.len() as int) == tail,
        tail.len() == 0 ==> is_suffix(row, dbz),
{
    let end = " "@ + dbz + tail;
    assert(row =~= lead + word + (" "@ + place + end));
    lemma_stands_within(lead, word, " "@ + place + end);
    assert(row =~= (lead + word + " "@) + place + end);
    lemma_stands_within(lead + word + " "@, place, end);
    lemma_stands_within(lead + word + " "@ + place + " "@, dbz, tail);
    assert(row.subrange(row.len() - tail.len(), row.len() as int) =~= tail);
    if tail.len() == 0 {
        assert(row.subrange(row.len() - dbz.len(), row.len() as int) =~= dbz);
    }
}

/// What is known of a selected cell is told part by part, in order and with its unit: its nearest
/// approach, its rotation, the height of the beam and the correlation, then its liquid and its
/// top. Where no rotation could be measured that is said; where it was and there is none, nothing.
pub proof fn law_selected_cell_tells_everything(c: CellReadout)
    ensures
        ({
            let parts = diagnosis(c);
            let rotation = count_if(c.approach is Some);
            let beam = rotation + count_if(c.rotation is Some || !c.rotation_measurable);
            let cc = beam + count_if(c.beam_height is Some);
            &&& parts.len() == cc + count_if(c.cc is Some)
            &&& c.approach matches Some(a) ==> parts[0] == "nearest "@ + a.distance@ + " km in "@
                + a.minutes@ + "m"@
            &&& c.rotation matches Some(v) ==> parts[rotation] == "\u{394}v "@ + v@ + " m/s"@
            &&& c.rotation is None && !c.rotation_measurable ==> parts[rotation]
                == "\u{394}v unknown (out of range)"@
            &&& c.beam_height matches Some(h) ==> parts[beam] == "beam \u{2248}"@ + h@ + " km up"@
            &&& c.cc matches Some(v) ==> parts[cc] == "cc "@ + v@
        }),
        ({
            let parts = depth(c);
            let top = count_if(c.vil is Some);
            &&& parts.len() == top + count_if(c.top is Some)
            &&& c.vil matches Some(v) ==> parts[0] == "VIL \u{2265}"@ + v@
            &&& c.top matches Some(t) ==> parts[top] == "top \u{2265}"@ + t@ + " km"@
        }),
{
}

/// Only a selected cell is told of in more than its row, and each cell has its row in its colour.
pub proof fn law_details_are_for_the_selected_cell(c: CellReadout)
    ensures
        cell_said(c, false).len() == 1,
        cell_said(c, false)[0] == one(cell_row(c, false), plain(threat_colour(c.threat))),
        cell_said(c, true)[0] == one(cell_row(c, true), bold(threat_colour(c.threat))),
        cell_said(c, true).len() == 1 + count_if(diagnosis(c).len() > 0) + count_if(
            depth(c).len() > 0,
        ),
        diagnosis(c).len() > 0 ==> cell_said(c, true)[1] == one(
            "  "@ + join(diagnosis(c), " \u{b7} "@),
            plain((200, 200, 210)),
        ),
        depth(c).len() > 0 ==> cell_said(c, true).last() == one(
            "  "@ + join(depth(c), " \u{b7} "@),
            plain((200, 200, 210)),
        ),
{
}

/// Every cell is told of, in the order of the list: where its lines begin is returned.
pub proof fn law_every_cell_is_told_of(
    cells: Seq<CellReadout>,
    selected: Option<usize>,
    n: int,
    i: int,
) -> (at: int)
    requires
        0 <= i < n <= cells.len(),
    ensures
        ({
            let said = cell_said(cells[i], selected == Some(i as usize));
            let all = cells_said(cells, selected, n);
            &&& i <= at
            &&& at + said.len() <= all.len()
            &&& all.subrange(at, at + said.len()) == said
        }),
    decreases n,
{
    let before = cells_said(cells, selected, n - 1);
    let all = cells_said(cells, selected, n);
    let said = cell_said(cells[i], selected == Some(i as usize));
    if i < n - 1 {
        let at = law_every_cell_is_told_of(cells, selected, n - 1, i);
        assert(all.subrange(at, at + said.len()) =~= before.subrange(at, at + said.len()));
        at
    } else {
        lemma_a_line_for_each_cell(cells, selected, n - 1);
        assert(all.subrange(before.len() as int, (before.len() + said.len()) as int) =~= said);
        before.len() as int
    }
}

proof fn lemma_a_line_for_each_cell(cells: Seq<CellReadout>, selected: Option<usize>, n: int)
    requires
        0 <= n <= cells.len(),
    ensures
        cells_said(cells, selected, n).len() >= n,
    decreases n,
{
    if n > 0 {
        lemma_a_line_for_each_cell(cells, selected, n - 1);
    }
}

/// The conditions tell each reading in its own place: temperature and dew point, then humidity,
/// wind and its direction, then the visibility and the rain where there was any, then the station.
pub proof fn law_conditions_tell_each_reading(c: ConditionsText, cold: u32, hot: u32, now: Stamp)
    ensures
        ({
            let lines = conditions_section(c, cold, hot, now);
            &&& lines.len() == 4
            &&& lines[0].len() == 3
            &&& lines[0][1].text == c.temp@
            &&& lines[0][2].text == "  dew "@ + c.dew@
            &&& lines[1][0].text == seq!['\u{e373}'] + (" "@ + c.humidity@ + "  "@) + seq![
                '\u{e34b}',
            ] + (" "@ + c.wind@ + " "@ + c.wind_dir@)
            &&& occurs_at(lines[2][0].text, seq!['\u{f06e}'] + " "@ + c.visibility@ + " vis"@, 0)
            &&& c.rain_in is Some && gt32(c.rain_in->0, 0x3BA3_D70A) ==> is_suffix(
                lines[2][0].text,
                " "@ + c.rain@ + " in/h"@,
            )
            &&& !(c.rain_in is Some && gt32(c.rain_in->0, 0x3BA3_D70A)) ==> is_suffix(
                lines[2][0].text,
                c.visibility@ + " vis"@,
            )
            &&& occurs_at(lines[3][0].text, c.station@, 0)
            &&& c.observed_at matches Some(t) ==> is_suffix(
                lines[3][0].text,
                decimal(now.minutes_after(t) as nat) + "m old"@,
            )
        }),
{
    let lines = conditions_section(c, cold, hot, now);
    assert(air_text(c) =~= seq!['\u{e373}'] + (" "@ + c.humidity@ + "  "@) + seq!['\u{e34b}'] + (
    " "@ + c.wind@ + " "@ + c.wind_dir@));
    let sight = sight_text(c);
    let seen = sight_and_rain(c);
    assert(seen.subrange(0, sight.len() as int) =~= sight);
    let rain = " "@ + c.rain@ + " in/h"@;
    let vis = c.visibility@ + " vis"@;
    if c.rain_in is Some && gt32(c.rain_in->0, 0x3BA3_D70A) {
        assert(seen.subrange(seen.len() - rain.len(), seen.len() as int) =~= rain);
    } else {
        assert(seen.subrange(seen.len() - vis.len(), seen.len() as int) =~= vis);
    }
    let station = station_text(c, now);
    assert(station.subrange(0, c.station@.len() as int) =~= c.station@);
    if let Some(t) = c.observed_at {
        let old = decimal(now.minutes_after(t) as nat) + "m old"@;
        assert(station.subrange(station.len() - old.len(), station.len() as int) =~= old);
    }
}

/// A temperature at or below the cold limit is blue, another at or above the hot limit is red, and
/// any other, or none, has the colour of the rest.
pub proof fn law_extreme_temperatures_stand_out(v: u32, cold: u32, hot: u32)
    ensures
        ge32(cold, v) ==> temp_style(Some(v), cold, hot) == plain((100, 160, 255)),
        !ge32(cold, v) && ge32(v, hot) ==> temp_style(Some(v), cold, hot) == plain((255, 90, 80)),
        !ge32(cold, v) && !ge32(v, hot) ==> temp_style(Some(v), cold, hot) == plain(
            (140, 140, 150),
        ),
        temp_style(None, cold, hot) == plain((140, 140, 150)),
{
}

/// The conditions at a frame's moment say whether they are forecast or were observed, and tell
/// temperature, humidity and wind; the visibility only where it was observed.
pub proof fn law_frame_tells_forecast_from_observation(
    f: FrameText,
    clock: Seq<char>,
    cold: u32,
    hot: u32,
)
    ensures
        ({
            let lines = frame_section(f, clock, cold, hot);
            let temp = 1 + count_if(f.conditions.description is Some);
            &&& f.forecast ==> lines[0][0].text == "at "@ + clock + " (forecast)"@
            &&& !f.forecast ==> lines[0][0].text == "at "@ + clock + " (observed)"@
            &&& f.conditions.description matches Some(d) ==> lines[1][0].text == d@
            &&& lines[temp] == temp_line(f.conditions, cold, hot)
            &&& lines[temp + 1][0].text == air_text(f.conditions)
            &&& lines.len() == temp + 2 + count_if(!f.forecast && f.conditions.sees)
            &&& !f.forecast && f.conditions.sees ==> lines.last()[0].text == sight_text(
                f.conditions,
            )
        }),
{
}

/// An alert's lines tell what it says, in this order: what it is, whether a tornado was seen, when
/// it arrives, gusts, hail, the damage threat, how certain it is and until when, where, and what
/// to do. What it does not say takes no line.
pub proof fn law_entry_tells_what_the_alert_says(
    e: HudEntry,
    until: Option<Seq<char>>,
    now: Stamp,
)
    ensures
        ({
            let alert = e.active.alert;
            let said = entry_said(e, until, now);
            let seen = first_text(alert.properties.said("tornadoDetection"@));
            let gust = first_text(alert.properties.said("maxWindGust"@));
            let hail = first_text(alert.properties.said("maxHailSize"@));
            let threat = first_text(alert.properties.said("damageThreat"@));
            let at_impact = 1 + count_if(seen is Some);
            let at_gust = at_impact + count_if(e.eta_minutes is Some);
            let at_hail = at_gust + count_if(gust is Some);
            let at_threat = at_hail + count_if(hail is Some);
            let at_certainty = at_threat + count_if(threat is Some);
            let at_area = at_certainty + 1;
            let at_end = at_area + count_if(alert.properties.area_desc is Some);
            &&& said.len() == at_end + count_if(alert.properties.instruction is Some)
            &&& said[0] == heading(e)
            &&& seen matches Some(d) ==> said[1][0].text == "  tornado "@ + lowercase_of(d) + ""@
            &&& e.eta_minutes is Some ==> Some(said[at_impact]) == impact(e, now)
            &&& gust matches Some(g) ==> said[at_gust][0].text == ("  "@ + seq!['\u{e34b}']
                + " "@) + g + ""@
            &&& hail matches Some(h) ==> said[at_hail][0].text == "  hail "@ + h + " in"@
            &&& threat matches Some(t) ==> said[at_threat][0].text == "  "@ + t + ""@
            &&& said[at_certainty] == certainty_line(alert, until)
            &&& alert.properties.area_desc matches Some(a) ==> said[at_area][0].text == "  "@ + a@
                + ""@
            &&& alert.properties.instruction matches Some(i) ==> said[at_end][0].text == squeezed(
                i@,
            )
        }),
{
}

/// The heading of an alert names its event in the colour of its tier, and marks the alerts that
/// cover the watched place and no others.
pub proof fn law_heading_marks_who_is_inside(e: HudEntry)
    ensures
        heading(e).len() == 1,
        heading(e)[0].text.skip(2) == e.active.alert.properties.event@ + (if e.inside {
            "  [YOU]"@
        } else {
            ""@
        }),
        heading(e)[0].style.bold,
        heading(e)[0].style.fg == tier_colour(e.active.tier),
{
    reveal_strlit(" ");
    let event = e.active.alert.properties.event@;
    assert(heading(e)[0].text.skip(2) =~= event + (if e.inside {
        "  [YOU]"@
    } else {
        ""@
    }));
}

/// An arrival is told in minutes, with the age of the motion that it was told from.
pub proof fn law_arrival_is_told_with_its_age(e: HudEntry, now: Stamp)
    ensures
        impact(e, now) is Some <==> e.eta_minutes is Some,
        e.eta_minutes matches Some(m) ==> occurs(
            (impact(e, now)->0)[0].text,
            " impact in "@ + signed_decimal(m as int) + " min"@,
        ),
        e.eta_minutes is Some ==> (e.motion_observed matches Some(t) ==> is_suffix(
            (impact(e, now)->0)[0].text,
            " (vector "@ + decimal(now.minutes_after(t) as nat) + "m old)"@,
        )),
{
    if let Some(m) = e.eta_minutes {
        let text = (impact(e, now)->0)[0].text;
        let lead = "  "@ + seq![glyph::CLOCK];
        let told = " impact in "@ + signed_decimal(m as int) + " min"@;
        let tail = match e.motion_observed {
            Some(t) => " (vector "@ + decimal(now.minutes_after(t) as nat) + "m old)"@,
            None => ""@,
        };
        assert(text =~= lead + told + tail);
        lemma_stands_within(lead, told, tail);
        assert(text.subrange(text.len() - tail.len(), text.len() as int) =~= tail);
    }
}

/// Every alert is told of in full, in the order given: where its lines begin is returned.
pub proof fn law_every_alert_is_told_of(
    active: Seq<HudEntry>,
    order: Seq<usize>,
    zone: Seq<char>,
    now: Stamp,
    n: int,
    i: int,
) -> (at: int)
    requires
        0 <= i < n <= order.len(),
    ensures
        ({
            let e = active[order[i] as int];
            let said = entry_said(e, until_text(e.active.alert, zone), now);
            let all = alerts_said(active, order, zone, now, n);
            &&& 0 <= at
            &&& at + said.len() <= all.len()
            &&& all.subrange(at, at + said.len()) == said
        }),
    decreases n,
{
    let before = alerts_said(active, order, zone, now, n - 1);
    let all = alerts_said(active, order, zone, now, n);
    let e = active[order[i] as int];
    let said = entry_said(e, until_text(e.active.alert, zone), now);
    if i < n - 1 {
        let at = law_every_alert_is_told_of(active, order, zone, now, n - 1, i);
        assert(all.subrange(at, at + said.len()) =~= before.subrange(at, at + said.len()));
        at
    } else {
        assert(all.subrange(before.len() as int, (before.len() + said.len()) as int) =~= said);
        before.len() as int
    }
}

/// The panel says first that the feed is silent, where it is, then what the radar shows, then the
/// sky, then the alerts, and only below them the readings and the storm cells.
pub proof fn law_readings_stand_below_the_alerts(hud: Hud, order: Seq<usize>)
    ensures
        ({
            let panel = hud.panel(order);
            let alerts = alerts_said(hud.active@, order, hud.zone@, hud.now, order.len() as int);
            let radar = count_if(hud.stale);
            let sky = radar + 1;
            let told = sky + count_if(hud.sky() is Some) + count_if(
                hud.active@.len() == 0 && !hud.stale,
            );
            let below = told + alerts.len();
            &&& panel.len() >= below
            &&& panel[radar] == hud.radar_line()
            &&& hud.sky() is Some ==> panel[sky] == hud.sky()->0
            &&& hud.active@.len() == 0 && !hud.stale ==> panel[told - 1][0].text
                == "no active warnings"@
            &&& panel.subrange(told, below) == alerts
            &&& hud.conditions is None && hud.cells@.len() == 0 ==> panel.len() == below
            &&& hud.conditions matches Some(c) ==> panel.subrange(below, below + 4)
                == conditions_section(c, hud.cold_below_f, hud.hot_above_f, hud.now)
        }),
{
    let panel = hud.panel(order);
    let alerts = alerts_said(hud.active@, order, hud.zone@, hud.now, order.len() as int);
    let told = count_if(hud.stale) + 1 + count_if(hud.sky() is Some) + count_if(
        hud.active@.len() == 0 && !hud.stale,
    );
    let below = told + alerts.len();
    assert(panel.subrange(told, below) =~= alerts);
    if let Some(c) = hud.conditions {
        assert(panel.subrange(below, below + 4) =~= conditions_section(
            c,
            hud.cold_below_f,
            hud.hot_above_f,
            hud.now,
        ));
    }
}

/// A silent feed is told apart from a dead monitor, with the seconds of silence and what it means.
pub proof fn law_silence_is_spelled_out(hud: Hud)
    ensures
        hud.silence() is Some <==> hud.stale,
        hud.stale && hud.reporter_silent ==> (hud.silence()->0)[0].text.skip(1)
            == " MONITOR DEAD "@ + decimal(hud.stale_secs as nat)
            + "s - YOU ARE NOT BEING WARNED"@,
        hud.stale && !hud.reporter_silent ==> (hud.silence()->0)[0].text.skip(1)
            == " FEED STALE "@ + decimal(hud.stale_secs as nat) + "s - YOU ARE NOT BEING WARNED"@,
{
    if hud.stale {
        let text = (hud.silence()->0)[0].text;
        assert(text.skip(1) =~= (if hud.reporter_silent {
            " MONITOR DEAD "@
        } else {
            " FEED STALE "@
        }) + decimal(hud.stale_secs as nat) + "s - YOU ARE NOT BEING WARNED"@);
    }
}

/// A volume that is fifteen minutes old or more is called old, in the colours of an alarm, and a
/// younger one is not; either way its age is told last.
pub proof fn law_old_volume_is_called_old(hud: Hud)
    ensures
        hud.radar_age_min matches Some(age) ==> {
            let line = hud.radar_line();
            &&& line.len() == 1
            &&& age >= 15 ==> is_suffix(
                line[0].text,
                "  RADAR "@ + signed_decimal(age as int) + "m OLD"@,
            ) && line[0].style == alarm((150, 60, 0))
            &&& age < 15 ==> is_suffix(
                line[0].text,
                "  "@ + signed_decimal(age as int) + "m ago"@,
            ) && line[0].style == plain((140, 140, 150))
        },
        occurs_at(hud.radar_line()[0].text, hud.radar_text(), 0),
        hud.radar_text().skip(2) == hud.site@ + (match hud.peak {
            Some(p) => "  peak "@ + p@ + " "@ + hud.peak_units@,
            None => Seq::empty(),
        }),
{
    reveal_strlit(" ");
    let text = hud.radar_line()[0].text;
    let base = hud.radar_text();
    assert(text.subrange(0, base.len() as int) =~= base);
    assert(base.skip(2) =~= hud.site@ + (match hud.peak {
        Some(p) => "  peak "@ + p@ + " "@ + hud.peak_units@,
        None => Seq::empty(),
    }));
    if let Some(age) = hud.radar_age_min {
        let old = "  RADAR "@ + signed_decimal(age as int) + "m OLD"@;
        let ago = "  "@ + signed_decimal(age as int) + "m ago"@;
        if age >= 15 {
            assert(text.subrange(text.len() - old.len(), text.len() as int) =~= old);
        } else {
            assert(text.subrange(text.len() - ago.len(), text.len() as int) =~= ago);
        }
    }
}

/// The certainty of an alert is told in lower case, as unknown where it is not said, and with the
/// clock until which it holds where there is one.
pub proof fn law_certainty_is_told(alert: Alert, clock: Seq<char>)
    ensures
        ({
            let certainty = match alert.properties.certainty {
                Some(c) => lowercase_of(c@),
                None => lowercase_of("unknown"@),
            };
            &&& certainty_line(alert, Some(clock))[0].text == "  "@ + certainty + (" until "@
                + clock)
            &&& certainty_line(alert, None)[0].text == "  "@ + certainty + ""@
        }),
{
}

/// Storm cells have a heading, and without any there is not even that.
pub proof fn law_cells_have_a_heading(cells: Seq<CellReadout>, selected: Option<usize>)
    ensures
        cells_section(cells, selected).len() == 0 <==> cells.len() == 0,
        cells.len() > 0 ==> cells_section(cells, selected)[0][0].text
            == "storm cells (live volume)"@,
        cells.len() > 0 ==> cells_section(cells, selected).skip(1) == cells_said(
            cells,
            selected,
            cells.len() as int,
        ),
{
    if cells.len() > 0 {
        assert(cells_section(cells, selected).skip(1) =~= cells_said(
            cells,
            selected,
            cells.len() as int,
        ));
    }
}

} // verus!
