//! Surface conditions from the nearest observation stations.
//!
//! Every reading may be missing at the source, and then stays missing all the way to the
//! screen: an absent sensor never shows as zero.

use vstd::prelude::*;
#[allow(unused_imports)]
use vstd::string::StringExecFns;
#[allow(unused_imports)]
use crate::text::{occurs_at, opt_text, same, starts_with};
#[allow(unused_imports)]
use crate::time::{parse_timestamp, rfc3339_moment, stamp_of, Stamp};

verus! {

/// How a measured value becomes the one that is shown.
#[derive(Debug, Clone, Copy, PartialEq, Eq, Structural)]
pub enum Conversion {
    AsMeasured,
    CelsiusToFahrenheit,
    KilometresPerHourToMiles,
    MetresPerSecondToMiles,
    MetresToMiles,
    MillimetresToInches,
    MetresToInches,
}

/// A quantity as it is published: a value that may be missing, the bit pattern of a double,
/// and the unit it was measured in.
#[derive(Debug, Clone)]
pub struct Quantity {
    pub value: Option<u64>,
    pub unit_code: String,
}

/// What a quantity is shown as.
#[derive(Debug, Clone, Copy, PartialEq, Eq, Structural)]
pub enum Scale {
    Fahrenheit,
    MilesPerHour,
    Miles,
    Inches,
    Percent,
    Degrees,
}

/// How a unit is brought to a scale. A unit that is not known to it is not: no reading is
/// better than one in the wrong scale.
pub open spec fn conversion_to(scale: Scale, unit: Seq<char>) -> Option<Conversion> {
    match scale {
        Scale::Fahrenheit => if unit == "wmoUnit:degC"@ {
            Some(Conversion::CelsiusToFahrenheit)
        } else if unit == "wmoUnit:degF"@ {
            Some(Conversion::AsMeasured)
        } else {
            None
        },
        Scale::MilesPerHour => if unit == "wmoUnit:km_h-1"@ {
            Some(Conversion::KilometresPerHourToMiles)
        } else if unit == "wmoUnit:m_s-1"@ {
            Some(Conversion::MetresPerSecondToMiles)
        } else {
            None
        },
        Scale::Miles => if unit == "wmoUnit:m"@ {
            Some(Conversion::MetresToMiles)
        } else if unit == "wmoUnit:mi"@ {
            Some(Conversion::AsMeasured)
        } else {
            None
        },
        Scale::Inches => if unit == "wmoUnit:mm"@ {
            Some(Conversion::MillimetresToInches)
        } else if unit == "wmoUnit:m"@ {
            Some(Conversion::MetresToInches)
        } else {
            None
        },
        Scale::Percent => if unit == "wmoUnit:percent"@ {
            Some(Conversion::AsMeasured)
        } else {
            None
        },
        Scale::Degrees => if unit == "wmoUnit:degree_(angle)"@ {
            Some(Conversion::AsMeasured)
        } else {
            None
        },
    }
}

/// A value with the conversion it needs.
#[derive(Debug, Clone, Copy, PartialEq, Eq, Structural)]
pub struct Measured {
    pub value: u64,
    pub conversion: Conversion,
}

impl Quantity {
    /// What is shown of a quantity on a scale.
    pub open spec fn shown(self, scale: Scale) -> Option<Measured> {
        match (self.value, conversion_to(scale, self.unit_code@)) {
            (Some(value), Some(conversion)) => Some(Measured { value, conversion }),
            _ => None,
        }
    }

    pub fn on_scale(&self, scale: Scale) -> (r: Option<Measured>)
        ensures
            r == self.shown(scale),
    {
        let value: u64 = match self.value {
            Some(v) => v,
            None => {
                return None;
            },
        };
        let unit = self.unit_code.as_str();
        let conversion: Option<Conversion> = match scale {
            Scale::Fahrenheit => if same(unit, "wmoUnit:degC") {
                Some(Conversion::CelsiusToFahrenheit)
            } else if same(unit, "wmoUnit:degF") {
                Some(Conversion::AsMeasured)
            } else {
                None
            },
            Scale::MilesPerHour => if same(unit, "wmoUnit:km_h-1") {
                Some(Conversion::KilometresPerHourToMiles)
            } else if same(unit, "wmoUnit:m_s-1") {
                Some(Conversion::MetresPerSecondToMiles)
            } else {
                None
            },
            Scale::Miles => if same(unit, "wmoUnit:m") {
                Some(Conversion::MetresToMiles)
            } else if same(unit, "wmoUnit:mi") {
                Some(Conversion::AsMeasured)
            } else {
                None
            },
            Scale::Inches => if same(unit, "wmoUnit:mm") {
                Some(Conversion::MillimetresToInches)
            } else if same(unit, "wmoUnit:m") {
                Some(Conversion::MetresToInches)
            } else {
                None
            },
            Scale::Percent => if same(unit, "wmoUnit:percent") {
                Some(Conversion::AsMeasured)
            } else {
                None
            },
            Scale::Degrees => if same(unit, "wmoUnit:degree_(angle)") {
                Some(Conversion::AsMeasured)
            } else {
                None
            },
        };
        match conversion {
            Some(conversion) => Some(Measured { value, conversion }),
            None => None,
        }
    }
}

/// An observation as it is published.
#[derive(Debug, Clone)]
pub struct Observation {
    pub timestamp: Option<String>,
    pub text_description: Option<String>,
    pub temperature: Option<Quantity>,
    pub dewpoint: Option<Quantity>,
    pub relative_humidity: Option<Quantity>,
    pub wind_speed: Option<Quantity>,
    pub wind_direction: Option<Quantity>,
    pub visibility: Option<Quantity>,
    pub precipitation_last_hour: Option<Quantity>,
}

/// Conditions at a station, each reading with the conversion it needs.
#[derive(Debug, Clone)]
pub struct Conditions {
    pub station: String,
    pub observed_at: Option<Stamp>,
    pub description: Option<String>,
    pub temp_f: Option<Measured>,
    pub dewpoint_f: Option<Measured>,
    pub humidity_pct: Option<Measured>,
    pub wind_mph: Option<Measured>,
    pub wind_from_deg: Option<Measured>,
    pub visibility_mi: Option<Measured>,
    pub rain_last_hour_in: Option<Measured>,
}

/// What is shown of a quantity that may be missing altogether.
pub open spec fn shown_if(q: Option<Quantity>, scale: Scale) -> Option<Measured> {
    match q {
        Some(q) => q.shown(scale),
        None => None,
    }
}

fn measured(q: &Option<Quantity>, scale: Scale) -> (r: Option<Measured>)
    ensures
        r == shown_if(*q, scale),
{
    match q {
        Some(q) => q.on_scale(scale),
        None => None,
    }
}

/// A description that says something.
pub open spec fn non_empty(o: Option<Seq<char>>) -> Option<Seq<char>> {
    match o {
        Some(s) if s.len() > 0 => Some(s),
        _ => None,
    }
}

/// The conditions that an observation tells of, given the reading of its timestamp.
pub fn conditions_at(station: String, observed_at: Option<Stamp>, obs: &Observation) -> (r:
    Conditions)
    ensures
        r.station@ == station@,
        r.observed_at == observed_at,
        opt_text(r.description) == non_empty(opt_text(obs.text_description)),
        r.temp_f == shown_if(obs.temperature, Scale::Fahrenheit),
        r.dewpoint_f == shown_if(obs.dewpoint, Scale::Fahrenheit),
        r.humidity_pct == shown_if(obs.relative_humidity, Scale::Percent),
        r.wind_mph == shown_if(obs.wind_speed, Scale::MilesPerHour),
        r.wind_from_deg == shown_if(obs.wind_direction, Scale::Degrees),
        r.visibility_mi == shown_if(obs.visibility, Scale::Miles),
        r.rain_last_hour_in == shown_if(obs.precipitation_last_hour, Scale::Inches),
{
    let description: Option<String> = match &obs.text_description {
        Some(d) => if d.as_str().is_empty() {
            None
        } else {
            Some(d.clone())
        },
        None => None,
    };
    Conditions {
        station,
        observed_at,
        description,
        temp_f: measured(&obs.temperature, Scale::Fahrenheit),
        dewpoint_f: measured(&obs.dewpoint, Scale::Fahrenheit),
        humidity_pct: measured(&obs.relative_humidity, Scale::Percent),
        wind_mph: measured(&obs.wind_speed, Scale::MilesPerHour),
        wind_from_deg: measured(&obs.wind_direction, Scale::Degrees),
        visibility_mi: measured(&obs.visibility, Scale::Miles),
        rain_last_hour_in: measured(&obs.precipitation_last_hour, Scale::Inches),
    }
}

/// The conditions that an observation tells of.
pub fn conditions_from(station: String, obs: &Observation) -> (r: Conditions)
    ensures
        r.station@ == station@,
        r.observed_at == match obs.timestamp {
            Some(t) => stamp_of(rfc3339_moment(t@)),
            None => None,
        },
        r.observed_at matches Some(t) ==> t.wf(),
        opt_text(r.description) == non_empty(opt_text(obs.text_description)),
        r.temp_f == shown_if(obs.temperature, Scale::Fahrenheit),
        r.dewpoint_f == shown_if(obs.dewpoint, Scale::Fahrenheit),
        r.humidity_pct == shown_if(obs.relative_humidity, Scale::Percent),
        r.wind_mph == shown_if(obs.wind_speed, Scale::MilesPerHour),
        r.wind_from_deg == shown_if(obs.wind_direction, Scale::Degrees),
        r.visibility_mi == shown_if(obs.visibility, Scale::Miles),
        r.rain_last_hour_in == shown_if(obs.precipitation_last_hour, Scale::Inches),
{
    let observed_at: Option<Stamp> = match &obs.timestamp {
        Some(t) => parse_timestamp(t.as_str()),
        None => None,
    };
    conditions_at(station, observed_at, obs)
}

/// How many of the nearest stations are kept, so that a defunct one can be left for the next.
pub const MAX_STATIONS: usize = 4;

/// Why there are no stations.
#[derive(Debug, Clone, Copy, PartialEq, Eq, Structural)]
pub enum StationError {
    /// The list of stations lies on another host.
    OffHost,
    /// The list is empty.
    NoStations,
}

/// Whether a list of stations may be followed: it must lie on the feed's own host.
pub fn check_station_list(url: &str) -> (r: Result<(), StationError>)
    ensures
        r is Ok <==> occurs_at(url@, "https://api.weather.gov/"@, 0),
        r is Err ==> r->Err_0 is OffHost,
{
    if starts_with(url, "https://api.weather.gov/") {
        Ok(())
    } else {
        Err(StationError::OffHost)
    }
}

/// The stations to use, from a list that is ordered nearest first.
pub fn nearest_stations(ids: &Vec<String>) -> (r: Result<Vec<String>, StationError>)
    ensures
        r is Err <==> ids@.len() == 0,
        r is Err ==> r->Err_0 is NoStations,
        r matches Ok(kept) ==> kept@ == ids@.take(
            if ids@.len() < MAX_STATIONS {
                ids@.len() as int
            } else {
                MAX_STATIONS as int
            },
        ),
        r matches Ok(kept) ==> kept@.len() == (if ids@.len() < 4 {
            ids@.len()
        } else {
            4
        }) && forall|i: int| 0 <= i < kept@.len() ==> #[trigger] kept@[i] == ids@[i],
{
    if ids.len() == 0 {
        return Err(StationError::NoStations);
    }
    let n: usize = if ids.len() < MAX_STATIONS {
        ids.len()
    } else {
        MAX_STATIONS
    };
    let mut out: Vec<String> = Vec::new();
    let mut i: usize = 0;
    while i < n
        invariant
            i <= n <= ids@.len(),
            out@ == ids@.take(i as int),
        decreases n - i,
    {
        out.push(ids[i].clone());
        i += 1;
        assert(out@ =~= ids@.take(i as int));
    }
    Ok(out)
}

/// Where the latest observation of a station is found.
pub fn observation_url(station: &str) -> (r: String)
    ensures
        r@ == "https://api.weather.gov/stations/"@ + station@ + "/observations/latest"@,
{
    let mut out = "https://api.weather.gov/stations/".to_owned();
    out.append(station);
    out.append("/observations/latest");
    out
}

/// Where what is known of a point is found, given its coordinates with four decimals.
pub fn points_url(lat: &str, lon: &str) -> (r: String)
    ensures
        r@ == "https://api.weather.gov/points/"@ + lat@ + ","@ + lon@,
{
    let mut out = "https://api.weather.gov/points/".to_owned();
    out.append(lat);
    out.append(",");
    out.append(lon);
    out
}

/// The stations in turn: one whose observations cannot be had is left for the next nearest.
#[derive(Debug, Clone)]
pub struct StationRota {
    pub stations: Vec<String>,
    pub which: u64,
}

impl StationRota {
    pub fn new() -> (r: StationRota)
        ensures
            r.stations@.len() == 0,
            r.which == 0,
    {
        StationRota { stations: Vec::new(), which: 0 }
    }

    /// The station whose turn it is, as a position in the list.
    pub open spec fn turn(self) -> Option<int> {
        if self.stations@.len() == 0 {
            None
        } else {
            Some(self.which as int % self.stations@.len() as int)
        }
    }

    /// The station whose turn it is; none before any is known.
    pub fn current(&self) -> (r: Option<&String>)
        ensures
            r is None <==> self.turn() is None,
            r matches Some(s) ==> *s == self.stations@[self.turn()->0],
    {
        if self.stations.len() == 0 {
            return None;
        }
        let n: u64 = self.stations.len() as u64;
        let at: u64 = self.which % n;
        Some(&self.stations[at as usize])
    }

    /// Leaves the station whose turn it is for the next one.
    pub fn rotate(&mut self)
        ensures
            final(self).stations == old(self).stations,
            old(self).which < u64::MAX ==> final(self).which == old(self).which + 1,
            old(self).which == u64::MAX ==> final(self).which == 0,
    {
        self.which = if self.which < u64::MAX {
            self.which + 1
        } else {
            0
        };
    }
}

/// Keeps the first error of a cycle: later ones mostly follow from it.
pub fn note_error(kept: &mut Option<String>, error: String)
    ensures
        *final(kept) == (if *old(kept) is Some {
            *old(kept)
        } else {
            Some(error)
        }),
{
    if kept.is_none() {
        *kept = Some(error);
    }
}

/// What a round of conditions asks for next.
#[derive(Debug, Clone, PartialEq, Eq)]
pub enum Ask {
    /// Where the stations and the forecast of the point are listed.
    Points,
    /// The stations near the point.
    Stations,
    /// The latest observation of a station.
    Latest(String),
    /// The recent observations of a station.
    History(String),
    /// The forecast by the hour.
    Hourly,
    /// Nothing more: the round is over.
    Report,
}

/// Where a round of conditions stands.
#[derive(Debug, Clone, Copy, PartialEq, Eq, Structural)]
pub enum Stage {
    Points,
    Stations,
    Latest,
    History,
    Hourly,
    Report,
}

/// The rounds in which conditions are gathered. What was discovered is kept from round to
/// round; what failed to be discovered is tried again in the next.
#[derive(Debug, Clone)]
pub struct ConditionsTask {
    pub points_known: bool,
    pub rota: StationRota,
    pub stage: Stage,
    /// The station that this round asks.
    pub station: String,
}

impl ConditionsTask {
    pub fn new() -> (r: ConditionsTask)
        ensures
            !r.points_known,
            r.rota.stations@.len() == 0,
            r.rota.which == 0,
            r.stage is Report,
    {
        ConditionsTask {
            points_known: false,
            rota: StationRota::new(),
            stage: Stage::Report,
            station: String::new(),
        }
    }

    /// The stage that comes once the points are known or not: without them the round is over;
    /// with them the stations are asked for where none are known.
    pub open spec fn past_points(self) -> Stage {
        if !self.points_known {
            Stage::Report
        } else if self.rota.stations@.len() == 0 {
            Stage::Stations
        } else {
            Stage::Latest
        }
    }

    /// The stage that comes once the stations are known or not: without any only the forecast
    /// is asked for.
    pub open spec fn past_stations(self) -> Stage {
        if self.rota.stations@.len() == 0 {
            Stage::Hourly
        } else {
            Stage::Latest
        }
    }

    /// What is asked for at a stage.
    pub open spec fn asks(self, ask: Ask) -> bool {
        match self.stage {
            Stage::Points => ask is Points,
            Stage::Stations => ask is Stations,
            Stage::Latest => ask matches Ask::Latest(s) && s@ == self.station@,
            Stage::History => ask matches Ask::History(s) && s@ == self.station@,
            Stage::Hourly => ask is Hourly,
            Stage::Report => ask is Report,
        }
    }

    fn ask(&self) -> (r: Ask)
        ensures
            self.asks(r),
    {
        match self.stage {
            Stage::Points => Ask::Points,
            Stage::Stations => Ask::Stations,
            Stage::Latest => Ask::Latest(self.station.clone()),
            Stage::History => Ask::History(self.station.clone()),
            Stage::Hourly => Ask::Hourly,
            Stage::Report => Ask::Report,
        }
    }

    /// Goes to a stage; on coming to the observations, it is settled which station is asked.
    fn enter(&mut self, stage: Stage)
        ensures
            final(self).stage == stage,
            final(self).points_known == old(self).points_known,
            final(self).rota == old(self).rota,
            stage is Latest && old(self).rota.turn() is Some ==> final(self).station@
                == old(self).rota.stations@[old(self).rota.turn()->0]@,
            !(stage is Latest && old(self).rota.turn() is Some) ==> final(self).station
                == old(self).station,
    {
        self.stage = stage;
        if stage == Stage::Latest {
            let chosen: Option<String> = match self.rota.current() {
                Some(s) => Some(s.clone()),
                None => None,
            };
            if let Some(s) = chosen {
                self.station = s;
            }
        }
    }

    /// Begins a round.
    pub fn begin(&mut self) -> (r: Ask)
        ensures
            final(self).asks(r),
            final(self).points_known == old(self).points_known,
            final(self).rota == old(self).rota,
            final(self).stage == (if old(self).points_known {
                old(self).past_points()
            } else {
                Stage::Points
            }),
            final(self).stage is Latest ==> final(self).station@
                == old(self).rota.stations@[old(self).rota.turn()->0]@,
    {
        let stage: Stage = if !self.points_known {
            Stage::Points
        } else if self.rota.stations.len() == 0 {
            Stage::Stations
        } else {
            Stage::Latest
        };
        self.enter(stage);
        self.ask()
    }

    /// Goes on once the answer to the points is known.
    pub fn points_answered(&mut self, found: bool) -> (r: Ask)
        ensures
            final(self).asks(r),
            final(self).points_known == found,
            final(self).rota == old(self).rota,
            final(self).stage == final(self).past_points(),
            final(self).stage is Latest ==> final(self).station@
                == old(self).rota.stations@[old(self).rota.turn()->0]@,
    {
        self.points_known = found;
        let stage: Stage = if !found {
            Stage::Report
        } else if self.rota.stations.len() == 0 {
            Stage::Stations
        } else {
            Stage::Latest
        };
        self.enter(stage);
        self.ask()
    }

    /// Goes on once the stations are known; none where they could not be had.
    pub fn stations_answered(&mut self, stations: Option<Vec<String>>) -> (r: Ask)
        ensures
            final(self).asks(r),
            final(self).points_known == old(self).points_known,
            final(self).rota.which == old(self).rota.which,
            final(self).rota.stations@ == match stations {
                Some(list) => list@,
                None => old(self).rota.stations@,
            },
            final(self).stage == final(self).past_stations(),
            final(self).stage is Latest ==> final(self).station@
                == final(self).rota.stations@[final(self).rota.turn()->0]@,
    {
        if let Some(list) = stations {
            self.rota.stations = list;
        }
        let stage: Stage = if self.rota.stations.len() == 0 {
            Stage::Hourly
        } else {
            Stage::Latest
        };
        self.enter(stage);
        self.ask()
    }

    /// Goes on once the latest observation is there or not. A station that has none gives way
    /// to the next in the rounds to come; its history is asked for all the same.
    pub fn latest_answered(&mut self, found: bool) -> (r: Ask)
        requires
            old(self).stage is Latest,
        ensures
            r matches Ask::History(s) && s@ == old(self).station@,
            final(self).stage is History,
            final(self).station@ == old(self).station@,
            final(self).points_known == old(self).points_known,
            final(self).rota.stations == old(self).rota.stations,
            found ==> final(self).rota.which == old(self).rota.which,
            !found && old(self).rota.which < u64::MAX ==> final(self).rota.which
                == old(self).rota.which + 1,
            !found && old(self).rota.which == u64::MAX ==> final(self).rota.which == 0,
    {
        if !found {
            self.rota.rotate();
        }
        self.enter(Stage::History);
        self.ask()
    }

    /// Goes on from the history to the forecast, and from the forecast to the end.
    pub fn answered(&mut self) -> (r: Ask)
        requires
            old(self).stage is History || old(self).stage is Hourly,
        ensures
            old(self).stage is History ==> r is Hourly && final(self).stage is Hourly,
            old(self).stage is Hourly ==> r is Report && final(self).stage is Report,
            final(self).points_known == old(self).points_known,
            final(self).rota == old(self).rota,
    {
        let stage: Stage = if self.stage == Stage::History {
            Stage::Hourly
        } else {
            Stage::Report
        };
        self.enter(stage);
        self.ask()
    }
}

/// A station that failed is not asked again at once where there is another.
pub proof fn law_failed_station_is_left(rota: StationRota)
    requires
        rota.stations@.len() > 1,
        rota.which < u64::MAX,
    ensures
        (StationRota { which: (rota.which + 1) as u64, ..rota }).turn() != rota.turn(),
{
    let n = rota.stations@.len() as int;
    let w = rota.which as int;
    vstd::arithmetic::div_mod::lemma_fundamental_div_mod(w, n);
    vstd::arithmetic::div_mod::lemma_fundamental_div_mod(w + 1, n);
    vstd::arithmetic::div_mod::lemma_mod_bound(w, n);
    if w % n == (w + 1) % n {
        let a = w / n;
        let b = (w + 1) / n;
        assert(n * (b - a) == 1) by (nonlinear_arith)
            requires
                w == n * a + w % n,
                w + 1 == n * b + (w + 1) % n,
                w % n == (w + 1) % n,
        ;
        assert(false) by (nonlinear_arith)
            requires
                n * (b - a) == 1,
                n > 1,
        ;
    }
}

/// The forecast for one hour. Readings are bit patterns of singles, in the units shown.
#[derive(Debug, Clone)]
pub struct HourlyForecast {
    pub valid: Stamp,
    pub temp_f: Option<u32>,
    pub dewpoint_f: Option<u32>,
    pub humidity_pct: Option<u32>,
    pub wind_mph: Option<u32>,
    pub wind_dir: Option<String>,
    pub short: Option<String>,
}

/// How far two moments lie apart, in nanoseconds.
pub open spec fn time_apart(a: Stamp, b: Stamp) -> int {
    let d = a.total_nanos() - b.total_nanos();
    if d < 0 {
        -d
    } else {
        d
    }
}

/// Whether the moment at `i` is the first of those nearest to `at`.
pub open spec fn is_nearest(times: Seq<Option<Stamp>>, at: Stamp, i: int) -> bool {
    &&& 0 <= i < times.len()
    &&& times[i] is Some
    &&& forall|j: int|
        0 <= j < times.len() && (#[trigger] times[j]) is Some ==> time_apart(times[i]->0, at)
            <= time_apart(times[j]->0, at)
    &&& forall|j: int|
        0 <= j < i && (#[trigger] times[j]) is Some ==> time_apart(times[i]->0, at) < time_apart(
            times[j]->0,
            at,
        )
}

fn gap_between(a: &Stamp, b: &Stamp) -> (r: i128)
    ensures
        r == time_apart(*a, *b),
{
    let x: i128 = a.secs as i128 * 1_000_000_000 + a.nanos as i128;
    let y: i128 = b.secs as i128 * 1_000_000_000 + b.nanos as i128;
    if x < y {
        y - x
    } else {
        x - y
    }
}

fn nearest_of(times: &Vec<Option<Stamp>>, at: Stamp) -> (r: Option<usize>)
    ensures
        r is None <==> forall|i: int| 0 <= i < times@.len() ==> (#[trigger] times@[i]) is None,
        r matches Some(i) ==> is_nearest(times@, at, i as int),
{
    let mut best: Option<(usize, i128)> = None;
    let mut i: usize = 0;
    while i < times.len()
        invariant
            i <= times@.len(),
            best is None ==> forall|j: int| 0 <= j < i ==> (#[trigger] times@[j]) is None,
            best matches Some(b) ==> b.0 < i && times@[b.0 as int] is Some && b.1 == time_apart(
                times@[b.0 as int]->0,
                at,
            ) && (forall|j: int|
                0 <= j < i && (#[trigger] times@[j]) is Some ==> b.1 <= time_apart(
                    times@[j]->0,
                    at,
                )) && (forall|j: int|
                0 <= j < b.0 && (#[trigger] times@[j]) is Some ==> b.1 < time_apart(
                    times@[j]->0,
                    at,
                )),
        decreases times@.len() - i,
    {
        if let Some(t) = &times[i] {
            let d: i128 = gap_between(t, &at);
            let nearer: bool = match best {
                None => true,
                Some((_, b)) => d < b,
            };
            if nearer {
                best = Some((i, d));
            }
        }
        i += 1;
    }
    match best {
        Some((b, _)) => Some(b),
        None => None,
    }
}

/// The times of a list of forecasts.
pub open spec fn valid_times(hourly: Seq<HourlyForecast>) -> Seq<Option<Stamp>> {
    hourly.map_values(|h: HourlyForecast| Some(h.valid))
}

/// The times of a list of observations.
pub open spec fn observed_times(history: Seq<Conditions>) -> Seq<Option<Stamp>> {
    history.map_values(|c: Conditions| c.observed_at)
}

/// The position of the forecast nearest in time.
pub fn nearest_hourly(hourly: &Vec<HourlyForecast>, at: Stamp) -> (r: Option<usize>)
    ensures
        r is None <==> hourly@.len() == 0,
        r matches Some(i) ==> is_nearest(valid_times(hourly@), at, i as int),
{
    let mut times: Vec<Option<Stamp>> = Vec::new();
    let mut i: usize = 0;
    while i < hourly.len()
        invariant
            i <= hourly@.len(),
            times@ == valid_times(hourly@).take(i as int),
        decreases hourly@.len() - i,
    {
        times.push(Some(hourly[i].valid));
        i += 1;
        assert(times@ =~= valid_times(hourly@).take(i as int));
    }
    assert(times@ =~= valid_times(hourly@));
    proof {
        if hourly@.len() > 0 {
            assert(times@[0] is Some);
        }
    }
    nearest_of(&times, at)
}

/// The position of the observation nearest in time, among those whose time is known.
pub fn nearest_observation(history: &Vec<Conditions>, at: Stamp) -> (r: Option<usize>)
    ensures
        r is None <==> forall|i: int|
            0 <= i < history@.len() ==> (#[trigger] history@[i]).observed_at is None,
        r matches Some(i) ==> is_nearest(observed_times(history@), at, i as int),
{
    let mut times: Vec<Option<Stamp>> = Vec::new();
    let mut i: usize = 0;
    while i < history.len()
        invariant
            i <= history@.len(),
            times@ == observed_times(history@).take(i as int),
        decreases history@.len() - i,
    {
        times.push(history[i].observed_at);
        i += 1;
        assert(times@ =~= observed_times(history@).take(i as int));
    }
    assert(times@ =~= observed_times(history@));
    assert(forall|k: int|
        0 <= k < history@.len() ==> times@[k] == (#[trigger] history@[k]).observed_at);
    assert(forall|k: int|
        0 <= k < times@.len() ==> (#[trigger] times@[k]) == history@[k].observed_at);
    nearest_of(&times, at)
}

/// A unit is read on a scale only where it belongs to it, and each conversion has its own unit: a
/// value in one unit is never shown as if it were in another.
pub proof fn law_each_conversion_has_its_unit(scale: Scale, unit: Seq<char>)
    ensures
        conversion_to(scale, unit) == Some(Conversion::CelsiusToFahrenheit) <==> scale is Fahrenheit
            && unit == "wmoUnit:degC"@,
        conversion_to(scale, unit) == Some(Conversion::KilometresPerHourToMiles) <==> scale
            is MilesPerHour && unit == "wmoUnit:km_h-1"@,
        conversion_to(scale, unit) == Some(Conversion::MetresPerSecondToMiles) <==> scale
            is MilesPerHour && unit == "wmoUnit:m_s-1"@,
        conversion_to(scale, unit) == Some(Conversion::MetresToMiles) <==> scale is Miles && unit
            == "wmoUnit:m"@,
        conversion_to(scale, unit) == Some(Conversion::MillimetresToInches) <==> scale is Inches
            && unit == "wmoUnit:mm"@,
        conversion_to(scale, unit) == Some(Conversion::MetresToInches) <==> scale is Inches && unit
            == "wmoUnit:m"@,
        conversion_to(scale, unit) == Some(Conversion::AsMeasured) <==> (scale is Fahrenheit && unit
            == "wmoUnit:degF"@) || (scale is Miles && unit == "wmoUnit:mi"@) || (scale is Percent
            && unit == "wmoUnit:percent"@) || (scale is Degrees && unit
            == "wmoUnit:degree_(angle)"@),
{
    reveal_strlit("wmoUnit:degC");
    reveal_strlit("wmoUnit:degF");
    reveal_strlit("wmoUnit:km_h-1");
    reveal_strlit("wmoUnit:m_s-1");
    reveal_strlit("wmoUnit:m");
    reveal_strlit("wmoUnit:mi");
    reveal_strlit("wmoUnit:mm");
    assert("wmoUnit:degC"@[11] == 'C' && "wmoUnit:degF"@[11] == 'F');
    assert("wmoUnit:km_h-1"@.len() == 14 && "wmoUnit:m_s-1"@.len() == 13);
    assert("wmoUnit:m"@.len() == 9 && "wmoUnit:mi"@.len() == 10 && "wmoUnit:mm"@.len() == 10);
}

/// What is shown is what was measured: the value is the one that was published, and there is one
/// only where one was published, in a unit of the scale.
pub proof fn law_missing_stays_missing(q: Quantity, scale: Scale)
    ensures
        shown_if(None, scale) is None,
        shown_if(Some(q), scale) is Some <==> q.value is Some && conversion_to(scale, q.unit_code@)
            is Some,
        shown_if(Some(q), scale) matches Some(m) ==> q.value == Some(m.value) && conversion_to(
            scale,
            q.unit_code@,
        ) == Some(m.conversion),
{
}

/// Stations take turns: every one of them has its own, and after as many as there are it is the
/// first one's again.
pub proof fn law_every_station_has_its_turn(rota: StationRota, i: int)
    requires
        0 <= i < rota.stations@.len(),
        rota.which <= u64::MAX - rota.stations@.len(),
    ensures
        rota.turn() matches Some(t) && 0 <= t < rota.stations@.len(),
        exists|k: int|
            0 <= k < rota.stations@.len() && #[trigger] (StationRota {
                which: (rota.which + k) as u64,
                ..rota
            }).turn() == Some(i),
        (StationRota { which: (rota.which + rota.stations@.len()) as u64, ..rota }).turn()
            == rota.turn(),
{
    let n = rota.stations@.len() as int;
    let w = rota.which as int;
    let t = w % n;
    let k = if i >= t {
        i - t
    } else {
        i - t + n
    };
    let q = w / n;
    vstd::arithmetic::div_mod::lemma_fundamental_div_mod(w, n);
    assert(w == n * q + t);
    let turned = if i >= t {
        q
    } else {
        q + 1
    };
    assert(w + k == turned * n + i) by (nonlinear_arith)
        requires
            w == n * q + t,
            k == (if i >= t {
                i - t
            } else {
                i - t + n
            }),
            turned == (if i >= t {
                q
            } else {
                q + 1
            }),
    ;
    vstd::arithmetic::div_mod::lemma_fundamental_div_mod_converse(w + k, n, turned, i);
    assert((StationRota { which: (rota.which + k) as u64, ..rota }).turn() == Some(i));
    assert(w + n == (q + 1) * n + t) by (nonlinear_arith)
        requires
            w == n * q + t,
    ;
    vstd::arithmetic::div_mod::lemma_fundamental_div_mod_converse(w + n, n, q + 1, t);
}

/// A round asks for nothing that is known and skips nothing that is not: the points first, then
/// the stations, then what one of them observed; without stations only the forecast.
pub proof fn law_round_asks_for_what_is_missing(task: ConditionsTask)
    ensures
        task.past_points() is Report <==> !task.points_known,
        task.past_points() is Stations <==> task.points_known && task.rota.turn() is None,
        task.past_points() is Latest <==> task.points_known && task.rota.turn() is Some,
        task.past_stations() is Latest <==> task.rota.turn() is Some,
        task.past_stations() is Hourly <==> task.rota.turn() is None,
{
}

/// How far two moments lie apart does not depend on which comes first, and grows with each second
/// between them.
pub proof fn law_time_apart_is_symmetric(a: Stamp, b: Stamp)
    ensures
        time_apart(a, b) == time_apart(b, a),
        time_apart(a, a) == 0,
        a.nanos == b.nanos && a.secs >= b.secs ==> time_apart(a, b) == (a.secs - b.secs)
            * 1_000_000_000,
{
}

/// What is asked for is what the round has come to, and observations are asked of the station that
/// the round has settled on.
pub proof fn law_asked_is_what_the_round_has_come_to(task: ConditionsTask, ask: Ask)
    requires
        task.asks(ask),
    ensures
        ask is Points <==> task.stage is Points,
        ask is Stations <==> task.stage is Stations,
        ask is Latest <==> task.stage is Latest,
        ask is History <==> task.stage is History,
        ask is Hourly <==> task.stage is Hourly,
        ask is Report <==> task.stage is Report,
        ask matches Ask::Latest(s) ==> s@ == task.station@,
        ask matches Ask::History(s) ==> s@ == task.station@,
{
}

/// An empty description counts as none, and any other is kept as it is.
pub proof fn law_empty_description_is_none(s: Seq<char>)
    ensures
        s.len() > 0 ==> non_empty(Some(s)) == Some(s),
        s.len() == 0 ==> non_empty(Some(s)) is None,
        non_empty(None) is None,
{
}

/// No forecast lies nearer in time than the nearest, and none before it in the list lies as near;
/// the same of the observations whose time is known.
pub proof fn law_nearest_in_time(
    hourly: Seq<HourlyForecast>,
    history: Seq<Conditions>,
    at: Stamp,
    i: int,
    j: int,
)
    ensures
        is_nearest(valid_times(hourly), at, i) && 0 <= j < hourly.len() ==> time_apart(
            hourly[i].valid,
            at,
        ) <= time_apart(hourly[j].valid, at) && (j < i ==> time_apart(hourly[i].valid, at)
            < time_apart(hourly[j].valid, at)),
        is_nearest(observed_times(history), at, i) ==> history[i].observed_at is Some,
        is_nearest(observed_times(history), at, i) && 0 <= j < history.len()
            && history[j].observed_at is Some ==> time_apart(history[i].observed_at->0, at)
            <= time_apart(history[j].observed_at->0, at),
{
    if 0 <= j < hourly.len() {
        assert(valid_times(hourly)[j] == Some(hourly[j].valid));
    }
    if 0 <= i < hourly.len() {
        assert(valid_times(hourly)[i] == Some(hourly[i].valid));
    }
    if 0 <= j < history.len() {
        assert(observed_times(history)[j] == history[j].observed_at);
    }
    if 0 <= i < history.len() {
        assert(observed_times(history)[i] == history[i].observed_at);
    }
}

} // verus!
