//! The forecast model: which steps there are, where each is published, and what a record
//! must be to be drawn.
//!
//! Each file of forecast hour HH holds records at 15, 30, 45 and 60 minutes past it. The
//! `.idx` file beside it gives byte offsets, so that one record is one ranged request.

use vstd::prelude::*;
#[allow(unused_imports)]
use vstd::string::StringExecFns;
#[allow(unused_imports)]
use crate::ieee::{finite, is_finite};
use crate::radar::RadarProduct;
#[allow(unused_imports)]
use crate::text::{
    bounded_value, contains, decimal, decimal2, is_digit, is_suffix,
    law_first_field_ends_at_the_separator, lemma_decimal_reads_back, lines, number, number2, occurs,
    occurs_at, parse_unsigned, signed_decimal, signed_number, split, split_on, text_lines, texts,
};
#[allow(unused_imports)]
use crate::time::{utc_date_text, Stamp, EARLIEST_SECOND, LATEST_SECOND};

verus! {

/// Where the forecasts are published.
pub const BUCKET: &'static str = "https://noaa-hrrr-bdp-pds.s3.amazonaws.com";

/// Forecasts run to hour 18 and no further.
pub const MAX_LEAD_MINUTES: u16 = 1080;

/// A forecast step, identified by its lead time alone: both the file that holds it and its
/// label in the index follow from the lead.
#[derive(Debug, Clone, Copy, PartialEq, Eq, PartialOrd, Ord, Structural)]
pub struct ForecastStep {
    pub lead: u16,
}

impl ForecastStep {
    /// The hour of the file that holds a step. The file of hour zero is the analysis and
    /// holds no forecast.
    pub open spec fn hour(self) -> int {
        if self.lead == 0 {
            1
        } else {
            (self.lead + 59) / 60
        }
    }

    /// The number of the file that holds a step: its hour, as far as eight bits count. It is
    /// never zero.
    pub open spec fn file_number(self) -> int {
        if self.hour() > 255 {
            255
        } else {
            self.hour()
        }
    }

    pub fn new(lead_minutes: u16) -> (r: ForecastStep)
        ensures
            r.lead == lead_minutes,
    {
        ForecastStep { lead: lead_minutes }
    }

    pub fn lead_minutes(&self) -> (r: i64)
        ensures
            r == self.lead,
    {
        self.lead as i64
    }

    /// The number of the file that holds this step. No lead, however long, names the analysis.
    pub fn file_hour(&self) -> (r: u8)
        ensures
            r == self.file_number(),
            r >= 1,
    {
        let lead: u32 = self.lead as u32;
        let up: u32 = (lead + 59) / 60;
        let hour: u32 = if up < 1 {
            1
        } else {
            up
        };
        assert(hour == self.hour());
        if hour > 255 {
            255
        } else {
            hour as u8
        }
    }
}

/// A step lies in the hour that its file covers: after the hour before, and no later than its
/// own.
pub proof fn law_file_covers_its_leads(step: ForecastStep)
    requires
        step.lead > 0,
    ensures
        (step.hour() - 1) * 60 < step.lead <= step.hour() * 60,
        step.lead <= MAX_LEAD_MINUTES ==> step.file_number() == step.hour(),
{
}

/// The first step after `after`.
pub open spec fn first_lead(interval: u16, after: u16) -> int {
    (after / interval + 1) * interval
}

/// The last lead that may be asked for.
pub open spec fn lead_limit(until: u16) -> int {
    if until < MAX_LEAD_MINUTES {
        until as int
    } else {
        MAX_LEAD_MINUTES as int
    }
}

/// Whether `steps` are exactly the multiples of `interval` in `(after, until]` that are
/// published, in order.
pub open spec fn are_leads(
    interval: u16,
    after: u16,
    until: u16,
    steps: Seq<ForecastStep>,
) -> bool {
    &&& forall|i: int|
        0 <= i < steps.len() ==> (#[trigger] steps[i]).lead == first_lead(interval, after) + i
            * interval
    &&& forall|i: int| 0 <= i < steps.len() ==> (#[trigger] steps[i]).lead <= lead_limit(until)
    &&& first_lead(interval, after) + steps.len() * interval > lead_limit(until)
}

/// The steps at `interval` with leads in `(after, until]`. `after` is how old the model run
/// already is: leads count from the run, while the horizon counts from now.
pub fn leads_every(interval: u16, after: u16, until: u16) -> (steps: Vec<ForecastStep>)
    requires
        interval > 0,
        first_lead(interval, after) <= u16::MAX,
    ensures
        are_leads(interval, after, until, steps@),
{
    let limit: u32 = if until < MAX_LEAD_MINUTES {
        until as u32
    } else {
        MAX_LEAD_MINUTES as u32
    };
    let times: u16 = after / interval;
    proof {
        assert((times + 1) * interval == first_lead(interval, after));
        assert(times < u16::MAX) by (nonlinear_arith)
            requires
                (times + 1) * interval <= u16::MAX,
                interval > 0,
        ;
    }
    let first: u16 = (times + 1) * interval;
    let mut out: Vec<ForecastStep> = Vec::new();
    let mut lead: u32 = first as u32;
    proof {
        assert(0 * interval == 0);
    }
    while lead <= limit
        invariant
            interval > 0,
            first == first_lead(interval, after),
            limit == lead_limit(until),
            limit <= 1080,
            lead == first + out@.len() * interval,
            lead <= u16::MAX + interval,
            forall|i: int|
                0 <= i < out@.len() ==> (#[trigger] out@[i]).lead == first + i * interval,
            forall|i: int| 0 <= i < out@.len() ==> (#[trigger] out@[i]).lead <= limit,
        decreases (if lead <= limit { limit + 1 - lead } else { 0 }),
    {
        let ghost n = out@.len() as int;
        out.push(ForecastStep::new(lead as u16));
        proof {
            assert((n + 1) * interval == n * interval + interval) by (nonlinear_arith);
        }
        lead = lead + interval as u32;
    }
    out
}

/// The steps asked for are all of them: a lead is among them exactly when it is a multiple of
/// the interval, later than `after`, no later than `until`, and published.
pub proof fn law_leads_are_complete(
    interval: u16,
    after: u16,
    until: u16,
    steps: Seq<ForecastStep>,
    lead: u16,
)
    requires
        interval > 0,
        are_leads(interval, after, until, steps),
    ensures
        (exists|i: int| 0 <= i < steps.len() && (#[trigger] steps[i]).lead == lead) <==> (lead
            as int % interval as int == 0 && after < lead <= until && lead <= MAX_LEAD_MINUTES),
{
    let d = interval as int;
    let q = after as int / d;
    let first = first_lead(interval, after);
    vstd::arithmetic::div_mod::lemma_fundamental_div_mod(after as int, d);
    vstd::arithmetic::div_mod::lemma_mod_bound(after as int, d);
    assert(first == d * q + d) by (nonlinear_arith)
        requires
            first == (q + 1) * d,
    ;
    assert(after < first);
    if exists|i: int| 0 <= i < steps.len() && (#[trigger] steps[i]).lead == lead {
        let i = choose|i: int| 0 <= i < steps.len() && (#[trigger] steps[i]).lead == lead;
        assert(lead == (q + 1 + i) * d + 0) by (nonlinear_arith)
            requires
                lead == first + i * d,
                first == (q + 1) * d,
        ;
        assert(i * d >= 0) by (nonlinear_arith)
            requires
                i >= 0,
                d > 0,
        ;
        vstd::arithmetic::div_mod::lemma_fundamental_div_mod_converse(lead as int, d, q + 1 + i, 0);
    }
    if lead as int % d == 0 && after < lead <= until && lead <= MAX_LEAD_MINUTES {
        let p = lead as int / d;
        vstd::arithmetic::div_mod::lemma_fundamental_div_mod(lead as int, d);
        assert(p > q) by (nonlinear_arith)
            requires
                d * q <= after,
                after < lead,
                lead == d * p,
                d > 0,
        ;
        let i = p - q - 1;
        assert(lead == first + i * d) by (nonlinear_arith)
            requires
                lead == d * p,
                first == (q + 1) * d,
                i == p - q - 1,
        ;
        let n = steps.len() as int;
        assert(i < n) by (nonlinear_arith)
            requires
                first + n * d > lead,
                lead == first + i * d,
                d > 0,
        ;
        assert(steps[i].lead == lead);
    }
}

/// The object that holds a step of the run of `cycle`.
pub open spec fn stem_text(date: Seq<char>, hour: int, file_hour: int) -> Seq<char> {
    "hrrr."@ + date + "/conus/hrrr.t"@ + decimal2(hour as nat) + "z.wrfsubhf"@ + decimal2(
        file_hour as nat,
    ) + ".grib2"@
}

/// The object that holds a step of the run of a date and an hour.
pub fn stem_for(date: &str, hour: u64, step: ForecastStep) -> (r: String)
    ensures
        r@ == stem_text(date@, hour as int, step.file_number()),
{
    let hour = number2(hour);
    let file_hour = number2(step.file_hour() as u64);
    let mut out = "hrrr.".to_owned();
    out.append(date);
    out.append("/conus/hrrr.t");
    out.append(hour.as_str());
    out.append("z.wrfsubhf");
    out.append(file_hour.as_str());
    out.append(".grib2");
    out
}

/// The object that holds a step of the run of `cycle`.
pub fn subh_stem(cycle: Stamp, step: ForecastStep) -> (r: String)
    requires
        cycle.wf(),
    ensures
        utc_date_text(cycle.secs) matches Some(date) && r@ == stem_text(
            date,
            cycle.hour_of_day(),
            step.file_number(),
        ),
{
    let date = cycle.date();
    stem_for(date.as_str(), cycle.hour(), step)
}

/// When the forecast of the run of `cycle` is valid so many minutes ahead; none where the
/// calendar does not reach it.
pub fn valid_at(cycle: Stamp, lead_minutes: i64) -> (r: Option<Stamp>)
    requires
        cycle.wf(),
    ensures
        r is Some <==> EARLIEST_SECOND <= cycle.second_after(lead_minutes as int) <= LATEST_SECOND,
        r matches Some(t) ==> {
            &&& t.secs == cycle.second_after(lead_minutes as int)
            &&& t.nanos == cycle.nanos_then(lead_minutes as int)
            &&& t.wf()
        },
{
    cycle.plus_minutes(lead_minutes)
}

/// Why a record cannot be found in an index.
#[derive(Debug, Clone, Copy, PartialEq, Eq, Structural)]
pub enum IndexError {
    /// No line names the field at that lead.
    Missing,
    /// The line has no offset.
    Malformed,
}

/// What a line of the index says of a field at a lead.
pub open spec fn record_label(selector: Seq<char>, lead: int) -> Seq<char> {
    ":"@ + selector + ":"@ + signed_decimal(lead) + " min fcst:"@
}

/// The offset on a line of the index: the second of its fields between colons.
pub open spec fn line_offset(line: Seq<char>) -> Option<nat> {
    let fields = split_on(line, ':');
    if fields.len() < 2 {
        None
    } else {
        bounded_value(fields[1], u64::MAX as nat)
    }
}

/// The first line at or after `from` that holds `label`.
pub open spec fn line_with(lines: Seq<Seq<char>>, label: Seq<char>, from: int) -> Option<int>
    decreases lines.len() - from,
{
    if from >= lines.len() {
        None
    } else if occurs(lines[from], label) {
        Some(from)
    } else {
        line_with(lines, label, from + 1)
    }
}

/// Where a record starts and, where another follows it, ends.
pub open spec fn record_range(lines: Seq<Seq<char>>, label: Seq<char>) -> Result<
    (nat, Option<nat>),
    IndexError,
> {
    match line_with(lines, label, 0) {
        None => Err(IndexError::Missing),
        Some(i) => match line_offset(lines[i]) {
            None => Err(IndexError::Malformed),
            Some(start) => Ok(
                (
                    start,
                    if i + 1 < lines.len() {
                        line_offset(lines[i + 1])
                    } else {
                        None
                    },
                ),
            ),
        },
    }
}

fn offset_of(line: &str) -> (r: Option<u64>)
    ensures
        r is Some <==> line_offset(line@) is Some,
        r matches Some(v) ==> line_offset(line@) == Some(v as nat),
{
    let fields = split(line, ':');
    assert(texts(fields@).len() == fields@.len());
    if fields.len() < 2 {
        return None;
    }
    assert(texts(fields@)[1] == fields@[1]@);
    parse_unsigned(fields[1].as_str(), u64::MAX)
}

/// The end of a range as a number.
pub open spec fn opt_nat(o: Option<u64>) -> Option<nat> {
    match o {
        Some(v) => Some(v as nat),
        None => None,
    }
}

/// The byte range of a record, read from the index beside its file. The index gives where
/// each record starts, so a record ends where the next one begins, and the last is fetched
/// open-ended.
pub fn record_byte_range(index: &str, selector: &str, lead_minutes: i64) -> (r: Result<
    (u64, Option<u64>),
    IndexError,
>)
    ensures
        ({
            let said = record_range(
                text_lines(index@),
                record_label(selector@, lead_minutes as int),
            );
            match r {
                Ok(range) => said == Ok::<(nat, Option<nat>), IndexError>(
                    (range.0 as nat, opt_nat(range.1)),
                ),
                Err(e) => said == Err::<(nat, Option<nat>), IndexError>(e),
            }
        }),
{
    let mut wanted = ":".to_owned();
    wanted.append(selector);
    wanted.append(":");
    let lead = signed_number(lead_minutes);
    wanted.append(lead.as_str());
    wanted.append(" min fcst:");
    let all = lines(index);
    let ghost seen = text_lines(index@);
    let ghost label = record_label(selector@, lead_minutes as int);
    let mut i: usize = 0;
    assert(seen.len() == all@.len());
    assert(forall|k: int| 0 <= k < seen.len() ==> seen[k] == (#[trigger] all@[k])@) by {
        assert(forall|k: int| 0 <= k < all@.len() ==> texts(all@)[k] == (#[trigger] all@[k])@);
    }
    while i < all.len()
        invariant
            i <= all@.len(),
            seen.len() == all@.len(),
            forall|k: int| 0 <= k < seen.len() ==> seen[k] == (#[trigger] all@[k])@,
            wanted@ == label,
            line_with(seen, label, 0) == line_with(seen, label, i as int),
            seen == text_lines(index@),
            label == record_label(selector@, lead_minutes as int),
        decreases all@.len() - i,
    {
        assert(seen[i as int] == all@[i as int]@);
        if contains(all[i].as_str(), wanted.as_str()) {
            return match offset_of(all[i].as_str()) {
                None => Err(IndexError::Malformed),
                Some(start) => {
                    let end: Option<u64> = if i + 1 < all.len() {
                        assert(seen[i + 1] == all@[i + 1]@);
                        offset_of(all[i + 1].as_str())
                    } else {
                        None
                    };
                    Ok((start, end))
                },
            };
        }
        i += 1;
    }
    Err(IndexError::Missing)
}

/// The `Range` header of a request: the last byte it names belongs to the range.
pub open spec fn range_text(start: nat, end: Option<nat>) -> Seq<char> {
    match end {
        Some(e) => "bytes="@ + decimal(start) + "-"@ + decimal(
            if e > 0 {
                (e - 1) as nat
            } else {
                0
            },
        ),
        None => "bytes="@ + decimal(start) + "-"@,
    }
}

pub fn range_header(start: u64, end: Option<u64>) -> (r: String)
    ensures
        r@ == range_text(start as nat, opt_nat(end)),
{
    let mut out = "bytes=".to_owned();
    let from = number(start);
    out.append(from.as_str());
    out.append("-");
    if let Some(e) = end {
        let last = number(e.saturating_sub(1));
        out.append(last.as_str());
    }
    out
}

/// A field of the model that can be shown, with its name in the index.
pub open spec fn index_name(product: RadarProduct) -> Option<Seq<char>> {
    match product {
        RadarProduct::Reflectivity => Some("REFC:entire atmosphere"@),
        RadarProduct::EchoTop => Some("RETOP:cloud top"@),
        RadarProduct::VerticallyIntegratedLiquid => Some("VIL:entire atmosphere"@),
        _ => None,
    }
}

/// The name of a product in the index, for the products that the model forecasts.
pub fn selector_of(product: RadarProduct) -> (r: Option<&'static str>)
    ensures
        r is Some <==> index_name(product) is Some,
        r matches Some(s) ==> index_name(product) == Some(s@),
        r is Some <==> product is Reflectivity || product is EchoTop || product
            is VerticallyIntegratedLiquid,
        product is Reflectivity ==> r->Some_0@ == "REFC:entire atmosphere"@ && r->Some_0@.take(5)
            == "REFC:"@,
        product is EchoTop ==> r->Some_0@ == "RETOP:cloud top"@ && r->Some_0@.take(6)
            == "RETOP:"@,
        product is VerticallyIntegratedLiquid ==> r->Some_0@ == "VIL:entire atmosphere"@
            && r->Some_0@.take(4) == "VIL:"@,
{
    proof {
        law_each_field_has_its_own_name(product, product);
    }
    match product {
        RadarProduct::Reflectivity => Some("REFC:entire atmosphere"),
        RadarProduct::EchoTop => Some("RETOP:cloud top"),
        RadarProduct::VerticallyIntegratedLiquid => Some("VIL:entire atmosphere"),
        _ => None,
    }
}

/// The products that the model forecasts, the one a frame cannot do without first.
pub fn forecastable() -> (r: Vec<RadarProduct>)
    ensures
        r@ == seq![
            RadarProduct::Reflectivity,
            RadarProduct::EchoTop,
            RadarProduct::VerticallyIntegratedLiquid,
        ],
        forall|p: RadarProduct| r@.contains(p) <==> #[trigger] index_name(p) is Some,
{
    let r: Vec<RadarProduct> = vec![
        RadarProduct::Reflectivity,
        RadarProduct::EchoTop,
        RadarProduct::VerticallyIntegratedLiquid,
    ];
    assert(r@ =~= seq![
        RadarProduct::Reflectivity,
        RadarProduct::EchoTop,
        RadarProduct::VerticallyIntegratedLiquid,
    ]);
    assert forall|p: RadarProduct| r@.contains(p) <==> #[trigger] index_name(p) is Some by {
        assert(r@[0] == RadarProduct::Reflectivity);
        assert(r@[1] == RadarProduct::EchoTop);
        assert(r@[2] == RadarProduct::VerticallyIntegratedLiquid);
    }
    r
}

/// The hour of `now`, less `back` hours.
pub open spec fn cycle_back(now: Stamp, back: int) -> int {
    now.secs - now.secs as int % 3_600 - back * 3_600
}

/// The model runs that may be the latest, newest first. Runs are hourly and published late,
/// so the hour of `now` itself is left out, and six hours back are tried.
pub fn cycle_candidates(now: Stamp) -> (r: Vec<Stamp>)
    requires
        now.wf(),
        now.secs >= EARLIEST_SECOND + 7 * 3_600,
    ensures
        r@.len() == 6,
        forall|i: int|
            0 <= i < 6 ==> (#[trigger] r@[i]).wf() && r@[i].secs == cycle_back(now, i + 1)
                && r@[i].nanos == 0,
{
    let second: u64 = now.second_of_day();
    let past_hour: i64 = (second % 3_600) as i64;
    proof {
        let s = now.secs as int;
        vstd::arithmetic::div_mod::lemma_mod_mod(s, 3_600, 24);
        assert((s % 86_400) % 3_600 == s % 3_600);
    }
    let base: i64 = now.secs - past_hour;
    let mut out: Vec<Stamp> = Vec::new();
    let mut back: i64 = 1;
    while back <= 6
        invariant
            1 <= back <= 7,
            out@.len() == back - 1,
            now.wf(),
            now.secs >= EARLIEST_SECOND + 7 * 3_600,
            base == now.secs - now.secs as int % 3_600,
            forall|i: int|
                0 <= i < out@.len() ==> (#[trigger] out@[i]).wf() && out@[i].secs == cycle_back(
                    now,
                    i + 1,
                ) && out@[i].nanos == 0,
        decreases 7 - back,
    {
        out.push(Stamp { secs: base - back * 3_600, nanos: 0 });
        back += 1;
    }
    out
}

/// The latest run that is published: the first candidate of which `published` says so.
pub fn latest_cycle(candidates: &Vec<Stamp>, published: &Vec<bool>) -> (r: Option<Stamp>)
    requires
        candidates@.len() == published@.len(),
    ensures
        r is None <==> forall|i: int| 0 <= i < published@.len() ==> !(#[trigger] published@[i]),
        r matches Some(t) ==> exists|i: int|
            0 <= i < published@.len() && t == candidates@[i] && (#[trigger] published@[i])
                && forall|j: int| 0 <= j < i ==> !(#[trigger] published@[j]),
{
    let mut i: usize = 0;
    while i < candidates.len()
        invariant
            i <= candidates@.len(),
            candidates@.len() == published@.len(),
            forall|j: int| 0 <= j < i ==> !(#[trigger] published@[j]),
        decreases candidates@.len() - i,
    {
        if published[i] {
            return Some(candidates[i]);
        }
        i += 1;
    }
    None
}

/// What becomes of a step when one of its fields has been asked for.
#[derive(Debug, Clone, Copy, PartialEq, Eq, Structural)]
pub enum LayerOutcome {
    /// The field belongs to the frame.
    Keep,
    /// The frame goes without the field.
    GoWithout,
    /// There is no frame.
    Abandon,
}

/// Reflectivity is the frame, and without it there is nothing to show. Any other field only
/// narrows the list of products.
pub fn layer_outcome(product: RadarProduct, decoded: bool) -> (r: LayerOutcome)
    ensures
        r is Keep <==> decoded,
        r is Abandon <==> !decoded && product is Reflectivity,
        r is GoWithout <==> !decoded && !(product is Reflectivity),
{
    if decoded {
        LayerOutcome::Keep
    } else if product == RadarProduct::Reflectivity {
        LayerOutcome::Abandon
    } else {
        LayerOutcome::GoWithout
    }
}

/// The grid definition of a record. Angles are in millionths of a degree, lengths in
/// millimetres.
#[derive(Debug, Clone, Copy, PartialEq, Eq, Structural)]
pub struct GridTemplate {
    /// Whether this is the Lambert conformal template.
    pub lambert: bool,
    pub scanning_mode: u8,
    pub ni: u32,
    pub nj: u32,
    pub first_lat: i32,
    pub first_lon: u32,
    pub lad: i32,
    pub lov: u32,
    pub latin1: i32,
    pub latin2: i32,
    pub dx: u32,
    pub dy: u32,
}

/// Why a record cannot be drawn.
#[derive(Debug, Clone, Copy, PartialEq, Eq, Structural)]
pub enum LayerError {
    /// The grid is not Lambert conformal.
    NotLambert,
    /// The values are not stored row by row, west to east and then south to north, so that
    /// every echo would be drawn in the wrong place.
    ScanningMode(u8),
    /// The grid has no extent.
    Degenerate,
    /// There are this many values, which is not one for each point.
    ValueCount(usize),
}

/// Whether values run from west to east, each row beginning where the last one did.
pub open spec fn runs_east(mode: u8) -> bool {
    mode & 0x80 == 0 && mode & 0x20 == 0 && mode & 0x10 == 0
}

/// Whether rows run from south to north.
pub open spec fn runs_north(mode: u8) -> bool {
    mode & 0x40 != 0
}

/// What is wrong with a record of `values` values, if anything is.
pub open spec fn layer_fault(t: GridTemplate, values: nat) -> Option<LayerError> {
    if !t.lambert {
        Some(LayerError::NotLambert)
    } else if !(runs_east(t.scanning_mode) && runs_north(t.scanning_mode)) {
        Some(LayerError::ScanningMode(t.scanning_mode))
    } else if t.ni == 0 || t.nj == 0 || t.dx == 0 || t.dy == 0 {
        Some(LayerError::Degenerate)
    } else if values != t.ni * t.nj {
        Some(LayerError::ValueCount(values as usize))
    } else {
        None
    }
}

/// The index of a grid point, row by row from the south; none outside the grid, which is how
/// a place that the model does not cover has no forecast.
pub fn grid_index(ni: u32, nj: u32, column: i64, row: i64) -> (r: Option<u64>)
    ensures
        r is Some <==> 0 <= column < ni && 0 <= row < nj,
        r matches Some(k) ==> k == row * ni + column && k < ni * nj,
{
    if column < 0 || row < 0 || column >= ni as i64 || row >= nj as i64 {
        return None;
    }
    proof {
        crate::lattice::lemma_index_in_range(column as int, row as int, ni as int, nj as int);
        assert(ni * nj <= 0xFFFF_FFFF * 0xFFFF_FFFF) by (nonlinear_arith)
            requires
                ni <= 0xFFFF_FFFF,
                nj <= 0xFFFF_FFFF,
        ;
    }
    Some(row as u64 * ni as u64 + column as u64)
}

/// A decoded field: its product and its values, the bit patterns of singles, row by row.
#[derive(Debug, Clone)]
pub struct Layer {
    pub product: RadarProduct,
    pub values: Vec<u32>,
}

/// The decoded fields of one step.
#[derive(Debug, Clone)]
pub struct HrrrField {
    pub layers: Vec<Layer>,
    pub label: String,
    pub valid_at: Stamp,
    pub lead_minutes: i64,
}

/// The values of the first layer of a product.
pub open spec fn layer_values(layers: Seq<Layer>, product: RadarProduct) -> Option<Seq<u32>>
    decreases layers.len(),
{
    if layers.len() == 0 {
        None
    } else if layers[0].product == product {
        Some(layers[0].values@)
    } else {
        layer_values(layers.drop_first(), product)
    }
}

impl HrrrField {
    /// The name under which a step is shown.
    pub open spec fn step_name(lead: int) -> Seq<char> {
        "HRRR +"@ + signed_decimal(lead) + "min"@
    }

    pub fn from_layers(layers: Vec<Layer>, valid_at: Stamp, lead_minutes: i64) -> (r: HrrrField)
        ensures
            r.layers@ == layers@,
            r.label@ == HrrrField::step_name(lead_minutes as int),
            r.label@ == "HRRR +"@ + signed_decimal(lead_minutes as int) + "min"@,
            r.valid_at == valid_at,
            r.lead_minutes == lead_minutes,
    {
        let mut label = "HRRR +".to_owned();
        let lead = signed_number(lead_minutes);
        label.append(lead.as_str());
        label.append("min");
        HrrrField { layers, label, valid_at, lead_minutes }
    }

    /// Accepts a record whose grid is one that can be indexed and whose values fill it.
    pub fn decode_layer(t: &GridTemplate, values: &Vec<u32>) -> (r: Result<(), LayerError>)
        ensures
            r is Ok <==> layer_fault(*t, values@.len()) is None,
            r matches Err(e) ==> layer_fault(*t, values@.len()) == Some(e),
    {
        if !t.lambert {
            return Err(LayerError::NotLambert);
        }
        let mode: u8 = t.scanning_mode;
        if !(mode & 0x80 == 0 && mode & 0x20 == 0 && mode & 0x10 == 0 && mode & 0x40 != 0) {
            return Err(LayerError::ScanningMode(mode));
        }
        if t.ni == 0 || t.nj == 0 || t.dx == 0 || t.dy == 0 {
            return Err(LayerError::Degenerate);
        }
        assert(t.ni * t.nj <= 0xFFFF_FFFF * 0xFFFF_FFFF) by (nonlinear_arith)
            requires
                t.ni <= 0xFFFF_FFFF,
                t.nj <= 0xFFFF_FFFF,
        ;
        let points: u128 = t.ni as u128 * t.nj as u128;
        if values.len() as u128 != points {
            return Err(LayerError::ValueCount(values.len()));
        }
        Ok(())
    }

    /// Whether the step holds a product.
    pub fn supports(&self, product: RadarProduct) -> (r: bool)
        ensures
            r == layer_values(self.layers@, product) is Some,
    {
        self.find(product).is_some()
    }

    fn find(&self, product: RadarProduct) -> (r: Option<usize>)
        ensures
            r is Some <==> layer_values(self.layers@, product) is Some,
            r matches Some(i) ==> i < self.layers@.len() && layer_values(self.layers@, product)
                == Some(self.layers@[i as int].values@),
    {
        let mut i: usize = 0;
        assert(self.layers@.skip(0) =~= self.layers@);
        while i < self.layers.len()
            invariant
                i <= self.layers@.len(),
                layer_values(self.layers@.skip(i as int), product) == layer_values(
                    self.layers@,
                    product,
                ),
            decreases self.layers@.len() - i,
        {
            assert(self.layers@.skip(i as int)[0] == self.layers@[i as int]);
            assert(self.layers@.skip(i as int).drop_first() =~= self.layers@.skip(i + 1));
            if self.layers[i].product == product {
                return Some(i);
            }
            i += 1;
        }
        None
    }

    /// The value of a product at a grid point, as it was published: none where the product is
    /// not held, the point lies beyond the values, or the value is no finite number.
    pub fn raw_value(&self, product: RadarProduct, index: usize) -> (r: Option<u32>)
        ensures
            r == match layer_values(self.layers@, product) {
                Some(values) => if index < values.len() && finite(values[index as int]) {
                    Some(values[index as int])
                } else {
                    None
                },
                None => None,
            },
    {
        match self.find(product) {
            Some(i) => {
                let values = &self.layers[i].values;
                if index < values.len() && is_finite(values[index]) {
                    Some(values[index])
                } else {
                    None
                }
            },
            None => None,
        }
    }
}

/// Each field that the model forecasts is looked up under the name it is published by, and no two
/// under one name.
pub proof fn law_each_field_has_its_own_name(p: RadarProduct, q: RadarProduct)
    ensures
        index_name(p) is Some <==> p is Reflectivity || p is EchoTop || p
            is VerticallyIntegratedLiquid,
        p is Reflectivity ==> index_name(p)->0.take(5) == "REFC:"@,
        p is EchoTop ==> index_name(p)->0.take(6) == "RETOP:"@,
        p is VerticallyIntegratedLiquid ==> index_name(p)->0.take(4) == "VIL:"@,
        index_name(p) is Some && index_name(p) == index_name(q) ==> p == q,
{
    reveal_strlit("REFC:entire atmosphere");
    reveal_strlit("RETOP:cloud top");
    reveal_strlit("VIL:entire atmosphere");
    reveal_strlit("REFC:");
    reveal_strlit("RETOP:");
    reveal_strlit("VIL:");
    assert("REFC:entire atmosphere"@.take(5) =~= "REFC:"@);
    assert("RETOP:cloud top"@.take(6) =~= "RETOP:"@);
    assert("VIL:entire atmosphere"@.take(4) =~= "VIL:"@);
    assert("REFC:entire atmosphere"@[0] == 'R' && "REFC:entire atmosphere"@[2] == 'F');
    assert("RETOP:cloud top"@[0] == 'R' && "RETOP:cloud top"@[2] == 'T');
    assert("VIL:entire atmosphere"@[0] == 'V');
}

proof fn lemma_line_found(lines: Seq<Seq<char>>, label: Seq<char>, from: int, i: int)
    requires
        0 <= from <= i <= lines.len(),
        forall|j: int| from <= j < i ==> !occurs(#[trigger] lines[j], label),
        i < lines.len() ==> occurs(lines[i], label),
    ensures
        line_with(lines, label, from) == (if i < lines.len() {
            Some(i)
        } else {
            None
        }),
    decreases i - from,
{
    if from < i {
        assert(!occurs(lines[from], label));
        lemma_line_found(lines, label, from + 1, i);
    }
}

/// A record lies between its own offset and that of the line after it: the first line that holds
/// `:field:lead min fcst:` decides, whatever the lines before and after the two of them say, and
/// the record of the last line runs to the end of the file.
pub proof fn law_record_ends_where_the_next_begins(
    lines: Seq<Seq<char>>,
    selector: Seq<char>,
    lead: int,
    i: int,
)
    requires
        0 <= i <= lines.len(),
        forall|j: int|
            0 <= j < i ==> !occurs(
                #[trigger] lines[j],
                ":"@ + selector + ":"@ + signed_decimal(lead) + " min fcst:"@,
            ),
        i < lines.len() ==> occurs(
            lines[i],
            ":"@ + selector + ":"@ + signed_decimal(lead) + " min fcst:"@,
        ),
    ensures
        ({
            let said = record_range(lines, record_label(selector, lead));
            &&& i == lines.len() ==> said == Err::<(nat, Option<nat>), IndexError>(
                IndexError::Missing,
            )
            &&& i < lines.len() && line_offset(lines[i]) is None ==> said == Err::<
                (nat, Option<nat>),
                IndexError,
            >(IndexError::Malformed)
            &&& i < lines.len() && line_offset(lines[i]) is Some ==> said is Ok && Some(said->Ok_0.0)
                == line_offset(lines[i])
            &&& i + 1 == lines.len() && said is Ok ==> said->Ok_0.1 is None
            &&& i + 1 < lines.len() && said is Ok ==> said->Ok_0.1 == line_offset(lines[i + 1])
        }),
{
    lemma_line_found(lines, record_label(selector, lead), 0, i);
}

/// The offset on a line is the number in its second field: on `n:offset:...` it is `offset`,
/// whatever the other fields say, as long as it can be held.
pub proof fn law_offset_is_the_second_field(n: Seq<char>, offset: u64, rest: Seq<char>)
    requires
        !n.contains(':'),
    ensures
        line_offset(n + seq![':'] + (decimal(offset as nat) + seq![':'] + rest)) == Some(
            offset as nat,
        ),
        line_offset(n) is None,
{
    lemma_decimal_reads_back(offset as nat);
    let d = decimal(offset as nat);
    assert(!d.contains(':')) by {
        if d.contains(':') {
            let i = choose|i: int| 0 <= i < d.len() && d[i] == ':';
            assert(is_digit(d[i]));
        }
    }
    law_first_field_ends_at_the_separator(n, ':', d + seq![':'] + rest);
    law_first_field_ends_at_the_separator(d, ':', rest);
    let fields = split_on(n + seq![':'] + (d + seq![':'] + rest), ':');
    assert(fields =~= seq![n] + (seq![d] + split_on(rest, ':')));
    assert(fields[1] == d);
}

/// A request names its first byte and its last, which is the one before the next record begins;
/// an open one names only the first.
pub proof fn law_range_names_first_and_last_byte(start: u64, end: u64)
    requires
        start < end,
    ensures
        range_text(start as nat, None) == "bytes="@ + decimal(start as nat) + "-"@,
        range_text(start as nat, Some(end as nat)) == range_text(start as nat, None) + decimal(
            (end - 1) as nat,
        ),
{
}

/// An object is named by the date of its run, then by the hour of the run, then by the hour of the
/// file.
pub proof fn law_object_is_named_by_run_then_file(date: Seq<char>, hour: int, file: int)
    ensures
        occurs_at(
            stem_text(date, hour, file),
            "hrrr."@ + date + "/conus/hrrr.t"@ + decimal2(hour as nat),
            0,
        ),
        is_suffix(stem_text(date, hour, file), "z.wrfsubhf"@ + decimal2(file as nat) + ".grib2"@),
        stem_text(date, hour, file) == ("hrrr."@ + date + "/conus/hrrr.t"@ + decimal2(hour as nat))
            + ("z.wrfsubhf"@ + decimal2(file as nat) + ".grib2"@),
{
    let a = "hrrr."@ + date + "/conus/hrrr.t"@ + decimal2(hour as nat);
    let b = "z.wrfsubhf"@ + decimal2(file as nat) + ".grib2"@;
    let s = stem_text(date, hour, file);
    assert(s =~= a + b);
    assert(s.subrange(0, a.len() as int) =~= a);
    assert(s.subrange(s.len() - b.len(), s.len() as int) =~= b);
}

/// A run is on the hour, and the one so many back began so many hours ago and less than an hour
/// more.
pub proof fn law_runs_begin_on_the_hour(now: Stamp, back: int)
    ensures
        cycle_back(now, back) % 3_600 == 0,
        back * 3_600 <= now.secs - cycle_back(now, back) < (back + 1) * 3_600,
{
    let h = now.secs as int / 3_600;
    assert(cycle_back(now, back) == (h - back) * 3_600);
    assert(((h - back) * 3_600) % 3_600 == 0);
}

/// A record can be drawn exactly where its grid is Lambert conformal, its values run row by row
/// from west to east and the rows from south to north, no extent is zero and there is a value for
/// each point. How the values run is told by the upper four bits alone.
pub proof fn law_only_sound_records_are_drawn(t: GridTemplate, values: nat)
    ensures
        layer_fault(t, values) is None <==> t.lambert && 0x40 <= t.scanning_mode < 0x50 && t.ni > 0
            && t.nj > 0 && t.dx > 0 && t.dy > 0 && values == t.ni * t.nj,
        layer_fault(t, values) == Some(LayerError::NotLambert) <==> !t.lambert,
        layer_fault(t, values) matches Some(LayerError::ScanningMode(m)) ==> m == t.scanning_mode
            && !(0x40 <= m < 0x50),
{
    let m = t.scanning_mode;
    assert((m & 0x80 == 0 && m & 0x20 == 0 && m & 0x10 == 0 && m & 0x40 != 0) <==> (0x40 <= m
        && m < 0x50)) by (bit_vector);
}

/// A field is found by its product: of two layers of one product the first counts, and those of
/// other products play no part.
pub proof fn law_first_layer_of_a_product_counts(
    layers: Seq<Layer>,
    product: RadarProduct,
    i: int,
)
    requires
        0 <= i <= layers.len(),
        forall|j: int| 0 <= j < i ==> (#[trigger] layers[j]).product != product,
        i < layers.len() ==> layers[i].product == product,
    ensures
        layer_values(layers, product) == (if i < layers.len() {
            Some(layers[i].values@)
        } else {
            None
        }),
    decreases layers.len(),
{
    if i > 0 {
        assert(layers[0].product != product);
        let rest = layers.drop_first();
        assert forall|j: int| 0 <= j < i - 1 implies (#[trigger] rest[j]).product != product by {
            assert(rest[j] == layers[j + 1]);
        }
        law_first_layer_of_a_product_counts(rest, product, i - 1);
    }
}

} // verus!
