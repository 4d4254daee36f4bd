//! Moments in time.

use vstd::prelude::*;
#[allow(unused_imports)]
use vstd::string::StringExecFns;
#[allow(unused_imports)]
use crate::text::opt_text;

verus! {

/// The earliest second that a moment can name.
pub const EARLIEST_SECOND: i64 = -8_334_601_228_800;

/// The latest second that a moment can name.
pub const LATEST_SECOND: i64 = 8_210_266_876_799;

/// A moment: whole seconds since the Unix epoch and the nanoseconds past them. A leap
/// second is counted as nanoseconds beyond the first thousand million.
#[derive(Debug, Clone, Copy, PartialEq, Eq, PartialOrd, Ord, Hash, Structural)]
pub struct Stamp {
    pub secs: i64,
    pub nanos: u32,
}

impl Stamp {
    /// Whether this is a moment the calendar reaches.
    pub open spec fn wf(self) -> bool {
        EARLIEST_SECOND <= self.secs <= LATEST_SECOND && self.nanos < 2_000_000_000
    }

    /// Whether this moment comes before `other`.
    pub open spec fn before(self, other: Stamp) -> bool {
        self.secs < other.secs || (self.secs == other.secs && self.nanos < other.nanos)
    }

    /// Nanoseconds since the epoch.
    pub open spec fn total_nanos(self) -> int {
        self.secs * 1_000_000_000 + self.nanos
    }

    /// The leap second between the clocks of two moments, where the one whose clock stands
    /// lower lies within one.
    pub open spec fn leap_after(self, earlier: Stamp) -> int {
        let (a, b) = (self.secs as int % 86_400, earlier.secs as int % 86_400);
        if a > b && earlier.nanos >= 1_000_000_000 {
            1
        } else if a < b && self.nanos >= 1_000_000_000 {
            -1
        } else {
            0
        }
    }

    /// Nanoseconds from `earlier` to this moment, negative if it comes first.
    pub open spec fn nanos_after(self, earlier: Stamp) -> int {
        self.total_nanos() - earlier.total_nanos() + self.leap_after(earlier) * 1_000_000_000
    }

    /// Whole milliseconds from `earlier` to this moment, rounded toward zero.
    pub open spec fn millis_after(self, earlier: Stamp) -> int {
        toward_zero(self.nanos_after(earlier), 1_000_000)
    }

    pub fn is_before(&self, other: &Stamp) -> (r: bool)
        ensures
            r == self.before(*other),
    {
        self.secs < other.secs || (self.secs == other.secs && self.nanos < other.nanos)
    }

    fn nanos_since(&self, earlier: &Stamp) -> (r: i128)
        requires
            self.wf(),
            earlier.wf(),
        ensures
            r == self.nanos_after(*earlier),
    {
        let a: i128 = self.secs as i128 * 1_000_000_000 + self.nanos as i128;
        let b: i128 = earlier.secs as i128 * 1_000_000_000 + earlier.nanos as i128;
        let here: u64 = self.second_of_day();
        let there: u64 = earlier.second_of_day();
        let leap: i128 = if here > there && earlier.nanos >= 1_000_000_000 {
            1_000_000_000
        } else if here < there && self.nanos >= 1_000_000_000 {
            -1_000_000_000
        } else {
            0
        };
        a - b + leap
    }

    /// Whole milliseconds from `earlier` to this moment, negative if it comes first.
    pub fn millis_since(&self, earlier: &Stamp) -> (r: i64)
        requires
            self.wf(),
            earlier.wf(),
        ensures
            r == self.millis_after(*earlier),
    {
        let d: i128 = self.nanos_since(earlier);
        if d < 0 {
            let m: i128 = (-d) / 1_000_000;
            -(m as i64)
        } else {
            (d / 1_000_000) as i64
        }
    }
}

impl Stamp {
    /// The second of the moment so many minutes later. Going back from within a leap second, the
    /// second that it follows counts as over.
    pub open spec fn second_after(self, minutes: int) -> int {
        self.secs + 60 * minutes + (if self.nanos >= 1_000_000_000 && minutes < 0 {
            1int
        } else {
            0
        })
    }

    /// The nanoseconds of the moment so many minutes later, which lies in no leap second unless
    /// it is this moment.
    pub open spec fn nanos_then(self, minutes: int) -> int {
        if self.nanos >= 1_000_000_000 && minutes != 0 {
            self.nanos - 1_000_000_000
        } else {
            self.nanos as int
        }
    }

    /// The moment so many minutes later, or earlier where they are negative; none where the
    /// calendar does not reach it.
    pub fn plus_minutes(&self, minutes: i64) -> (r: Option<Stamp>)
        requires
            self.wf(),
        ensures
            r is Some <==> EARLIEST_SECOND <= self.second_after(minutes as int) <= LATEST_SECOND,
            r matches Some(t) ==> {
                &&& t.secs == self.second_after(minutes as int)
                &&& t.nanos == self.nanos_then(minutes as int)
                &&& t.wf()
            },
    {
        let leap: bool = self.nanos >= 1_000_000_000 && minutes != 0;
        let over: i128 = if leap && minutes < 0 {
            1
        } else {
            0
        };
        let secs: i128 = self.secs as i128 + 60 * (minutes as i128) + over;
        if secs < EARLIEST_SECOND as i128 || secs > LATEST_SECOND as i128 {
            return None;
        }
        let nanos: u32 = if leap {
            (self.nanos - 1_000_000_000) as u32
        } else {
            self.nanos
        };
        Some(Stamp { secs: secs as i64, nanos })
    }
}

/// `n / d`, rounded toward zero.
pub open spec fn toward_zero(n: int, d: int) -> int {
    if n < 0 {
        -((-n) / d)
    } else {
        n / d
    }
}

/// The moment that an RFC 3339 text names, as seconds and nanoseconds, or nothing where
/// the text is not one.
pub uninterp spec fn rfc3339_moment(s: Seq<char>) -> Option<(i64, u32)>;

/// `chrono::DateTime::parse_from_rfc3339`, its error dropped, and the moment it gives taken
/// as seconds and nanoseconds since the epoch. What it accepts depends on the text alone, and
/// a moment it gives lies within chrono's calendar.
#[verifier::external_body]
fn rfc3339(s: &str) -> (r: Option<(i64, u32)>)
    ensures
        r == rfc3339_moment(s@),
        r matches Some(m) ==> EARLIEST_SECOND <= m.0 <= LATEST_SECOND && m.1 < 2_000_000_000,
{
    let t = chrono::DateTime::parse_from_rfc3339(s).ok()?.to_utc();
    Some((t.timestamp(), t.timestamp_subsec_nanos()))
}

/// The moment named by seconds and nanoseconds.
pub open spec fn stamp_of(m: Option<(i64, u32)>) -> Option<Stamp> {
    match m {
        Some(p) => Some(Stamp { secs: p.0, nanos: p.1 }),
        None => None,
    }
}

/// Reads an RFC 3339 timestamp.
pub fn parse_timestamp(s: &str) -> (r: Option<Stamp>)
    ensures
        r == stamp_of(rfc3339_moment(s@)),
        r matches Some(t) ==> t.wf(),
{
    match rfc3339(s) {
        Some(p) => Some(Stamp { secs: p.0, nanos: p.1 }),
        None => None,
    }
}

/// The calendar date in UTC of a second since the epoch, as eight digits, where the calendar
/// reaches it.
pub uninterp spec fn utc_date_text(secs: i64) -> Option<Seq<char>>;

/// `chrono::DateTime::from_timestamp` and the result's `format("%Y%m%d")`. The text depends on
/// the second alone, and there is one for every second within chrono's calendar.
#[verifier::external_body]
fn date_text(secs: i64) -> (r: Option<String>)
    ensures
        opt_text(r) == utc_date_text(secs),
        EARLIEST_SECOND <= secs <= LATEST_SECOND ==> r is Some,
{
    let t = chrono::DateTime::from_timestamp(secs, 0)?;
    Some(t.format("%Y%m%d").to_string())
}

impl Stamp {
    /// The hour of the day in UTC.
    pub open spec fn hour_of_day(self) -> int {
        (self.secs as int % 86_400) / 3_600
    }

    /// The second of the day in UTC.
    pub fn second_of_day(&self) -> (r: u64)
        ensures
            r == self.secs as int % 86_400,
    {
        let secs: i128 = self.secs as i128;
        let day: i128 = 86_400;
        let cut: i128 = if secs >= 0 {
            secs % day
        } else {
            let back: i128 = (-secs) % day;
            if back == 0 {
                0
            } else {
                day - back
            }
        };
        proof {
            lemma_euclidean(secs as int, 86_400, cut as int);
        }
        cut as u64
    }

    pub fn hour(&self) -> (r: u64)
        ensures
            r == self.hour_of_day(),
            r < 24,
    {
        self.second_of_day() / 3_600
    }

    /// The date in UTC, as eight digits.
    pub fn date(&self) -> (r: String)
        requires
            self.wf(),
        ensures
            utc_date_text(self.secs) == Some(r@),
    {
        match date_text(self.secs) {
            Some(d) => d,
            None => String::new(),
        }
    }
}

proof fn lemma_euclidean(n: int, d: int, r: int)
    requires
        d > 0,
        n >= 0 ==> r == n % d,
        n < 0 ==> r == (if (-n) % d == 0 {
            0
        } else {
            d - (-n) % d
        }),
    ensures
        r == n % d,
{
    if n < 0 {
        let m = -n;
        let q = m / d;
        vstd::arithmetic::div_mod::lemma_fundamental_div_mod(m, d);
        vstd::arithmetic::div_mod::lemma_mod_bound(m, d);
        if m % d == 0 {
            assert(n == (-q) * d + 0) by (nonlinear_arith)
                requires
                    m == d * q + 0,
                    n == -m,
            ;
            vstd::arithmetic::div_mod::lemma_fundamental_div_mod_converse(n, d, -q, 0);
        } else {
            assert(n == (-q - 1) * d + (d - m % d)) by (nonlinear_arith)
                requires
                    m == d * q + m % d,
                    n == -m,
            ;
            vstd::arithmetic::div_mod::lemma_fundamental_div_mod_converse(n, d, -q - 1, d - m % d);
        }
    }
}

/// Whether a text is the name of a time zone.
pub uninterp spec fn is_zone(name: Seq<char>) -> bool;

/// `<chrono_tz::Tz as FromStr>::from_str`, the zone and the error dropped: whether the text is
/// a name in the database that is compiled in depends on the text alone.
#[verifier::external_body]
fn zone_exists(name: &str) -> (r: bool)
    ensures
        r == is_zone(name@),
{
    name.parse::<chrono_tz::Tz>().is_ok()
}

/// The name of the zone in which times are shown: the one reported, where it is one, else
/// UTC. The machine's own zone would be a silent lie wherever another place is watched.
pub fn display_zone(reported: Option<String>) -> (r: String)
    ensures
        r@ == match reported {
            Some(z) if is_zone(z@) => z@,
            _ => "UTC"@,
        },
{
    match reported {
        Some(z) => if zone_exists(z.as_str()) {
            z
        } else {
            "UTC".to_owned()
        },
        None => "UTC".to_owned(),
    }
}

/// The hour and minute of a moment in a zone, with the zone's abbreviation; nothing where
/// there is no such zone or moment.
pub uninterp spec fn zone_clock_text(secs: i64, nanos: u32, zone: Seq<char>) -> Option<Seq<char>>;

/// `chrono::DateTime::format` with `"%H:%M %Z"`, on the moment that `from_timestamp` gives, moved
/// by `with_timezone` to the zone that `chrono_tz` knows by the name. The text depends on the
/// moment and the name alone.
#[verifier::external_body]
fn zone_clock(secs: i64, nanos: u32, zone: &str) -> (r: Option<String>)
    ensures
        opt_text(r) == zone_clock_text(secs, nanos, zone@),
{
    let tz: chrono_tz::Tz = zone.parse().ok()?;
    let t = chrono::DateTime::from_timestamp(secs, nanos)?;
    Some(t.with_timezone(&tz).format("%H:%M %Z").to_string())
}

impl Stamp {
    /// The clock of a zone at this moment, with the zone's abbreviation.
    pub fn clock_in(&self, zone: &str) -> (r: Option<String>)
        ensures
            opt_text(r) == zone_clock_text(self.secs, self.nanos, zone@),
    {
        zone_clock(self.secs, self.nanos, zone)
    }

    /// Whole minutes from `earlier` to this moment, zero where it comes first.
    pub open spec fn minutes_after(self, earlier: Stamp) -> int {
        let d = self.nanos_after(earlier);
        if d < 0 {
            0
        } else {
            d / 60_000_000_000
        }
    }

    pub fn minutes_since(&self, earlier: &Stamp) -> (r: u64)
        requires
            self.wf(),
            earlier.wf(),
        ensures
            r == self.minutes_after(*earlier),
    {
        let d: i128 = self.nanos_since(earlier);
        if d < 0 {
            0
        } else {
            (d / 60_000_000_000) as u64
        }
    }
}

/// Moments stand in one order: of two, one comes before the other or they are the same.
pub proof fn law_moments_stand_in_order(a: Stamp, b: Stamp, c: Stamp)
    ensures
        a.before(b) || b.before(a) || a == b,
        !(a.before(b) && b.before(a)),
        !a.before(a),
        a.before(b) && b.before(c) ==> a.before(c),
        a.nanos < 1_000_000_000 && b.nanos < 1_000_000_000 ==> (a.before(b) <==> b.nanos_after(a)
            > 0),
{
}

/// The time between two moments is the same both ways but for its sign, and a moment is no time
/// from itself.
pub proof fn law_time_between_runs_both_ways(a: Stamp, b: Stamp)
    ensures
        a.nanos_after(b) == -b.nanos_after(a),
        a.millis_after(b) == -b.millis_after(a),
        a.nanos_after(a) == 0,
        a.minutes_after(b) == 0 || b.minutes_after(a) == 0,
{
}

/// Clocks that show whole seconds apart are as many thousands of milliseconds apart, and every
/// sixty of them are a minute.
pub proof fn law_seconds_are_counted(a: Stamp, b: Stamp)
    requires
        a.nanos < 1_000_000_000,
        a.nanos == b.nanos,
    ensures
        a.millis_after(b) == 1_000 * (a.secs - b.secs),
        a.secs >= b.secs ==> a.minutes_after(b) == (a.secs - b.secs) / 60,
        a.secs < b.secs ==> a.minutes_after(b) == 0,
{
    let d = a.secs - b.secs;
    assert(a.nanos_after(b) == d * 1_000_000_000);
    if d < 0 {
        assert((-d * 1_000_000_000) / 1_000_000 == -d * 1_000);
    } else {
        assert((d * 1_000_000_000) / 1_000_000 == d * 1_000);
        assert((d * 1_000_000_000) / 60_000_000_000 == d / 60);
    }
}

/// A moment outside a leap second goes by sixty seconds for each minute, and going there and back
/// ends where it began.
pub proof fn law_minutes_are_undone(a: Stamp, minutes: int, there: Stamp)
    requires
        a.nanos < 1_000_000_000,
        there.secs == a.second_after(minutes),
        there.nanos == a.nanos_then(minutes),
    ensures
        there.secs == a.secs + 60 * minutes,
        there.nanos == a.nanos,
        there.second_after(-minutes) == a.secs,
        there.nanos_then(-minutes) == a.nanos,
        there.millis_after(a) == 60_000 * minutes,
{
    law_seconds_are_counted(there, a);
}

/// The hour of the day is one of twenty-four, and it goes on by one with each hour that passes.
pub proof fn law_hours_go_round(a: Stamp, b: Stamp)
    requires
        b.secs == a.secs + 3_600,
    ensures
        0 <= a.hour_of_day() < 24,
        b.hour_of_day() == (a.hour_of_day() + 1) % 24,
        a.secs as int % 86_400 == 0 ==> a.hour_of_day() == 0,
        a.hour_of_day() * 3_600 <= a.secs as int % 86_400 < (a.hour_of_day() + 1) * 3_600,
{
    let q = a.secs as int / 86_400;
    let s = a.secs as int % 86_400;
    assert(0 <= s < 86_400);
    let h = s / 3_600;
    assert(0 <= h < 24 && h * 3_600 <= s < (h + 1) * 3_600);
    let t = if s + 3_600 < 86_400 {
        s + 3_600
    } else {
        s + 3_600 - 86_400
    };
    let p = if s + 3_600 < 86_400 {
        q
    } else {
        q + 1
    };
    assert(b.secs as int == p * 86_400 + t);
    vstd::arithmetic::div_mod::lemma_fundamental_div_mod_converse(b.secs as int, 86_400, p, t);
    let g = if h < 23 {
        h + 1
    } else {
        0
    };
    assert(g * 3_600 <= t < (g + 1) * 3_600);
    vstd::arithmetic::div_mod::lemma_fundamental_div_mod_converse(t, 3_600, g, t - g * 3_600);
}

/// Rounding toward zero gives the greatest whole number that the quotient's size allows, with the
/// quotient's sign.
pub proof fn law_rounding_goes_toward_zero(n: int, d: int)
    requires
        d > 0,
    ensures
        toward_zero(-n, d) == -toward_zero(n, d),
        n >= 0 ==> toward_zero(n, d) * d <= n < (toward_zero(n, d) + 1) * d,
        n >= 0 ==> toward_zero(n, d) >= 0,
{
    if n >= 0 {
        let q = n / d;
        vstd::arithmetic::div_mod::lemma_fundamental_div_mod(n, d);
        vstd::arithmetic::div_mod::lemma_div_pos_is_pos(n, d);
        assert(q * d <= n < (q + 1) * d) by (nonlinear_arith)
            requires
                n == d * q + n % d,
                0 <= n % d < d,
        ;
    }
    if n == 0 {
        vstd::arithmetic::div_mod::lemma_div_basics(d);
    }
}

} // verus!
