//! Conditional polling of the alert feed.
//!
//! The feed says how long an answer stays fresh and tags each answer, so that asking again
//! soon costs it little. Failures make the poller back off.

use vstd::prelude::*;
#[allow(unused_imports)]
use vstd::arithmetic::power2::{lemma2_to64, lemma_pow2_strictly_increases, lemma_pow2_unfold, pow2};
#[allow(unused_imports)]
use vstd::string::StringExecFns;
#[allow(unused_imports)]
use crate::alert::vtec::{all_codes, readings};
use crate::alert::{Alert, AlertCollection, Feature};
#[allow(unused_imports)]
use crate::text::{
    bounded_value, chars_of, decimal, is_digit, is_space, law_first_field_ends_at_the_separator,
    law_trimming_takes_the_ends_off, lemma_decimal_reads_back, occurs_at, opt_text, parse_unsigned,
    split, split_on, starts_with, string_of, texts, trim, trimmed,
};

verus! {

/// How the feed is told who asks.
pub const USER_AGENT: &'static str = "weatui (https://github.com/gwohl/weatui, andrew@grathwohl.me)";

/// The longest that failures delay the next poll, in seconds.
pub const MAX_BACKOFF_SECS: u64 = 300;

/// What an answer holds.
#[derive(Debug, Clone)]
pub enum PollOutcome {
    Updated(Vec<Alert>),
    Unchanged,
}

/// The lifetime that one directive gives, where it is the one that does.
pub open spec fn directive_age(part: Seq<char>) -> Option<nat> {
    let p = trim(part);
    if occurs_at(p, "max-age="@, 0) {
        bounded_value(trim(p.skip("max-age="@.len() as int)), u64::MAX as nat)
    } else {
        None
    }
}

/// The first lifetime that a list of directives gives.
pub open spec fn first_age(parts: Seq<Seq<char>>) -> Option<nat>
    decreases parts.len(),
{
    if parts.len() == 0 {
        None
    } else if directive_age(parts[0]) is Some {
        directive_age(parts[0])
    } else {
        first_age(parts.drop_first())
    }
}

/// The lifetime, in seconds, that a `Cache-Control` header gives.
pub fn parse_max_age(cache_control: &str) -> (r: Option<u64>)
    ensures
        r is Some <==> first_age(split_on(cache_control@, ',')) is Some,
        r matches Some(v) ==> first_age(split_on(cache_control@, ',')) == Some(v as nat),
{
    let parts = split(cache_control, ',');
    let ghost all = split_on(cache_control@, ',');
    let mut i: usize = 0;
    assert(all.skip(0) =~= all);
    while i < parts.len()
        invariant
            i <= parts@.len(),
            all == texts(parts@),
            all == split_on(cache_control@, ','),
            first_age(all.skip(i as int)) == first_age(all),
        decreases parts@.len() - i,
    {
        assert(all.skip(i as int)[0] == parts@[i as int]@);
        assert(all.skip(i as int).drop_first() =~= all.skip(i + 1));
        let p = trimmed(parts[i].as_str());
        if starts_with(p.as_str(), "max-age=") {
            proof {
                reveal_strlit("max-age=");
            }
            let cs = chars_of(p.as_str());
            let value = string_of(&cs, 8, cs.len());
            assert(value@ =~= p@.skip(8));
            let number = trimmed(value.as_str());
            if let Some(v) = parse_unsigned(number.as_str(), u64::MAX) {
                return Some(v);
            }
        }
        i += 1;
    }
    None
}

/// The delay after `attempt` failures in a row: the base, doubled with each failure, up to a
/// ceiling.
pub open spec fn backoff(attempt: nat, base: nat) -> nat {
    if attempt == 0 {
        base
    } else {
        let doubled = base * pow2(
            if attempt < 16 {
                attempt
            } else {
                16
            },
        );
        if doubled < MAX_BACKOFF_SECS {
            doubled
        } else {
            MAX_BACKOFF_SECS as nat
        }
    }
}

/// The delay in seconds after `attempt` failures in a row; zero means none yet.
pub fn backoff_secs(attempt: u32, base_secs: u64) -> (r: u64)
    ensures
        r == backoff(attempt as nat, base_secs as nat),
{
    if attempt == 0 {
        return base_secs;
    }
    let times: u32 = if attempt < 16 {
        attempt
    } else {
        16
    };
    let mut factor: u64 = 1;
    let mut i: u32 = 0;
    proof {
        lemma2_to64();
    }
    while i < times
        invariant
            i <= times <= 16,
            factor == pow2(i as nat),
            factor <= 65536,
            pow2(16) == 65536,
        decreases times - i,
    {
        proof {
            lemma_pow2_unfold((i + 1) as nat);
            if i + 1 < 16 {
                lemma_pow2_strictly_increases((i + 1) as nat, 16);
            }
        }
        factor = factor * 2;
        i += 1;
    }
    assert(base_secs * factor <= u64::MAX * 65536) by (nonlinear_arith)
        requires
            base_secs <= u64::MAX,
            factor <= 65536,
    ;
    let doubled: u128 = base_secs as u128 * factor as u128;
    if doubled < MAX_BACKOFF_SECS as u128 {
        doubled as u64
    } else {
        MAX_BACKOFF_SECS
    }
}

/// The request for the alerts of a place, given its coordinates with four decimals.
pub open spec fn point_query(lat: Seq<char>, lon: Seq<char>) -> Seq<char> {
    "https://api.weather.gov/alerts/active?point="@ + lat + ","@ + lon
}

pub fn alerts_url(lat: &str, lon: &str) -> (r: String)
    ensures
        r@ == point_query(lat@, lon@),
        r@ == "https://api.weather.gov/alerts/active?point="@ + lat@ + ","@ + lon@,
{
    let mut out = "https://api.weather.gov/alerts/active?point=".to_owned();
    out.append(lat);
    out.append(",");
    out.append(lon);
    out
}

/// Why a poll failed.
#[derive(Debug, Clone)]
pub enum PollError {
    /// No answer came.
    Unreachable(String),
    /// The feed asked to be asked less often.
    RateLimited,
    /// The feed answered with an error.
    Status(String),
    /// The answer was not a list of alerts.
    Body(String),
}

impl PollError {
    /// What is said of a failed poll.
    pub open spec fn text(self) -> Seq<char> {
        match self {
            PollError::Unreachable(e) => "alert request failed: "@ + e@,
            PollError::RateLimited => "api.weather.gov rate limited the request"@,
            PollError::Status(e) => "alert request returned an error status: "@ + e@,
            PollError::Body(e) => "alert response was not the expected GeoJSON: "@ + e@,
        }
    }

    pub fn message(&self) -> (r: String)
        ensures
            r@ == self.text(),
            self matches PollError::Unreachable(e) ==> r@ == "alert request failed: "@ + e@,
            self is RateLimited ==> r@ == "api.weather.gov rate limited the request"@,
            self matches PollError::Status(e) ==> r@ == "alert request returned an error status: "@
                + e@,
            self matches PollError::Body(e) ==> r@
                == "alert response was not the expected GeoJSON: "@ + e@,
    {
        match self {
            PollError::Unreachable(e) => {
                let mut out = "alert request failed: ".to_owned();
                out.append(e.as_str());
                out
            },
            PollError::RateLimited => "api.weather.gov rate limited the request".to_owned(),
            PollError::Status(e) => {
                let mut out = "alert request returned an error status: ".to_owned();
                out.append(e.as_str());
                out
            },
            PollError::Body(e) => {
                let mut out = "alert response was not the expected GeoJSON: ".to_owned();
                out.append(e.as_str());
                out
            },
        }
    }
}

/// The state of polling one feed.
#[derive(Debug, Clone)]
pub struct Poller {
    pub url: String,
    pub etag: Option<String>,
    pub base_interval_secs: u64,
    pub server_max_age: Option<u64>,
    pub consecutive_failures: u32,
}

/// What to do with an answer once its head is read.
#[derive(Debug, Clone)]
pub enum AnswerStep {
    /// The poll failed.
    Failed(PollError),
    /// Nothing has changed since the last answer.
    Unchanged,
    /// The body is to be read.
    ReadBody,
}

/// One more failure, as far as they are counted.
pub open spec fn one_more(failures: u32) -> u32 {
    if failures < u32::MAX {
        (failures + 1) as u32
    } else {
        failures
    }
}

/// Whether a status is an error.
pub open spec fn is_error_status(status: u16) -> bool {
    400 <= status < 600
}

/// The lifetime in an optional header.
pub open spec fn header_age(header: Option<Seq<char>>) -> Option<nat> {
    match header {
        Some(h) => first_age(split_on(h, ',')),
        None => None,
    }
}

/// Whether `alert` is what is read of a feed entry.
pub open spec fn read_from(feature: Feature, alert: Alert) -> bool {
    &&& alert.properties == feature.properties
    &&& alert.geometry == feature.geometry
    &&& readings(alert.vtec@) == all_codes(feature.properties.said("VTEC"@))
    &&& alert.unparsed() == (feature.properties.said("VTEC"@).len() > 0 && alert.vtec@.len() == 0)
}

fn alerts_from(features: Vec<Feature>) -> (r: Vec<Alert>)
    ensures
        r@.len() == features@.len(),
        forall|i: int| 0 <= i < r@.len() ==> read_from(features@[i], #[trigger] r@[i]),
{
    let mut out: Vec<Alert> = Vec::new();
    let ghost all = features@;
    for feature in it: features
        invariant
            it.seq() == all,
            out@.len() == it.index(),
            forall|i: int| 0 <= i < out@.len() ==> read_from(all[i], #[trigger] out@[i]),
    {
        out.push(Alert::from_feature(feature));
    }
    out
}

impl Poller {
    /// A poller that has not asked yet.
    pub fn new(lat: &str, lon: &str, base_interval_secs: u64) -> (r: Poller)
        ensures
            r.url@ == point_query(lat@, lon@),
            r.etag is None,
            r.base_interval_secs == base_interval_secs,
            r.server_max_age is None,
            r.consecutive_failures == 0,
    {
        Poller {
            url: alerts_url(lat, lon),
            etag: None,
            base_interval_secs,
            server_max_age: None,
            consecutive_failures: 0,
        }
    }

    /// What is asked.
    pub fn url(&self) -> (r: &str)
        ensures
            r@ == self.url@,
    {
        self.url.as_str()
    }

    /// The poller after a failure, of whatever kind.
    pub open spec fn failed(self) -> Poller {
        Poller { consecutive_failures: one_more(self.consecutive_failures), ..self }
    }

    /// The delay before the next poll, in seconds.
    pub open spec fn delay(self) -> nat {
        if self.consecutive_failures > 0 {
            backoff(self.consecutive_failures as nat, self.base_interval_secs as nat)
        } else {
            match self.server_max_age {
                Some(age) if age > self.base_interval_secs => age as nat,
                _ => self.base_interval_secs as nat,
            }
        }
    }

    /// The feed's own lifetime is honoured where it is longer than the interval, and failures
    /// make the poller back off.
    pub fn next_delay(&self) -> (r: u64)
        ensures
            r == self.delay(),
    {
        if self.consecutive_failures > 0 {
            return backoff_secs(self.consecutive_failures, self.base_interval_secs);
        }
        match self.server_max_age {
            Some(age) => if age > self.base_interval_secs {
                age
            } else {
                self.base_interval_secs
            },
            None => self.base_interval_secs,
        }
    }

    /// Takes note that no answer came.
    pub fn unreachable(&mut self, error: String) -> (r: PollError)
        ensures
            r == PollError::Unreachable(error),
            *final(self) == old(self).failed(),
    {
        self.consecutive_failures = self.consecutive_failures.saturating_add(1);
        PollError::Unreachable(error)
    }

    /// Takes note of the head of an answer: its status, what the status says where it is an
    /// error, and its `Cache-Control` header. Where there is a body, whether the poll succeeded
    /// is not settled before it is read.
    pub fn answered(&mut self, status: u16, status_text: String, cache_control: Option<String>) -> (r:
        AnswerStep)
        ensures
            if status == 429 {
                r == AnswerStep::Failed(PollError::RateLimited) && *final(self)
                    == old(self).failed()
            } else if is_error_status(status) {
                r == AnswerStep::Failed(PollError::Status(status_text)) && *final(self)
                    == old(self).failed()
            } else {
                &&& r == (if status == 304 {
                    AnswerStep::Unchanged
                } else {
                    AnswerStep::ReadBody
                })
                &&& *final(self) == (Poller {
                    consecutive_failures: if status == 304 {
                        0
                    } else {
                        old(self).consecutive_failures
                    },
                    server_max_age: final(self).server_max_age,
                    ..*old(self)
                })
                &&& final(self).server_max_age is Some <==> header_age(
                    opt_text(cache_control),
                ) is Some
                &&& final(self).server_max_age matches Some(age) ==> header_age(
                    opt_text(cache_control),
                ) == Some(age as nat)
            },
            r is Failed <==> 400 <= status <= 599,
            r is Unchanged <==> status == 304,
            r is Failed ==> (r->Failed_0 is RateLimited <==> status == 429),
    {
        if status == 429 {
            self.consecutive_failures = self.consecutive_failures.saturating_add(1);
            return AnswerStep::Failed(PollError::RateLimited);
        }
        if status >= 400 && status < 600 {
            self.consecutive_failures = self.consecutive_failures.saturating_add(1);
            return AnswerStep::Failed(PollError::Status(status_text));
        }
        self.server_max_age = match &cache_control {
            Some(h) => parse_max_age(h.as_str()),
            None => None,
        };
        if status == 304 {
            self.consecutive_failures = 0;
            AnswerStep::Unchanged
        } else {
            AnswerStep::ReadBody
        }
    }

    /// Takes in the body of an answer. One that cannot be read is a failure like any other, and
    /// its tag is not kept, so that it is asked for again.
    pub fn read(&mut self, etag: Option<String>, body: Result<AlertCollection, String>) -> (r: Result<
        PollOutcome,
        PollError,
    >)
        ensures
            match body {
                Ok(c) => {
                    &&& *final(self) == (Poller { etag, consecutive_failures: 0, ..*old(self) })
                    &&& r matches Ok(PollOutcome::Updated(alerts)) && alerts@.len()
                        == c.features@.len() && forall|i: int|
                        0 <= i < alerts@.len() ==> read_from(c.features@[i], #[trigger] alerts@[i])
                            && alerts@[i].properties == c.features@[i].properties
                            && alerts@[i].geometry == c.features@[i].geometry
                },
                Err(e) => r == Err::<PollOutcome, PollError>(PollError::Body(e)) && *final(self)
                    == old(self).failed(),
            },
    {
        match body {
            Ok(c) => {
                self.etag = etag;
                self.consecutive_failures = 0;
                Ok(PollOutcome::Updated(alerts_from(c.features)))
            },
            Err(e) => {
                self.consecutive_failures = self.consecutive_failures.saturating_add(1);
                Err(PollError::Body(e))
            },
        }
    }
}

/// Whether a poll that failed took a poller from one state to another: no answer came, or it was
/// an error, or its head was taken note of and its body could not be read.
pub open spec fn is_failed_poll(before: Poller, after: Poller) -> bool {
    after == (Poller { server_max_age: after.server_max_age, ..before }).failed()
}

/// After `k` failures in a row, of whatever kinds, the delay is the backoff for `k`; right after
/// a success it is the interval, or what the feed asks for where that is longer. `states` are
/// those of a poller with nothing to make up for and after each of `k` polls that failed.
pub proof fn law_failures_make_it_back_off(states: Seq<Poller>, k: nat)
    requires
        states.len() == k + 1,
        states[0].consecutive_failures == 0,
        forall|i: int| 0 <= i < k ==> is_failed_poll(#[trigger] states[i], states[i + 1]),
    ensures
        states.last().base_interval_secs == states[0].base_interval_secs,
        k > 0 ==> states.last().delay() == backoff(k, states[0].base_interval_secs as nat),
        k == 0 ==> states.last().delay() == match states[0].server_max_age {
            Some(age) if age > states[0].base_interval_secs => age as nat,
            _ => states[0].base_interval_secs as nat,
        },
{
    lemma_failures_are_counted(states, k);
}

proof fn lemma_failures_are_counted(states: Seq<Poller>, k: nat)
    requires
        states.len() == k + 1,
        states[0].consecutive_failures == 0,
        forall|i: int| 0 <= i < k ==> is_failed_poll(#[trigger] states[i], states[i + 1]),
    ensures
        states.last().base_interval_secs == states[0].base_interval_secs,
        states.last().consecutive_failures == (if k < u32::MAX {
            k as int
        } else {
            u32::MAX as int
        }),
    decreases k,
{
    if k > 0 {
        let before = states.drop_last();
        assert forall|i: int| 0 <= i < k - 1 implies is_failed_poll(
            #[trigger] before[i],
            before[i + 1],
        ) by {
            assert(is_failed_poll(states[i], states[i + 1]));
        }
        lemma_failures_are_counted(before, (k - 1) as nat);
        assert(is_failed_poll(states[k - 1], states[k - 1 + 1]));
    }
}

/// The more failures in a row, the longer the delay, up to its ceiling.
pub proof fn law_backoff_grows(attempt: nat, base: nat)
    requires
        attempt >= 1,
    ensures
        backoff(attempt, base) <= backoff(attempt + 1, base),
        backoff(attempt, base) <= MAX_BACKOFF_SECS,
        base <= MAX_BACKOFF_SECS ==> base <= backoff(attempt, base),
{
    if attempt < 16 {
        lemma_pow2_strictly_increases(attempt, attempt + 1);
        assert(base * pow2(attempt) <= base * pow2(attempt + 1)) by (nonlinear_arith)
            requires
                pow2(attempt) <= pow2(attempt + 1),
        ;
    }
    let k = if attempt < 16 {
        attempt
    } else {
        16
    };
    lemma_pow2_strictly_increases(0, k);
    lemma2_to64();
    assert(base <= base * pow2(k)) by (nonlinear_arith)
        requires
            1 <= pow2(k),
    ;
}

/// A poller that does not fail never asks sooner than its interval.
pub proof fn law_interval_is_kept(p: Poller)
    requires
        p.consecutive_failures == 0,
    ensures
        p.delay() >= p.base_interval_secs,
{
}

/// Each failure doubles the delay, up to five minutes; without one the delay is the interval.
pub proof fn law_each_failure_doubles_the_delay(attempt: nat, base: nat)
    ensures
        backoff(0, base) == base,
        backoff(1, base) == (if 2 * base < 300 {
            2 * base
        } else {
            300
        }),
        attempt >= 1 && attempt < 16 ==> backoff(attempt + 1, base) == (if 2 * backoff(attempt, base)
            < 300 {
            2 * backoff(attempt, base)
        } else {
            300
        }),
        attempt >= 16 ==> backoff(attempt + 1, base) == backoff(attempt, base),
{
    lemma_pow2_unfold(1);
    lemma2_to64();
    if attempt >= 1 && attempt < 16 {
        lemma_pow2_unfold(attempt + 1);
        let p = pow2(attempt);
        assert(base * (2 * p) == 2 * (base * p)) by (nonlinear_arith);
    }
}

/// A poller waits longer after each failure, and never longer than five minutes; only a success
/// brings the interval back.
pub proof fn law_failing_poller_waits(p: Poller)
    requires
        p.consecutive_failures < u32::MAX,
    ensures
        p.failed().consecutive_failures == p.consecutive_failures + 1,
        p.failed().delay() <= 300,
        p.failed().failed().delay() >= p.failed().delay() || p.consecutive_failures == u32::MAX - 1,
        p.failed().etag == p.etag,
        p.failed().url == p.url,
{
    let k = p.consecutive_failures as nat + 1;
    law_backoff_grows(k, p.base_interval_secs as nat);
}

proof fn lemma_age_of_list(parts: Seq<Seq<char>>)
    requires
        parts.len() >= 1,
    ensures
        first_age(parts) == (if directive_age(parts[0]) is Some {
            directive_age(parts[0])
        } else {
            first_age(parts.skip(1))
        }),
{
    assert(parts.drop_first() =~= parts.skip(1));
}

/// A lifetime is read from a directive `max-age=n`, with whatever white space around it, and it is
/// the first such directive of a header that counts.
pub proof fn law_lifetime_is_read(
    before: Seq<char>,
    n: u64,
    after: Seq<char>,
    other: Seq<char>,
    rest: Seq<char>,
)
    requires
        forall|i: int| 0 <= i < before.len() ==> is_space(#[trigger] before[i]),
        forall|i: int| 0 <= i < after.len() ==> is_space(#[trigger] after[i]),
        !other.contains(','),
    ensures
        directive_age(before + ("max-age="@ + decimal(n as nat)) + after) == Some(n as nat),
        first_age(split_on(other, ',')) == directive_age(other),
        first_age(split_on(other + seq![','] + rest, ',')) == (if directive_age(other) is Some {
            directive_age(other)
        } else {
            first_age(split_on(rest, ','))
        }),
{
    let d = decimal(n as nat);
    let body = "max-age="@ + d;
    reveal_strlit("max-age=");
    lemma_decimal_reads_back(n as nat);
    assert(body[0] == 'm');
    assert(body.last() == d.last());
    assert(is_digit(d[d.len() - 1]));
    assert(is_digit(d[0]));
    law_trimming_takes_the_ends_off(before, body, after);
    assert(body.subrange(0, 8) =~= "max-age="@);
    assert(body.skip(8) =~= d);
    law_trimming_takes_the_ends_off(Seq::empty(), d, Seq::empty());
    assert(Seq::<char>::empty() + d + Seq::<char>::empty() =~= d);
    law_first_field_ends_at_the_separator(other, ',', rest);
    reveal_with_fuel(first_age, 2);
    let one = seq![other];
    assert(one.drop_first() =~= Seq::<Seq<char>>::empty());
    let all = seq![other] + split_on(rest, ',');
    lemma_age_of_list(all);
    assert(all.skip(1) =~= split_on(rest, ','));
}

} // verus!
