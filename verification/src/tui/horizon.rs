//! How far ahead the forecast reaches.

use vstd::prelude::*;
#[allow(unused_imports)]
use crate::radar::hrrr::{
    are_leads, first_lead, law_leads_are_complete, lead_limit, leads_every, ForecastStep, MAX_LEAD_MINUTES,
};
use crate::time::Stamp;

verus! {

/// How many forecast frames the loop has room for beside the observed ones.
pub const MAX_FORECAST_FRAMES: usize = 18;

/// How far ahead the forecast reaches, and in what steps.
#[derive(Debug, Clone, Copy, PartialEq, Eq, Structural)]
pub enum ForecastHorizon {
    Near,
    Mid,
    Long,
}

/// The age of a model run in minutes, as far as leads count.
pub open spec fn counted_age(minutes: i64) -> u16 {
    if minutes < 0 {
        0
    } else if minutes > MAX_LEAD_MINUTES {
        MAX_LEAD_MINUTES
    } else {
        minutes as u16
    }
}

/// Whether `steps` are those of a horizon for a run of a given age: quarter hours for two
/// hours from now, then hours to the sixth, or hours alone to the eighteenth.
pub open spec fn are_steps(h: ForecastHorizon, age: u16, steps: Seq<ForecastStep>) -> bool {
    match h {
        ForecastHorizon::Near => are_leads(15, age, (age + 120) as u16, steps),
        ForecastHorizon::Mid => exists|n: int|
            0 <= n <= steps.len() && #[trigger] are_leads(
                15,
                age,
                (age + 120) as u16,
                steps.take(n),
            ) && are_leads(60, (age + 120) as u16, (age + 360) as u16, steps.skip(n)),
        ForecastHorizon::Long => are_leads(60, age, (age + 1080) as u16, steps),
    }
}

impl ForecastHorizon {
    /// The steps of the horizon. `cycle_age_minutes` moves the window, so that it counts from
    /// now rather than from a run that may be two hours old.
    pub fn steps(self, cycle_age_minutes: i64) -> (r: Vec<ForecastStep>)
        ensures
            are_steps(self, counted_age(cycle_age_minutes), r@),
    {
        let age: u16 = if cycle_age_minutes < 0 {
            0
        } else if cycle_age_minutes > MAX_LEAD_MINUTES as i64 {
            MAX_LEAD_MINUTES
        } else {
            cycle_age_minutes as u16
        };
        proof {
            lemma_first_lead_fits(15, age);
            lemma_first_lead_fits(60, age);
            lemma_first_lead_fits(60, (age + 120) as u16);
        }
        match self {
            ForecastHorizon::Near => leads_every(15, age, age + 120),
            ForecastHorizon::Mid => {
                let mut steps = leads_every(15, age, age + 120);
                let ghost near = steps@;
                let mut later = leads_every(60, age + 120, age + 360);
                let ghost far = later@;
                steps.append(&mut later);
                proof {
                    let n = near.len() as int;
                    assert(steps@.take(n) =~= near);
                    assert(steps@.skip(n) =~= far);
                }
                steps
            },
            ForecastHorizon::Long => leads_every(60, age, age + 1080),
        }
    }

    /// The name of the horizon.
    pub open spec fn name(self) -> Seq<char> {
        match self {
            ForecastHorizon::Near => "+2h/15m"@,
            ForecastHorizon::Mid => "+6h"@,
            ForecastHorizon::Long => "+18h"@,
        }
    }

    pub fn label(self) -> (r: &'static str)
        ensures
            r@ == self.name(),
            self is Near ==> r@ == "+2h/15m"@,
            self is Mid ==> r@ == "+6h"@,
            self is Long ==> r@ == "+18h"@,
    {
        match self {
            ForecastHorizon::Near => "+2h/15m",
            ForecastHorizon::Mid => "+6h",
            ForecastHorizon::Long => "+18h",
        }
    }

    /// The horizon after this one.
    pub open spec fn successor(self) -> ForecastHorizon {
        match self {
            ForecastHorizon::Near => ForecastHorizon::Mid,
            ForecastHorizon::Mid => ForecastHorizon::Long,
            ForecastHorizon::Long => ForecastHorizon::Near,
        }
    }

    pub fn next(self) -> (r: ForecastHorizon)
        ensures
            r == self.successor(),
            self is Near ==> r is Mid,
            self is Mid ==> r is Long,
            self is Long ==> r is Near,
    {
        match self {
            ForecastHorizon::Near => ForecastHorizon::Mid,
            ForecastHorizon::Mid => ForecastHorizon::Long,
            ForecastHorizon::Long => ForecastHorizon::Near,
        }
    }
}

/// Horizons come round in three steps and in no fewer.
pub proof fn law_horizons_come_round(h: ForecastHorizon)
    ensures
        h.successor().successor().successor() == h,
        h.successor() != h,
        h.successor().successor() != h,
{
}

proof fn lemma_first_lead_fits(interval: u16, after: u16)
    requires
        interval > 0,
    ensures
        first_lead(interval, after) <= after + interval,
        first_lead(interval, after) > after,
{
    let d = interval as int;
    let q = after as int / d;
    vstd::arithmetic::div_mod::lemma_fundamental_div_mod(after as int, d);
    vstd::arithmetic::div_mod::lemma_mod_bound(after as int, d);
    assert((q + 1) * d == d * q + d) by (nonlinear_arith);
}

/// What holds of a list of leads: each lies in the window, each is later than the one before,
/// and there are no more than fit the window.
proof fn lemma_leads(interval: u16, after: u16, until: u16, steps: Seq<ForecastStep>, most: int)
    requires
        interval > 0,
        are_leads(interval, after, until, steps),
        lead_limit(until) <= after + interval * most,
        most >= 0,
    ensures
        forall|i: int|
            0 <= i < steps.len() ==> after < (#[trigger] steps[i]).lead <= lead_limit(until),
        forall|i: int, j: int|
            0 <= i < j < steps.len() ==> (#[trigger] steps[i]).lead < (#[trigger] steps[j]).lead,
        steps.len() <= most,
{
    let d = interval as int;
    let first = first_lead(interval, after);
    lemma_first_lead_fits(interval, after);
    assert forall|i: int| 0 <= i < steps.len() implies after < (#[trigger] steps[i]).lead
        <= lead_limit(until) by {
        assert(i * d >= 0) by (nonlinear_arith)
            requires
                i >= 0,
                d > 0,
        ;
    }
    assert forall|i: int, j: int| 0 <= i < j < steps.len() implies (#[trigger] steps[i]).lead < (
    #[trigger] steps[j]).lead by {
        assert(i * d < j * d) by (nonlinear_arith)
            requires
                i < j,
                d > 0,
        ;
    }
    if steps.len() > most {
        let k = steps.len() - 1;
        assert(steps[k].lead == first + k * d);
        assert(k * d >= most * d) by (nonlinear_arith)
            requires
                k >= most,
                d > 0,
        ;
        assert(most * d == interval * most) by (nonlinear_arith)
            requires
                d == interval,
        ;
        assert(steps[k].lead > after + interval * most);
    }
}

/// Every step of a horizon lies ahead of now and within what is published, each is later than
/// the one before, and together they fit the room that the loop keeps for them.
pub proof fn law_steps_lie_ahead(h: ForecastHorizon, age: u16, steps: Seq<ForecastStep>)
    requires
        age <= MAX_LEAD_MINUTES,
        are_steps(h, age, steps),
    ensures
        forall|i: int|
            0 <= i < steps.len() ==> age < (#[trigger] steps[i]).lead <= MAX_LEAD_MINUTES,
        forall|i: int, j: int|
            0 <= i < j < steps.len() ==> (#[trigger] steps[i]).lead < (#[trigger] steps[j]).lead,
        steps.len() <= MAX_FORECAST_FRAMES,
{
    match h {
        ForecastHorizon::Near => {
            lemma_leads(15, age, (age + 120) as u16, steps, 8);
        },
        ForecastHorizon::Mid => {
            let n = choose|n: int|
                0 <= n <= steps.len() && #[trigger] are_leads(
                    15,
                    age,
                    (age + 120) as u16,
                    steps.take(n),
                ) && are_leads(60, (age + 120) as u16, (age + 360) as u16, steps.skip(n));
            let near = steps.take(n);
            let far = steps.skip(n);
            lemma_leads(15, age, (age + 120) as u16, near, 8);
            lemma_leads(60, (age + 120) as u16, (age + 360) as u16, far, 4);
            assert forall|i: int| 0 <= i < steps.len() implies age < (#[trigger] steps[i]).lead
                <= MAX_LEAD_MINUTES by {
                if i < n {
                    assert(steps[i] == near[i]);
                } else {
                    assert(steps[i] == far[i - n]);
                }
            }
            assert forall|i: int, j: int| 0 <= i < j < steps.len() implies (
            #[trigger] steps[i]).lead < (#[trigger] steps[j]).lead by {
                if i < n {
                    assert(steps[i] == near[i]);
                } else {
                    assert(steps[i] == far[i - n]);
                }
                if j < n {
                    assert(steps[j] == near[j]);
                } else {
                    assert(steps[j] == far[j - n]);
                }
            }
        },
        ForecastHorizon::Long => {
            lemma_leads(60, age, (age + 1080) as u16, steps, 18);
        },
    }
}

/// However old the run, the near horizon is never thinned while two hours of it are published:
/// it has its eight quarter hours.
pub proof fn law_near_horizon_is_full(age: u16, steps: Seq<ForecastStep>)
    requires
        age + 120 <= MAX_LEAD_MINUTES,
        are_steps(ForecastHorizon::Near, age, steps),
    ensures
        steps.len() == 8,
{
    lemma_leads(15, age, (age + 120) as u16, steps, 8);
    lemma_first_lead_fits(15, age);
    if steps.len() < 8 {
        let n = steps.len() as int;
        assert(n * 15 <= 7 * 15);
    }
}

/// Whether a step of the run of `cycle` is still ahead of `now`.
pub open spec fn ahead(cycle: Stamp, step: ForecastStep, now: Stamp) -> bool {
    let (secs, nanos) = (cycle.second_after(step.lead as int), cycle.nanos_then(step.lead as int));
    now.secs < secs || (now.secs == secs && now.nanos < nanos)
}

/// The steps still ahead.
pub open spec fn still_ahead(cycle: Stamp, steps: Seq<ForecastStep>, now: Stamp) -> Seq<
    ForecastStep,
>
    decreases steps.len(),
{
    if steps.len() == 0 {
        Seq::empty()
    } else if ahead(cycle, steps.last(), now) {
        still_ahead(cycle, steps.drop_last(), now).push(steps.last())
    } else {
        still_ahead(cycle, steps.drop_last(), now)
    }
}

/// The steps that are still ahead of `now`: the clock may have moved since they were planned.
pub fn upcoming(cycle: Stamp, steps: &Vec<ForecastStep>, now: Stamp) -> (r: Vec<ForecastStep>)
    requires
        cycle.wf(),
    ensures
        r@ == still_ahead(cycle, steps@, now),
{
    let mut out: Vec<ForecastStep> = Vec::new();
    let mut i: usize = 0;
    while i < steps.len()
        invariant
            i <= steps@.len(),
            cycle.wf(),
            out@ == still_ahead(cycle, steps@.take(i as int), now),
        decreases steps@.len() - i,
    {
        let step = steps[i];
        assert(steps@.take(i + 1).drop_last() =~= steps@.take(i as int));
        assert(steps@.take(i + 1).last() == step);
        let nanos: u32 = if cycle.nanos >= 1_000_000_000 && step.lead > 0 {
            (cycle.nanos - 1_000_000_000) as u32
        } else {
            cycle.nanos
        };
        let valid = Stamp { secs: cycle.secs + step.lead_minutes() * 60, nanos };
        if now.is_before(&valid) {
            out.push(step);
        }
        i += 1;
    }
    assert(steps@.take(i as int) =~= steps@);
    out
}

/// Whether the forecast now shown is to be dropped before the next frame of a batch. The signal
/// rides on the first success, not on the first step: were that to fail, two batches would
/// stand side by side.
#[derive(Debug, Clone, Copy, PartialEq, Eq, Structural)]
pub struct Batch {
    pub started: bool,
}

impl Batch {
    pub fn new() -> (r: Batch)
        ensures
            !r.started,
    {
        Batch { started: false }
    }

    /// Takes note of a frame; true for the first of the batch.
    pub fn frame(&mut self) -> (first: bool)
        ensures
            first == !old(self).started,
            final(self).started,
    {
        let first: bool = !self.started;
        self.started = true;
        first
    }
}

/// Which leads a horizon has: near, every quarter hour of the next two hours; further, those and
/// every hour up to the sixth; furthest, every hour that is published.
pub proof fn law_horizon_has_these_leads(
    h: ForecastHorizon,
    age: u16,
    steps: Seq<ForecastStep>,
    lead: u16,
)
    requires
        age <= MAX_LEAD_MINUTES,
        are_steps(h, age, steps),
    ensures
        (exists|i: int| 0 <= i < steps.len() && (#[trigger] steps[i]).lead == lead) <==> {
            let quarter = lead as int % 15 == 0 && age < lead <= age + 120;
            let whole = lead as int % 60 == 0;
            lead <= 1080 && match h {
                ForecastHorizon::Near => quarter,
                ForecastHorizon::Mid => quarter || (whole && age + 120 < lead <= age + 360),
                ForecastHorizon::Long => whole && age < lead,
            }
        },
{
    match h {
        ForecastHorizon::Near => {
            law_leads_are_complete(15, age, (age + 120) as u16, steps, lead);
        },
        ForecastHorizon::Mid => {
            let n = choose|n: int|
                0 <= n <= steps.len() && #[trigger] are_leads(
                    15,
                    age,
                    (age + 120) as u16,
                    steps.take(n),
                ) && are_leads(60, (age + 120) as u16, (age + 360) as u16, steps.skip(n));
            let (a, b) = (steps.take(n), steps.skip(n));
            law_leads_are_complete(15, age, (age + 120) as u16, a, lead);
            law_leads_are_complete(60, (age + 120) as u16, (age + 360) as u16, b, lead);
            if exists|i: int| 0 <= i < a.len() && (#[trigger] a[i]).lead == lead {
                let i = choose|i: int| 0 <= i < a.len() && (#[trigger] a[i]).lead == lead;
                assert(steps[i].lead == lead);
            }
            if exists|i: int| 0 <= i < b.len() && (#[trigger] b[i]).lead == lead {
                let i = choose|i: int| 0 <= i < b.len() && (#[trigger] b[i]).lead == lead;
                assert(steps[n + i].lead == lead);
            }
            if exists|i: int| 0 <= i < steps.len() && (#[trigger] steps[i]).lead == lead {
                let i = choose|i: int| 0 <= i < steps.len() && (#[trigger] steps[i]).lead == lead;
                if i < n {
                    assert(a[i].lead == lead);
                } else {
                    assert(b[i - n].lead == lead);
                }
            }
        },
        ForecastHorizon::Long => {
            law_leads_are_complete(60, age, (age + 1080) as u16, steps, lead);
        },
    }
}

/// The age of a run counts from zero to the eighteenth hour, and within that as it is.
pub proof fn law_age_counts_as_far_as_leads_do(minutes: i64)
    ensures
        counted_age(minutes) <= 1080,
        0 <= minutes <= 1080 ==> counted_age(minutes) == minutes,
        minutes < 0 ==> counted_age(minutes) == 0,
        minutes > 1080 ==> counted_age(minutes) == 1080,
{
}

/// The steps still ahead of two lists, one after the other, are those of the first and then those
/// of the second. Outside a leap second a step is ahead exactly while its moment, a minute for
/// each of its lead after the run, has not come.
pub proof fn law_steps_that_have_come_are_left_out(
    cycle: Stamp,
    a: Seq<ForecastStep>,
    b: Seq<ForecastStep>,
    step: ForecastStep,
    now: Stamp,
)
    ensures
        still_ahead(cycle, a + b, now) == still_ahead(cycle, a, now) + still_ahead(cycle, b, now),
        cycle.nanos < 1_000_000_000 ==> still_ahead(cycle, seq![step], now) == (if now.secs
            < cycle.secs + 60 * step.lead || (now.secs == cycle.secs + 60 * step.lead && now.nanos
            < cycle.nanos) {
            seq![step]
        } else {
            Seq::empty()
        }),
    decreases b.len(),
{
    reveal_with_fuel(still_ahead, 2);
    assert(seq![step].drop_last() =~= Seq::<ForecastStep>::empty());
    assert(still_ahead(cycle, seq![step], now) =~= (if ahead(cycle, step, now) {
        seq![step]
    } else {
        Seq::empty()
    }));
    if b.len() == 0 {
        assert(a + b =~= a);
        assert(still_ahead(cycle, a, now) + still_ahead(cycle, b, now) =~= still_ahead(
            cycle,
            a,
            now,
        ));
    } else {
        law_steps_that_have_come_are_left_out(cycle, a, b.drop_last(), step, now);
        assert((a + b).drop_last() =~= a + b.drop_last());
        assert((a + b).last() == b.last());
        assert(still_ahead(cycle, a + b, now) =~= still_ahead(cycle, a, now) + still_ahead(
            cycle,
            b,
            now,
        ));
    }
}

} // verus!
