//! The alert pipeline: one poll after another, and what each of them calls for.

use vstd::prelude::*;
#[allow(unused_imports)]
use crate::alert::filter::{Allowlist, Filter};
use crate::alert::poll::{PollOutcome, Poller};
#[allow(unused_imports)]
use crate::alert::state::{
    announced_by, board_after, notices, pruned, stale_since, AlertState, Board, Notice,
    Notification,
};
#[allow(unused_imports)]
use crate::alert::first_text;
use crate::config::Config;
use crate::geo::Coords;
#[allow(unused_imports)]
use crate::text::{opt_text, texts};
use crate::time::Stamp;

verus! {

/// `std::time::SystemTime::elapsed` on the Unix epoch, in whole seconds; nothing where the
/// clock stands before it. Nothing is promised of what the clock says.
#[verifier::external_body]
fn clock() -> (r: Option<u64>) {
    std::time::UNIX_EPOCH.elapsed().ok().map(|d| d.as_secs())
}

/// The reading of a clock. One that stands before the epoch reads as the end of time: zero
/// would make every age zero and switch off the detection of a stale feed.
pub fn epoch_reading(since_epoch: Option<u64>) -> (r: u64)
    ensures
        r == match since_epoch {
            Some(s) => s,
            None => u64::MAX,
        },
{
    match since_epoch {
        Some(s) => s,
        None => u64::MAX,
    }
}

/// Seconds since the Unix epoch, by the machine's clock.
pub fn now_epoch() -> (r: u64) {
    epoch_reading(clock())
}

/// What one poll came to.
#[derive(Debug, Clone)]
pub struct Tick {
    /// What is to be announced.
    pub fresh: Vec<Notification>,
    /// Whether it is time to say that the feed is stale.
    pub went_stale: bool,
    pub poll_error: Option<String>,
    /// How long nothing was heard, on the first success after too long a silence. A warning
    /// issued and expired in that time was never seen, and nothing else would tell.
    pub recovered_after_gap_secs: Option<u64>,
}

/// The gap to report, measured before the poll: only a success ends one, and only one as long
/// as the staleness threshold counts.
pub fn gap_to_report(gap_before_poll: Option<u64>, succeeded: bool, stale_after_secs: u64) -> (r:
    Option<u64>)
    ensures
        r == gap_reported(gap_before_poll, succeeded, stale_after_secs),
{
    if !succeeded {
        return None;
    }
    match gap_before_poll {
        Some(gap) => if gap >= stale_after_secs {
            Some(gap)
        } else {
            None
        },
        None => None,
    }
}

/// The gap to report.
pub open spec fn gap_reported(gap: Option<u64>, succeeded: bool, stale_after: u64) -> Option<u64> {
    match gap {
        Some(g) if succeeded && g >= stale_after => Some(g),
        _ => None,
    }
}

/// The time since the last success.
pub open spec fn gap_since(last: Option<u64>, now: u64) -> Option<u64> {
    match last {
        Some(t) => Some(
            if now >= t {
                (now - t) as u64
            } else {
                0
            },
        ),
        None => None,
    }
}

/// Whether it is time to warn of a stale feed again.
pub open spec fn warning_due(last_warning: Option<u64>, now: u64, stale_after: u64) -> bool {
    last_warning matches Some(t) ==> stale_after == 0 || now - t >= stale_after
}

/// Whether a poll at `now` warns of a stale feed, given when there was last a success, that of
/// the poll itself included, and when there was last a warning.
pub open spec fn warns(
    last_success: Option<u64>,
    last_warning: Option<u64>,
    now: u64,
    stale_after: u64,
) -> bool {
    stale_since(last_success, now, stale_after) && warning_due(last_warning, now, stale_after)
}

/// The last warning after a poll at `now`: what ends the silence clears it.
pub open spec fn warning_after(
    last_success: Option<u64>,
    last_warning: Option<u64>,
    now: u64,
    stale_after: u64,
) -> Option<u64> {
    if warns(last_success, last_warning, now, stale_after) {
        Some(now)
    } else if stale_since(last_success, now, stale_after) {
        last_warning
    } else {
        None
    }
}

/// Polls a feed, keeps the board, and says what to announce.
#[derive(Debug, Clone)]
pub struct AlertEngine {
    pub poller: Poller,
    pub state: AlertState,
    pub filter: Filter,
    pub home: Coords,
    pub stale_after_secs: u64,
    pub last_stale_warning: Option<u64>,
}

/// The board once a poll is taken in: an answer with alerts replaces it, any other leaves it.
pub open spec fn polled_board(
    board: Board,
    outcome: Result<PollOutcome, String>,
    list: Allowlist,
) -> Board {
    match outcome {
        Ok(PollOutcome::Updated(alerts)) => board_after(board, alerts@, list),
        _ => board,
    }
}

/// What a poll announces.
pub open spec fn polled_notices(
    board: Board,
    outcome: Result<PollOutcome, String>,
    list: Allowlist,
) -> Seq<Notice> {
    match outcome {
        Ok(PollOutcome::Updated(alerts)) => announced_by(board, alerts@, list),
        _ => Seq::empty(),
    }
}

impl AlertEngine {
    /// An engine that has not polled yet.
    pub fn new(cfg: &Config, home: Coords, lat: &str, lon: &str) -> (r: AlertEngine)
        ensures
            r.state.wf(),
            r.state.board().active.dom() == Set::<Seq<char>>::empty(),
            r.state.last_success() is None,
            r.poller.url@ == crate::alert::poll::point_query(lat@, lon@),
            r.poller.base_interval_secs == cfg.alerts.poll_interval_secs,
            r.poller.consecutive_failures == 0,
            r.poller.etag is None,
            r.poller.server_max_age is None,
            r.filter@.lethal == texts(cfg.alerts.tiers.lethal@).to_set(),
            r.filter@.severe == texts(cfg.alerts.tiers.severe@).to_set(),
            r.filter@.watch == texts(cfg.alerts.tiers.watch@).to_set(),
            r.filter@.extra_events == texts(cfg.alerts.extra_events@).to_set(),
            r.home == home,
            r.stale_after_secs == cfg.alerts.stale_after_secs,
            r.last_stale_warning is None,
    {
        let r = AlertEngine {
            poller: Poller::new(lat, lon, cfg.alerts.poll_interval_secs),
            state: AlertState::new(),
            filter: Filter::from_config(&cfg.alerts),
            home,
            stale_after_secs: cfg.alerts.stale_after_secs,
            last_stale_warning: None,
        };
        assert(r.state.board().active.dom() =~= Set::<Seq<char>>::empty());
        r
    }

    /// The motion description of the alert that a notification speaks of, from which its
    /// arrival is estimated.
    pub fn motion_text(&self, notification: &Notification) -> (r: Option<String>)
        requires
            self.state.wf(),
        ensures
            opt_text(r) == (if self.state.board().active.contains_key(notification@.key) {
                first_text(
                    self.state.board().active[notification@.key].alert.properties.said(
                        "eventMotionDescription"@,
                    ),
                )
            } else {
                None
            }),
    {
        match self.state.active_under(notification.key.as_str()) {
            Some(a) => a.alert.motion_text(),
            None => None,
        }
    }

    /// One poll cycle: takes in the outcome of a poll made at `now` and prunes what has
    /// expired at `clock`. A failure is reported, never propagated, so that it cannot end the
    /// monitoring.
    pub fn tick(&mut self, now: u64, clock: Stamp, outcome: Result<PollOutcome, String>) -> (out:
        Tick)
        requires
            old(self).state.wf(),
        ensures
            final(self).state.wf(),
            final(self).state.board() == pruned(
                polled_board(old(self).state.board(), outcome, old(self).filter@),
                clock,
            ),
            final(self).state.last_success() == (if outcome is Ok {
                Some(now)
            } else {
                old(self).state.last_success()
            }),
            notices(out.fresh@) == polled_notices(
                old(self).state.board(),
                outcome,
                old(self).filter@,
            ),
            out.poll_error == match outcome {
                Ok(_) => None,
                Err(e) => Some(e),
            },
            out.recovered_after_gap_secs == gap_reported(
                gap_since(old(self).state.last_success(), now),
                outcome is Ok,
                old(self).stale_after_secs,
            ),
            ({
                let heard = final(self).state.last_success();
                let warned = if out.recovered_after_gap_secs is Some {
                    None
                } else {
                    old(self).last_stale_warning
                };
                let threshold = old(self).stale_after_secs;
                &&& out.went_stale == warns(heard, warned, now, threshold)
                &&& final(self).last_stale_warning == warning_after(heard, warned, now, threshold)
            }),
            final(self).poller == old(self).poller,
            final(self).filter == old(self).filter,
            final(self).home == old(self).home,
            final(self).stale_after_secs == old(self).stale_after_secs,
    {
        let gap_before_poll: Option<u64> = match self.state.last_success_epoch() {
            Some(prev) => Some(now.saturating_sub(prev)),
            None => None,
        };
        let mut fresh: Vec<Notification> = Vec::new();
        let mut poll_error: Option<String> = None;
        assert(notices(fresh@) =~= Seq::<Notice>::empty());
        let succeeded: bool = match outcome {
            Ok(PollOutcome::Updated(alerts)) => {
                fresh = self.state.ingest(alerts, &self.filter);
                self.state.mark_poll_success(now);
                true
            },
            Ok(PollOutcome::Unchanged) => {
                self.state.mark_poll_success(now);
                true
            },
            Err(e) => {
                poll_error = Some(e);
                false
            },
        };
        let _dropped: usize = self.state.prune_expired(clock);
        let recovered = gap_to_report(gap_before_poll, succeeded, self.stale_after_secs);
        if recovered.is_some() {
            self.last_stale_warning = None;
        }
        let mut went_stale: bool = false;
        if self.state.is_stale(now, self.stale_after_secs) {
            let repeat_due: bool = match self.last_stale_warning {
                None => true,
                Some(t) => now.saturating_sub(t) >= self.stale_after_secs,
            };
            if repeat_due {
                self.last_stale_warning = Some(now);
                went_stale = true;
            }
        } else {
            self.last_stale_warning = None;
        }
        Tick { fresh, went_stale, poll_error, recovered_after_gap_secs: recovered }
    }

    /// How long nothing was heard, as of `now`; zero where nothing ever was.
    pub fn stale_elapsed(&self, now: u64) -> (r: u64)
        ensures
            r == match gap_since(self.state.last_success(), now) {
                Some(g) => g,
                None => 0,
            },
    {
        match self.state.last_success_epoch() {
            Some(t) => now.saturating_sub(t),
            None => 0,
        }
    }

    /// The delay before the next poll, in seconds.
    pub fn next_delay(&self) -> (r: u64)
        ensures
            r == self.poller.delay(),
    {
        self.poller.next_delay()
    }
}

/// What the screen says of the feed, given how long the monitor itself has reported nothing and
/// what it last said: whether the feed counts as stale, whether the monitor is silent, and the
/// seconds that are shown. A monitor that reports nothing for as long as the threshold is worse
/// than a silent feed, and its own silence is shown.
pub fn silence(silent_secs: u64, stale_after_secs: u64, feed_stale: bool, feed_secs: u64) -> (r: (
    bool,
    bool,
    u64,
))
    ensures
        r.0 == (feed_stale || silent_secs >= stale_after_secs),
        r.1 == (silent_secs >= stale_after_secs),
        r.2 == (if silent_secs >= stale_after_secs {
            silent_secs
        } else {
            feed_secs
        }),
{
    if silent_secs >= stale_after_secs {
        (true, true, silent_secs)
    } else {
        (feed_stale, false, feed_secs)
    }
}

/// Silence is never taken for safety: after a poll that ends with nothing heard for as long as
/// the threshold, a warning has been given, at that poll or less than a threshold before it.
pub proof fn law_silence_is_announced(
    last_success: Option<u64>,
    last_warning: Option<u64>,
    now: u64,
    stale_after: u64,
)
    requires
        last_success is None || now - last_success->0 >= stale_after,
    ensures
        warning_after(last_success, last_warning, now, stale_after) matches Some(t) && (t == now
            || now - t < stale_after),
        last_warning is None ==> warns(last_success, last_warning, now, stale_after),
{
}

/// A feed that is heard from is never called stale, unless no silence at all is tolerated.
pub proof fn law_success_is_no_alarm(last_warning: Option<u64>, now: u64, stale_after: u64)
    requires
        stale_after > 0,
    ensures
        !warns(Some(now), last_warning, now, stale_after),
        warning_after(Some(now), last_warning, now, stale_after) is None,
{
}

/// A success after too long a silence reports how long it was, and one within the threshold
/// reports nothing.
pub proof fn law_gap_is_reported(last: u64, now: u64, stale_after: u64)
    requires
        last <= now,
    ensures
        gap_reported(gap_since(Some(last), now), true, stale_after) == (if now - last
            >= stale_after {
            Some((now - last) as u64)
        } else {
            None
        }),
        gap_reported(gap_since(Some(last), now), false, stale_after) is None,
        gap_reported(gap_since(None, now), true, stale_after) is None,
{
}

/// Warnings of one silence are a threshold apart, no more and no less: while the feed stays stale,
/// a poll warns exactly where the last warning lies as far back as the threshold.
pub proof fn law_warnings_are_a_threshold_apart(
    last_success: Option<u64>,
    warned: u64,
    now: u64,
    stale_after: u64,
)
    requires
        stale_after > 0,
        warned <= now,
        last_success is None || now - last_success->0 >= stale_after,
    ensures
        warns(last_success, Some(warned), now, stale_after) <==> now - warned >= stale_after,
        !warns(last_success, Some(warned), now, stale_after) ==> warning_after(
            last_success,
            Some(warned),
            now,
            stale_after,
        ) == Some(warned),
        warning_after(last_success, None, now, stale_after) == Some(now),
{
}

/// A poll that fails, or that finds nothing new, leaves the board alone and announces nothing.
pub proof fn law_only_news_changes_the_board(
    board: Board,
    outcome: Result<PollOutcome, String>,
    list: Allowlist,
)
    requires
        !(outcome matches Ok(PollOutcome::Updated(_))),
    ensures
        polled_board(board, outcome, list) == board,
        polled_notices(board, outcome, list).len() == 0,
{
}

} // verus!
