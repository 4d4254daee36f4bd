//! Active alerts, which of them have been announced, and whether the feed is alive.
//!
//! Time is passed in, never read from a clock.

use vstd::prelude::*;
#[allow(unused_imports)]
use vstd::string::StringExecFns;
#[allow(unused_imports)]
use crate::alert::filter::{Allowlist, Filter, ThreatTier};
#[allow(unused_imports)]
use crate::alert::{first_text, Alert};
#[allow(unused_imports)]
use crate::table::{lemma_map_of_entry, lemma_map_of_len, Table};
#[allow(unused_imports)]
use crate::text::{opt_text, same, texts};
use crate::time::Stamp;

verus! {

/// What identifies an alert from poll to poll.
pub type AlertKey = String;

/// An alert that is in force.
#[derive(Debug, Clone)]
pub struct ActiveAlert {
    pub alert: Alert,
    pub tier: ThreatTier,
}

/// What to announce.
#[derive(Debug, Clone)]
pub struct Notification {
    pub key: AlertKey,
    pub tier: ThreatTier,
    pub event: String,
    pub headline: Option<String>,
    pub area: Option<String>,
    pub instruction: Option<String>,
    pub damage_threat: Option<String>,
    pub tornado_detection: Option<String>,
}

/// What a notification says.
pub struct Notice {
    pub key: Seq<char>,
    pub tier: ThreatTier,
    pub event: Seq<char>,
    pub headline: Option<Seq<char>>,
    pub area: Option<Seq<char>>,
    pub instruction: Option<Seq<char>>,
    pub damage_threat: Option<Seq<char>>,
    pub tornado_detection: Option<Seq<char>>,
}

/// The damage threat and the tornado detection of an alert. An upgrade to an emergency
/// keeps its key and changes these.
pub type Severity = (Option<Seq<char>>, Option<Seq<char>>);

impl Notice {
    pub open spec fn severity(self) -> Severity {
        (self.damage_threat, self.tornado_detection)
    }
}

impl View for Notification {
    type V = Notice;

    open spec fn view(&self) -> Notice {
        Notice {
            key: self.key@,
            tier: self.tier,
            event: self.event@,
            headline: opt_text(self.headline),
            area: opt_text(self.area),
            instruction: opt_text(self.instruction),
            damage_threat: opt_text(self.damage_threat),
            tornado_detection: opt_text(self.tornado_detection),
        }
    }
}

/// What a list of notifications says.
pub open spec fn notices(list: Seq<Notification>) -> Seq<Notice> {
    list.map_values(|n: Notification| n@)
}

/// The severity that was last announced for a key.
#[derive(Debug, Clone)]
pub struct SeverityMarkers {
    pub damage_threat: Option<String>,
    pub tornado_detection: Option<String>,
}

impl View for SeverityMarkers {
    type V = Severity;

    open spec fn view(&self) -> Severity {
        (opt_text(self.damage_threat), opt_text(self.tornado_detection))
    }
}

fn same_opt(a: &Option<String>, b: &Option<String>) -> (r: bool)
    ensures
        r == (opt_text(*a) == opt_text(*b)),
{
    match (a, b) {
        (Some(x), Some(y)) => same(x.as_str(), y.as_str()),
        (None, None) => true,
        _ => false,
    }
}

fn copy_opt(a: &Option<String>) -> (r: Option<String>)
    ensures
        opt_text(r) == opt_text(*a),
{
    match a {
        Some(s) => Some(s.clone()),
        None => None,
    }
}

/// The text of an optional string, empty where there is none.
pub open spec fn or_empty(o: Option<String>) -> Seq<char> {
    match o {
        Some(s) => s@,
        None => ""@,
    }
}

/// What identifies an alert: the event key of its operative code, else its id, else its
/// event, area and expiry.
pub open spec fn alert_key(alert: Alert) -> Seq<char> {
    match alert.primary() {
        Some(v) => v.key(),
        None => match alert.properties.id {
            Some(id) => id@,
            None => alert.properties.event@ + "|"@ + or_empty(alert.properties.area_desc) + "|"@
                + or_empty(alert.properties.expires),
        },
    }
}

fn append_opt(out: &mut String, o: &Option<String>)
    ensures
        final(out)@ == old(out)@ + or_empty(*o),
{
    match o {
        Some(s) => out.append(s.as_str()),
        None => out.append(""),
    }
}

/// What identifies an alert.
pub fn key_of(alert: &Alert) -> (r: AlertKey)
    ensures
        r@ == alert_key(*alert),
{
    match alert.primary_vtec() {
        Some(v) => v.key_text(),
        None => match &alert.properties.id {
            Some(id) => id.clone(),
            None => {
                let mut out = alert.properties.event.clone();
                out.append("|");
                append_opt(&mut out, &alert.properties.area_desc);
                out.append("|");
                append_opt(&mut out, &alert.properties.expires);
                out
            },
        },
    }
}

/// The damage threat and the tornado detection of an alert.
pub open spec fn alert_severity(alert: Alert) -> Severity {
    (
        first_text(alert.properties.said("damageThreat"@)),
        first_text(alert.properties.said("tornadoDetection"@)),
    )
}

/// What is announced of an alert.
pub open spec fn notice_of(tier: ThreatTier, alert: Alert) -> Notice {
    Notice {
        key: alert_key(alert),
        tier,
        event: alert.properties.event@,
        headline: opt_text(alert.properties.headline),
        area: opt_text(alert.properties.area_desc),
        instruction: opt_text(alert.properties.instruction),
        damage_threat: alert_severity(alert).0,
        tornado_detection: alert_severity(alert).1,
    }
}

impl Notification {
    /// What to announce of an alert.
    pub fn from_alert(key: AlertKey, tier: ThreatTier, alert: &Alert) -> (r: Notification)
        requires
            key@ == alert_key(*alert),
        ensures
            r@ == notice_of(tier, *alert),
            r.key@ == key@,
            r.tier == tier,
            r.event@ == alert.properties.event@,
            opt_text(r.headline) == opt_text(alert.properties.headline),
            opt_text(r.area) == opt_text(alert.properties.area_desc),
            opt_text(r.instruction) == opt_text(alert.properties.instruction),
            opt_text(r.damage_threat) == first_text(alert.properties.said("damageThreat"@)),
            opt_text(r.tornado_detection) == first_text(alert.properties.said("tornadoDetection"@)),
    {
        Notification {
            key,
            tier,
            event: alert.properties.event.clone(),
            headline: copy_opt(&alert.properties.headline),
            area: copy_opt(&alert.properties.area_desc),
            instruction: copy_opt(&alert.properties.instruction),
            damage_threat: alert.damage_threat(),
            tornado_detection: alert.tornado_detection(),
        }
    }

    /// The severity that this notification announces.
    pub fn severity_markers(&self) -> (r: SeverityMarkers)
        ensures
            r@ == self@.severity(),
    {
        SeverityMarkers {
            damage_threat: copy_opt(&self.damage_threat),
            tornado_detection: copy_opt(&self.tornado_detection),
        }
    }
}

/// Whether the operative code of an alert ends its event.
pub open spec fn is_ending(alert: Alert) -> bool {
    alert.primary() matches Some(v) && v.action.ends_event()
}

/// The alerts in force by key, and the severity last announced for each.
pub struct Board {
    pub active: Map<Seq<char>, ActiveAlert>,
    pub announced: Map<Seq<char>, Severity>,
}

impl Board {
    /// What always holds: an alert in force stands under its own key, does not end its
    /// event, and its present severity is the one announced; nothing else is announced.
    pub open spec fn wf(self) -> bool {
        &&& self.announced.dom() == self.active.dom()
        &&& forall|k: Seq<char>| #[trigger]
            self.active.contains_key(k) ==> {
                &&& alert_key(self.active[k].alert) == k
                &&& !is_ending(self.active[k].alert)
                &&& self.announced[k] == alert_severity(self.active[k].alert)
            }
    }
}

/// The state of one pass over the alerts of a poll.
pub struct Pass {
    pub board: Board,
    pub seen: Set<Seq<char>>,
    pub fresh: Seq<Notice>,
}

/// What one alert does. A rejected alert does nothing. One that ends its event takes it off
/// the board. Any other stands on the board from now on, and is announced unless its
/// severity is the one last announced for its key.
pub open spec fn take_in(p: Pass, alert: Alert, list: Allowlist) -> Pass {
    match list.verdict(alert) {
        None => p,
        Some(tier) => {
            let key = alert_key(alert);
            if is_ending(alert) {
                Pass {
                    board: Board {
                        active: p.board.active.remove(key),
                        announced: p.board.announced.remove(key),
                    },
                    seen: p.seen,
                    fresh: p.fresh,
                }
            } else {
                let notice = notice_of(tier, alert);
                let known = p.board.announced.contains_key(key) && p.board.announced[key]
                    == notice.severity();
                Pass {
                    board: Board {
                        active: p.board.active.insert(key, ActiveAlert { alert, tier }),
                        announced: if known {
                            p.board.announced
                        } else {
                            p.board.announced.insert(key, notice.severity())
                        },
                    },
                    seen: p.seen.insert(key),
                    fresh: if known {
                        p.fresh
                    } else {
                        p.fresh.push(notice)
                    },
                }
            }
        },
    }
}

/// What a list of alerts does, one after the other.
pub open spec fn take_all(start: Pass, alerts: Seq<Alert>, list: Allowlist) -> Pass
    decreases alerts.len(),
{
    if alerts.len() == 0 {
        start
    } else {
        take_in(take_all(start, alerts.drop_last(), list), alerts.last(), list)
    }
}

/// A pass that has seen nothing yet.
pub open spec fn first_pass(board: Board) -> Pass {
    Pass { board, seen: Set::empty(), fresh: Seq::empty() }
}

/// The board after a poll: what the poll did not show is gone.
pub open spec fn settled(p: Pass) -> Board {
    Board { active: p.board.active.restrict(p.seen), announced: p.board.announced.restrict(p.seen) }
}

/// The board after a poll.
pub open spec fn board_after(board: Board, alerts: Seq<Alert>, list: Allowlist) -> Board {
    settled(take_all(first_pass(board), alerts, list))
}

/// What a poll announces.
pub open spec fn announced_by(board: Board, alerts: Seq<Alert>, list: Allowlist) -> Seq<Notice> {
    take_all(first_pass(board), alerts, list).fresh
}

/// Whether what expires at `expiry` is still in force at `now`. What has no readable expiry
/// is: the feed decides when it goes.
pub fn in_force(expiry: Option<Stamp>, now: Stamp) -> (r: bool)
    ensures
        r == (expiry matches Some(t) ==> now.before(t)),
{
    match expiry {
        Some(t) => now.is_before(&t),
        None => true,
    }
}

/// Whether an alert is still in force at `now`.
pub open spec fn unexpired(alert: Alert, now: Stamp) -> bool {
    alert.expiry() matches Some(t) ==> now.before(t)
}

/// The keys of the alerts still in force at `now`.
pub open spec fn unexpired_keys(board: Board, now: Stamp) -> Set<Seq<char>> {
    Set::new(|k: Seq<char>| board.active.contains_key(k) && unexpired(board.active[k].alert, now))
}

/// The board without what has expired.
pub open spec fn pruned(board: Board, now: Stamp) -> Board {
    let keep = unexpired_keys(board, now);
    Board { active: board.active.restrict(keep), announced: board.announced.restrict(keep) }
}

/// Whether the last successful poll lies `threshold` seconds or more back, or there was none.
pub open spec fn stale_since(last: Option<u64>, now: u64, threshold: u64) -> bool {
    match last {
        None => true,
        Some(t) => threshold == 0 || now - t >= threshold,
    }
}

/// The alerts in force and the liveness of the feed.
#[derive(Debug, Clone)]
pub struct AlertState {
    active: Table<ActiveAlert>,
    notified: Table<SeverityMarkers>,
    last_success_epoch: Option<u64>,
}

impl AlertState {
    /// The board that this state holds.
    pub closed spec fn board(self) -> Board {
        Board {
            active: self.active@,
            announced: self.notified@.map_values(|m: SeverityMarkers| m@),
        }
    }

    /// When a poll last succeeded, in seconds since the epoch.
    pub closed spec fn last_success(self) -> Option<u64> {
        self.last_success_epoch
    }

    pub closed spec fn tables_wf(self) -> bool {
        self.active.wf() && self.notified.wf()
    }

    /// What every state satisfies.
    pub open spec fn wf(self) -> bool {
        self.tables_wf() && self.board().wf()
    }

    pub fn new() -> (r: AlertState)
        ensures
            r.wf(),
            r.board().active == Map::<Seq<char>, ActiveAlert>::empty(),
            r.last_success() is None,
    {
        let r = AlertState {
            active: Table::new(),
            notified: Table::new(),
            last_success_epoch: None,
        };
        assert(r.board().announced.dom() =~= r.board().active.dom());
        r
    }

    /// Takes in the alerts of a poll and returns what is to be announced.
    pub fn ingest(&mut self, incoming: Vec<Alert>, filter: &Filter) -> (fresh: Vec<Notification>)
        requires
            old(self).wf(),
        ensures
            final(self).wf(),
            final(self).board() == board_after(old(self).board(), incoming@, filter@),
            notices(fresh@) == announced_by(old(self).board(), incoming@, filter@),
            forall|n: int|
                0 <= n < fresh@.len() ==> exists|i: int|
                    {
                        let said = #[trigger] fresh@[n];
                        let alert = #[trigger] incoming@[i];
                        &&& 0 <= i < incoming@.len()
                        &&& filter@.verdict(alert) == Some(said.tier)
                        &&& !is_ending(alert)
                        &&& said.key@ == alert_key(alert)
                        &&& said.event@ == alert.properties.event@
                        &&& opt_text(said.headline) == opt_text(alert.properties.headline)
                        &&& opt_text(said.area) == opt_text(alert.properties.area_desc)
                        &&& opt_text(said.instruction) == opt_text(alert.properties.instruction)
                        &&& opt_text(said.damage_threat) == first_text(
                            alert.properties.said("damageThreat"@),
                        )
                        &&& opt_text(said.tornado_detection) == first_text(
                            alert.properties.said("tornadoDetection"@),
                        )
                    },
            final(self).last_success() == old(self).last_success(),
    {
        let ghost start = first_pass(self.board());
        let ghost all = incoming@;
        let mut seen: Vec<String> = Vec::new();
        let mut fresh: Vec<Notification> = Vec::new();
        assert(texts(seen@).to_set() =~= Set::<Seq<char>>::empty());
        assert(notices(fresh@) =~= Seq::<Notice>::empty());
        for alert in it: incoming
            invariant
                it.seq() == all,
                self.tables_wf(),
                self.last_success_epoch == old(self).last_success_epoch,
                take_all(start, all.take(it.index() as int), filter@) == (Pass {
                    board: self.board(),
                    seen: texts(seen@).to_set(),
                    fresh: notices(fresh@),
                }),
        {
            let ghost i = it.index() as int;
            let ghost p = take_all(start, all.take(i), filter@);
            assert(all.take(i + 1).drop_last() =~= all.take(i));
            assert(all.take(i + 1).last() == alert);
            let verdict = filter.classify(&alert);
            if let Some(tier) = verdict {
                let key = key_of(&alert);
                let ghost k = key@;
                let ending: bool = match alert.primary_vtec() {
                    Some(v) => v.action.terminates_event(),
                    None => false,
                };
                if ending {
                    self.active.remove(key.as_str());
                    self.notified.remove(key.as_str());
                    assert(self.board().announced =~= p.board.announced.remove(k));
                } else {
                    let ghost seen_before = texts(seen@);
                    seen.push(key.clone());
                    assert(texts(seen@) =~= seen_before.push(k));
                    proof {
                        seen_before.lemma_push_to_set_commute(k);
                    }
                    let candidate = Notification::from_alert(key.clone(), tier, &alert);
                    let markers = candidate.severity_markers();
                    let known: bool = match self.notified.get(key.as_str()) {
                        Some(prev) => same_opt(&prev.damage_threat, &markers.damage_threat)
                            && same_opt(&prev.tornado_detection, &markers.tornado_detection),
                        None => false,
                    };
                    let ghost notice = notice_of(tier, alert);
                    assert(known == (p.board.announced.contains_key(k) && p.board.announced[k]
                        == notice.severity()));
                    if !known {
                        let ghost before = notices(fresh@);
                        self.notified.insert(key.clone(), markers);
                        assert(self.board().announced =~= p.board.announced.insert(
                            k,
                            notice.severity(),
                        ));
                        fresh.push(candidate);
                        assert(notices(fresh@) =~= before.push(notice));
                    }
                    self.active.insert(key, ActiveAlert { alert, tier });
                }
            }
        }
        assert(all.take(all.len() as int) =~= all);
        let ghost p = take_all(start, all, filter@);
        self.active.retain_listed(&seen);
        self.notified.retain_listed(&seen);
        assert(self.board().announced =~= p.board.announced.restrict(p.seen));
        proof {
            lemma_take_all_keeps_wf(start, all, filter@);
            assert(settled(p).announced.dom() =~= settled(p).active.dom());
            assert forall|n: int| 0 <= n < fresh@.len() implies exists|i: int|
                {
                    let said = #[trigger] fresh@[n];
                    let alert = #[trigger] all[i];
                    &&& 0 <= i < all.len()
                    &&& filter@.verdict(alert) == Some(said.tier)
                    &&& !is_ending(alert)
                    &&& said.key@ == alert_key(alert)
                    &&& said.event@ == alert.properties.event@
                    &&& opt_text(said.headline) == opt_text(alert.properties.headline)
                    &&& opt_text(said.area) == opt_text(alert.properties.area_desc)
                    &&& opt_text(said.instruction) == opt_text(alert.properties.instruction)
                    &&& opt_text(said.damage_threat) == first_text(
                        alert.properties.said("damageThreat"@),
                    )
                    &&& opt_text(said.tornado_detection) == first_text(
                        alert.properties.said("tornadoDetection"@),
                    )
                } by {
                assert(notices(fresh@)[n] == fresh@[n]@);
                let i = law_notice_tells_what_its_alert_says(old(self).board(), all, filter@, n);
                assert(0 <= i < all.len() && all[i] == all[i]);
            }
        }
        fresh
    }

    /// The alerts in force.
    pub fn active(&self) -> (r: Vec<&ActiveAlert>)
        requires
            self.wf(),
        ensures
            self.board().active.dom().finite(),
            r@.len() == self.board().active.dom().len(),
            forall|i: int|
                0 <= i < r@.len() ==> {
                    let k = alert_key((#[trigger] r@[i]).alert);
                    self.board().active.contains_key(k) && self.board().active[k] == *r@[i]
                },
            forall|i: int, j: int|
                0 <= i < r@.len() && 0 <= j < r@.len() && i != j ==> alert_key(
                    (#[trigger] r@[i]).alert,
                ) != alert_key((#[trigger] r@[j]).alert),
    {
        let mut out: Vec<&ActiveAlert> = Vec::new();
        let mut i: usize = 0;
        while i < self.active.len()
            invariant
                i == out@.len(),
                i <= self.active.list().len(),
                forall|k: int|
                    0 <= k < i ==> *(#[trigger] out@[k]) == self.active.list()[k].1,
            decreases self.active.list().len() - i,
        {
            out.push(self.active.value_at(i));
            i += 1;
        }
        proof {
            lemma_map_of_len(self.active.list());
            assert forall|i: int| 0 <= i < out@.len() implies {
                let k = alert_key((#[trigger] out@[i]).alert);
                &&& self.board().active.contains_key(k)
                &&& self.board().active[k] == *out@[i]
                &&& k == self.active.list()[i].0
            } by {
                lemma_map_of_entry(self.active.list(), i);
                assert(self.board().active.contains_key(self.active.list()[i].0));
            }
        }
        out
    }

    /// The alert in force under a key.
    pub fn active_under(&self, key: &str) -> (r: Option<&ActiveAlert>)
        requires
            self.wf(),
        ensures
            r is Some <==> self.board().active.contains_key(key@),
            r matches Some(a) ==> *a == self.board().active[key@],
    {
        self.active.get(key)
    }

    /// Takes expired alerts off the board, and returns how many there were.
    pub fn prune_expired(&mut self, now: Stamp) -> (dropped: usize)
        requires
            old(self).wf(),
        ensures
            final(self).wf(),
            final(self).board() == pruned(old(self).board(), now),
            final(self).board().active.dom().finite(),
            old(self).board().active.dom().finite(),
            dropped == old(self).board().active.dom().len()
                - final(self).board().active.dom().len(),
            final(self).last_success() == old(self).last_success(),
    {
        let ghost start = self.board();
        let ghost list = self.active.list();
        let before: usize = self.active.len();
        let mut keep: Vec<String> = Vec::new();
        let mut i: usize = 0;
        while i < self.active.len()
            invariant
                self.wf(),
                self.board() == start,
                self.active.list() == list,
                i <= list.len(),
                forall|k: Seq<char>|
                    texts(keep@).contains(k) <==> exists|j: int|
                        0 <= j < i && (#[trigger] list[j]).0 == k && unexpired(
                            list[j].1.alert,
                            now,
                        ),
            decreases list.len() - i,
        {
            let live: bool = in_force(self.active.value_at(i).alert.expires_at(), now);
            let ghost was = texts(keep@);
            if live {
                let k = self.active.key_at(i).clone();
                keep.push(k);
                assert(texts(keep@) =~= was.push(k@));
                assert forall|x: Seq<char>|
                    texts(keep@).contains(x) <==> exists|j: int|
                        0 <= j < i + 1 && (#[trigger] list[j]).0 == x && unexpired(
                            list[j].1.alert,
                            now,
                        ) by {
                    if x == k@ {
                        assert(texts(keep@)[was.len() as int] == x);
                        assert(list[i as int].0 == x);
                    } else if texts(keep@).contains(x) {
                        let j = texts(keep@).index_of(x);
                        assert(was[j] == x);
                        assert(was.contains(x));
                    } else if was.contains(x) {
                        let j = was.index_of(x);
                        assert(texts(keep@)[j] == x);
                    }
                }
            }
            i += 1;
        }
        proof {
            let want = unexpired_keys(start, now);
            assert forall|k: Seq<char>| texts(keep@).to_set().contains(k) <==> want.contains(k) by {
                if texts(keep@).contains(k) {
                    let j = choose|j: int|
                        0 <= j < list.len() && (#[trigger] list[j]).0 == k && unexpired(
                            list[j].1.alert,
                            now,
                        );
                    lemma_map_of_entry(list, j);
                }
                if want.contains(k) {
                    let j = choose|j: int| 0 <= j < list.len() && (#[trigger] list[j]).0 == k;
                    lemma_map_of_entry(list, j);
                    assert(list[j].0 == k && unexpired(list[j].1.alert, now));
                }
            }
            assert(texts(keep@).to_set() =~= want);
            lemma_map_of_len(list);
        }
        self.active.retain_listed(&keep);
        self.notified.retain_listed(&keep);
        assert(self.board().announced =~= pruned(start, now).announced);
        assert(self.board().announced.dom() =~= self.board().active.dom());
        proof {
            lemma_map_of_len(self.active.list());
            vstd::set_lib::lemma_len_subset(self.board().active.dom(), start.active.dom());
        }
        before - self.active.len()
    }

    /// Notes that a poll succeeded.
    pub fn mark_poll_success(&mut self, now_epoch: u64)
        requires
            old(self).wf(),
        ensures
            final(self).wf(),
            final(self).board() == old(self).board(),
            final(self).last_success() == Some(now_epoch),
    {
        self.last_success_epoch = Some(now_epoch);
    }

    pub fn last_success_epoch(&self) -> (r: Option<u64>)
        ensures
            r == self.last_success(),
    {
        self.last_success_epoch
    }

    /// A dead poller looks like calm weather; this tells the two apart.
    pub fn is_stale(&self, now_epoch: u64, threshold_secs: u64) -> (r: bool)
        ensures
            r == stale_since(self.last_success(), now_epoch, threshold_secs),
    {
        match self.last_success_epoch {
            None => true,
            Some(t) => now_epoch.saturating_sub(t) >= threshold_secs,
        }
    }
}

proof fn lemma_take_all_keeps_wf(start: Pass, alerts: Seq<Alert>, list: Allowlist)
    requires
        start.board.wf(),
    ensures
        take_all(start, alerts, list).board.wf(),
    decreases alerts.len(),
{
    if alerts.len() > 0 {
        lemma_take_all_keeps_wf(start, alerts.drop_last(), list);
        let p = take_all(start, alerts.drop_last(), list);
        let q = take_in(p, alerts.last(), list);
        assert(q.board.announced.dom() =~= q.board.active.dom());
    }
}

/// Whether the `i`th alert is the last accepted one with key `k`.
pub open spec fn last_word(alerts: Seq<Alert>, list: Allowlist, k: Seq<char>, i: int) -> bool {
    &&& 0 <= i < alerts.len()
    &&& list.verdict(alerts[i]) is Some
    &&& alert_key(alerts[i]) == k
    &&& forall|j: int|
        i < j < alerts.len() ==> !(list.verdict(#[trigger] alerts[j]) is Some && alert_key(
            alerts[j],
        ) == k)
}

proof fn lemma_last_word_extends(alerts: Seq<Alert>, list: Allowlist, k: Seq<char>)
    requires
        alerts.len() > 0,
    ensures
        list.verdict(alerts.last()) is Some && alert_key(alerts.last()) == k ==> last_word(
            alerts,
            list,
            k,
            alerts.len() - 1,
        ) && forall|i: int| last_word(alerts, list, k, i) ==> i == alerts.len() - 1,
        !(list.verdict(alerts.last()) is Some && alert_key(alerts.last()) == k) ==> forall|i: int|
            last_word(alerts, list, k, i) <==> last_word(alerts.drop_last(), list, k, i),
{
    let before = alerts.drop_last();
    let n = alerts.len() - 1;
    if !(list.verdict(alerts.last()) is Some && alert_key(alerts.last()) == k) {
        assert forall|i: int|
            last_word(alerts, list, k, i) <==> last_word(before, list, k, i) by {
            if last_word(alerts, list, k, i) {
                assert(i != n);
                assert(before[i] == alerts[i]);
                assert forall|j: int| i < j < before.len() implies !(list.verdict(
                    #[trigger] before[j],
                ) is Some && alert_key(before[j]) == k) by {
                    assert(before[j] == alerts[j]);
                }
            }
            if last_word(before, list, k, i) {
                assert(before[i] == alerts[i]);
                assert forall|j: int| i < j < alerts.len() implies !(list.verdict(
                    #[trigger] alerts[j],
                ) is Some && alert_key(alerts[j]) == k) by {
                    if j < n {
                        assert(before[j] == alerts[j]);
                    }
                }
            }
        }
    } else {
        assert forall|i: int| last_word(alerts, list, k, i) implies i == n by {
            if i < n {
                assert(alerts[n] == alerts.last());
            }
        }
    }
}

proof fn lemma_pass_active(start: Board, alerts: Seq<Alert>, list: Allowlist, k: Seq<char>)
    ensures
        ({
            let p = take_all(first_pass(start), alerts, list);
            &&& p.board.active.contains_key(k) && p.seen.contains(k) <==> exists|i: int|
                #[trigger] last_word(alerts, list, k, i) && !is_ending(alerts[i])
            &&& forall|i: int| #[trigger]
                last_word(alerts, list, k, i) && !is_ending(alerts[i]) ==> p.board.active[k]
                    == (ActiveAlert { alert: alerts[i], tier: list.verdict(alerts[i])->0 })
        }),
    decreases alerts.len(),
{
    if alerts.len() > 0 {
        let before = alerts.drop_last();
        let last = alerts.last();
        let n = alerts.len() - 1;
        lemma_pass_active(start, before, list, k);
        lemma_last_word_extends(alerts, list, k);
        let p = take_all(first_pass(start), before, list);
        let q = take_all(first_pass(start), alerts, list);
        if list.verdict(last) is Some && alert_key(last) == k {
            assert(last_word(alerts, list, k, n));
            assert(alerts[n] == last);
        } else {
            assert(q.board.active.contains_key(k) == p.board.active.contains_key(k));
            assert(q.seen.contains(k) == p.seen.contains(k));
            if p.board.active.contains_key(k) && p.seen.contains(k) {
                let i = choose|i: int| #[trigger]
                    last_word(before, list, k, i) && !is_ending(before[i]);
                assert(last_word(alerts, list, k, i));
                assert(alerts[i] == before[i]);
            }
            assert forall|i: int| #[trigger]
                last_word(alerts, list, k, i) && !is_ending(alerts[i]) implies q.board.active[k]
                == (ActiveAlert { alert: alerts[i], tier: list.verdict(alerts[i])->0 })
                && q.board.active.contains_key(k) && q.seen.contains(k) by {
                assert(last_word(before, list, k, i));
                assert(alerts[i] == before[i]);
            }
        }
    }
}

/// After a poll an event is on the board exactly when the poll's last accepted alert of
/// that key goes on, and it stands there as that alert says. What was there before plays no
/// part: an event that the poll leaves out is gone.
pub proof fn law_poll_decides_the_board(
    board: Board,
    alerts: Seq<Alert>,
    list: Allowlist,
    k: Seq<char>,
)
    ensures
        board_after(board, alerts, list).active.contains_key(k) <==> exists|i: int|
            #[trigger] last_word(alerts, list, k, i) && !is_ending(alerts[i]),
        forall|i: int| #[trigger]
            last_word(alerts, list, k, i) && !is_ending(alerts[i]) ==> board_after(
                board,
                alerts,
                list,
            ).active[k] == (ActiveAlert { alert: alerts[i], tier: list.verdict(alerts[i])->0 }),
{
    lemma_pass_active(board, alerts, list, k);
}

/// Whether `fresh` announces `severity` for `k`.
pub open spec fn announces(fresh: Seq<Notice>, k: Seq<char>, severity: Severity) -> bool {
    exists|i: int|
        0 <= i < fresh.len() && (#[trigger] fresh[i]).key == k && fresh[i].severity() == severity
}

proof fn lemma_pass_announced(start: Board, alerts: Seq<Alert>, list: Allowlist, k: Seq<char>)
    ensures
        ({
            let p = take_all(first_pass(start), alerts, list);
            p.board.announced.contains_key(k) ==> {
                ||| start.announced.contains_key(k) && start.announced[k] == p.board.announced[k]
                ||| announces(p.fresh, k, p.board.announced[k])
            }
        }),
    decreases alerts.len(),
{
    if alerts.len() > 0 {
        let before = alerts.drop_last();
        lemma_pass_announced(start, before, list, k);
        let p = take_all(first_pass(start), before, list);
        let q = take_all(first_pass(start), alerts, list);
        if q.board.announced.contains_key(k) {
            if q.fresh != p.fresh && alert_key(alerts.last()) == k {
                assert(q.fresh[p.fresh.len() as int].key == k);
            } else {
                if announces(p.fresh, k, q.board.announced[k]) {
                    let i = choose|i: int|
                        0 <= i < p.fresh.len() && (#[trigger] p.fresh[i]).key == k
                            && p.fresh[i].severity() == q.board.announced[k];
                    assert(q.fresh[i] == p.fresh[i]);
                }
            }
        }
    }
}

/// Nothing stands on the board unannounced: after a poll every event there was announced by
/// that poll with its present severity, or stood there before with the same severity.
pub proof fn law_nothing_goes_unannounced(
    board: Board,
    alerts: Seq<Alert>,
    list: Allowlist,
    k: Seq<char>,
)
    requires
        board.wf(),
        board_after(board, alerts, list).active.contains_key(k),
    ensures
        ({
            let now = alert_severity(board_after(board, alerts, list).active[k].alert);
            ||| board.active.contains_key(k) && alert_severity(board.active[k].alert) == now
            ||| announces(announced_by(board, alerts, list), k, now)
        }),
{
    lemma_take_all_keeps_wf(first_pass(board), alerts, list);
    lemma_pass_announced(board, alerts, list, k);
    let p = take_all(first_pass(board), alerts, list);
    assert(p.board.active.contains_key(k));
    assert(p.board.announced.dom().contains(k));
    if board.announced.contains_key(k) {
        assert(board.active.dom().contains(k));
        assert(board.active.contains_key(k));
    }
}

/// Whether a poll speaks of each event with one voice: accepted alerts with one key agree on
/// whether it goes on and on its severity.
pub open spec fn steady(alerts: Seq<Alert>, list: Allowlist) -> bool {
    forall|i: int, j: int|
        0 <= i < alerts.len() && 0 <= j < alerts.len() && list.verdict(#[trigger] alerts[i]) is Some
            && list.verdict(#[trigger] alerts[j]) is Some && alert_key(alerts[i]) == alert_key(
            alerts[j],
        ) ==> is_ending(alerts[i]) == is_ending(alerts[j]) && alert_severity(alerts[i])
            == alert_severity(alerts[j])
}

proof fn lemma_repeat_pass(board: Board, alerts: Seq<Alert>, list: Allowlist, n: int)
    requires
        0 <= n <= alerts.len(),
        steady(alerts, list),
        forall|i: int|
            0 <= i < alerts.len() && list.verdict(#[trigger] alerts[i]) is Some && !is_ending(
                alerts[i],
            ) ==> board.announced.contains_key(alert_key(alerts[i])) && board.announced[alert_key(
                alerts[i],
            )] == alert_severity(alerts[i]),
    ensures
        ({
            let p = take_all(first_pass(board), alerts.take(n), list);
            &&& p.fresh == Seq::<Notice>::empty()
            &&& forall|i: int|
                0 <= i < alerts.len() && list.verdict(#[trigger] alerts[i]) is Some && !is_ending(
                    alerts[i],
                ) ==> p.board.announced.contains_key(alert_key(alerts[i]))
                    && p.board.announced[alert_key(alerts[i])] == alert_severity(alerts[i])
        }),
    decreases n,
{
    if n > 0 {
        lemma_repeat_pass(board, alerts, list, n - 1);
        assert(alerts.take(n).drop_last() =~= alerts.take(n - 1));
        assert(alerts.take(n).last() == alerts[n - 1]);
    }
}

/// An event is announced once: a poll that repeats what the last one said announces nothing.
/// The poll must speak of each event with one voice; one that carries both an event and its
/// end, or two severities of one event, announces it again.
pub proof fn law_repeated_poll_is_silent(board: Board, alerts: Seq<Alert>, list: Allowlist)
    requires
        board.wf(),
        steady(alerts, list),
    ensures
        announced_by(board_after(board, alerts, list), alerts, list) == Seq::<Notice>::empty(),
{
    let after = board_after(board, alerts, list);
    lemma_take_all_keeps_wf(first_pass(board), alerts, list);
    let p = take_all(first_pass(board), alerts, list);
    assert forall|i: int|
        0 <= i < alerts.len() && list.verdict(#[trigger] alerts[i]) is Some && !is_ending(
            alerts[i],
        ) implies after.announced.contains_key(alert_key(alerts[i]))
        && after.announced[alert_key(alerts[i])] == alert_severity(alerts[i]) by {
        let k = alert_key(alerts[i]);
        let j = last_of_key(alerts, list, k, alerts.len() as int);
        lemma_last_of_key(alerts, list, k, alerts.len() as int, i);
        assert(last_word(alerts, list, k, j));
        lemma_pass_active(board, alerts, list, k);
        assert(p.board.active.contains_key(k) && p.seen.contains(k));
        assert(p.board.announced.dom().contains(k));
    }
    lemma_repeat_pass(after, alerts, list, alerts.len() as int);
    assert(alerts.take(alerts.len() as int) =~= alerts);
}

spec fn last_of_key(alerts: Seq<Alert>, list: Allowlist, k: Seq<char>, n: int) -> int
    decreases n,
{
    if n <= 0 {
        -1
    } else if list.verdict(alerts[n - 1]) is Some && alert_key(alerts[n - 1]) == k {
        n - 1
    } else {
        last_of_key(alerts, list, k, n - 1)
    }
}

proof fn lemma_last_of_key(alerts: Seq<Alert>, list: Allowlist, k: Seq<char>, n: int, i: int)
    requires
        0 <= i < n <= alerts.len(),
        list.verdict(alerts[i]) is Some,
        alert_key(alerts[i]) == k,
        forall|j: int|
            n <= j < alerts.len() ==> !(list.verdict(#[trigger] alerts[j]) is Some && alert_key(
                alerts[j],
            ) == k),
    ensures
        last_word(alerts, list, k, last_of_key(alerts, list, k, n)),
    decreases n,
{
    if !(list.verdict(alerts[n - 1]) is Some && alert_key(alerts[n - 1]) == k) {
        lemma_last_of_key(alerts, list, k, n - 1, i);
    }
}

/// An event whose severity changes is announced again under the same key, and one whose
/// severity does not is not.
pub proof fn law_escalation_is_announced(board: Board, alert: Alert, list: Allowlist)
    requires
        board.wf(),
        board.active.contains_key(alert_key(alert)),
        list.verdict(alert) is Some,
        !is_ending(alert),
    ensures
        announced_by(board, seq![alert], list) == if alert_severity(
            board.active[alert_key(alert)].alert,
        ) == alert_severity(alert) {
            Seq::<Notice>::empty()
        } else {
            seq![notice_of(list.verdict(alert)->0, alert)]
        },
{
    let one = seq![alert];
    assert(one.drop_last() =~= Seq::<Alert>::empty());
    assert(take_all(first_pass(board), one.drop_last(), list) == first_pass(board));
    assert(board.announced.dom().contains(alert_key(alert)));
    let fresh = announced_by(board, one, list);
    assert(fresh =~= Seq::<Notice>::empty() || fresh =~= seq![
        notice_of(list.verdict(alert)->0, alert),
    ]);
}

/// The end of an event takes it off the board, and announces nothing.
pub proof fn law_cancellation_clears_the_event(board: Board, alert: Alert, list: Allowlist)
    requires
        is_ending(alert),
    ensures
        !board_after(board, seq![alert], list).active.contains_key(alert_key(alert)),
        announced_by(board, seq![alert], list) == Seq::<Notice>::empty(),
{
    let one = seq![alert];
    assert(one.drop_last() =~= Seq::<Alert>::empty());
    assert(take_all(first_pass(board), one.drop_last(), list) == first_pass(board));
}

/// Once stale, a feed stays stale until a poll succeeds.
pub proof fn law_staleness_lasts(last: Option<u64>, now: u64, later: u64, threshold: u64)
    requires
        stale_since(last, now, threshold),
        now <= later,
    ensures
        stale_since(last, later, threshold),
{
}

/// Every notice of a poll tells, field by field, what one accepted alert of that poll says, and
/// that alert goes on. Returns which alert.
pub proof fn law_notice_tells_what_its_alert_says(
    board: Board,
    alerts: Seq<Alert>,
    list: Allowlist,
    n: int,
) -> (i: int)
    requires
        0 <= n < announced_by(board, alerts, list).len(),
    ensures
        0 <= i < alerts.len(),
        ({
            let said = announced_by(board, alerts, list)[n];
            let properties = alerts[i].properties;
            &&& list.verdict(alerts[i]) == Some(said.tier)
            &&& !is_ending(alerts[i])
            &&& said.key == alert_key(alerts[i])
            &&& said.event == properties.event@
            &&& said.headline == opt_text(properties.headline)
            &&& said.area == opt_text(properties.area_desc)
            &&& said.instruction == opt_text(properties.instruction)
            &&& said.damage_threat == first_text(properties.said("damageThreat"@))
            &&& said.tornado_detection == first_text(properties.said("tornadoDetection"@))
        }),
    decreases alerts.len(),
{
    let rest = alerts.drop_last();
    let before = take_all(first_pass(board), rest, list);
    if n < before.fresh.len() {
        let i = law_notice_tells_what_its_alert_says(board, rest, list, n);
        assert(rest[i] == alerts[i]);
        i
    } else {
        alerts.len() - 1
    }
}

/// An alert is known by its operative code where it has one, whatever else it says; without one
/// by its id; and without either by its event, its area and its expiry, all of which count.
pub proof fn law_alerts_are_known_by_code_then_id(a: Alert, b: Alert)
    ensures
        a.primary() matches Some(v) ==> alert_key(a) == v.key(),
        a.primary() is None ==> (a.properties.id matches Some(id) ==> alert_key(a) == id@),
        a.primary() is None && b.primary() is None && a.properties.id is None && b.properties.id
            is None && a.properties.event@ == b.properties.event@ && or_empty(
            a.properties.area_desc,
        ) == or_empty(b.properties.area_desc) ==> (alert_key(a) == alert_key(b) <==> or_empty(
            a.properties.expires,
        ) == or_empty(b.properties.expires)),
        a.primary() is None && b.primary() is None && a.properties.id is None && b.properties.id
            is None && or_empty(a.properties.area_desc) == or_empty(b.properties.area_desc)
            && or_empty(a.properties.expires) == or_empty(b.properties.expires) ==> (alert_key(a)
            == alert_key(b) <==> a.properties.event@ == b.properties.event@),
{
    if a.primary() is None && b.primary() is None && a.properties.id is None && b.properties.id
        is None && alert_key(a) == alert_key(b) {
        let (x, y) = (a.properties, b.properties);
        let (ka, kb) = (alert_key(a), alert_key(b));
        if x.event@ == y.event@ && or_empty(x.area_desc) == or_empty(y.area_desc) {
            let n = (x.event@ + "|"@ + or_empty(x.area_desc) + "|"@).len() as int;
            assert(or_empty(x.expires) =~= ka.skip(n));
            assert(or_empty(y.expires) =~= kb.skip(n));
        }
        if or_empty(x.area_desc) == or_empty(y.area_desc) && or_empty(x.expires) == or_empty(
            y.expires,
        ) {
            let n = ("|"@ + or_empty(x.area_desc) + "|"@ + or_empty(x.expires)).len() as int;
            assert(x.event@ =~= ka.take(ka.len() - n));
            assert(y.event@ =~= kb.take(kb.len() - n));
        }
    }
}

/// What is on the board stands there as it came: its alert is one of the poll's, with the tier
/// that the list gives it.
pub proof fn law_board_holds_what_the_poll_said(
    board: Board,
    alerts: Seq<Alert>,
    list: Allowlist,
    k: Seq<char>,
)
    requires
        board_after(board, alerts, list).active.contains_key(k),
    ensures
        exists|i: int|
            {
                let entry = board_after(board, alerts, list).active[k];
                &&& 0 <= i < alerts.len()
                &&& entry.alert == #[trigger] alerts[i]
                &&& list.verdict(alerts[i]) == Some(entry.tier)
                &&& alert_key(alerts[i]) == k
                &&& !is_ending(alerts[i])
            },
{
    law_poll_decides_the_board(board, alerts, list, k);
    let i = choose|i: int| #[trigger] last_word(alerts, list, k, i) && !is_ending(alerts[i]);
    assert(board_after(board, alerts, list).active[k].alert == alerts[i]);
}

/// What has expired leaves, at the very moment of its expiry, and nothing else does: an alert
/// without a readable expiry stays.
pub proof fn law_expired_alerts_leave(board: Board, now: Stamp, k: Seq<char>)
    requires
        board.active.contains_key(k),
    ensures
        pruned(board, now).active.contains_key(k) <==> (board.active[k].alert.expiry() matches Some(
            t,
        ) ==> now.secs < t.secs || (now.secs == t.secs && now.nanos < t.nanos)),
        pruned(board, now).active.contains_key(k) ==> pruned(board, now).active[k]
            == board.active[k],
        board.announced.contains_key(k) ==> (pruned(board, now).announced.contains_key(k)
            <==> pruned(board, now).active.contains_key(k)),
{
}

/// A feed is stale exactly where nothing was ever heard or the last success lies as far back as
/// the threshold.
pub proof fn law_feed_is_stale_from_the_threshold_on(last: u64, now: u64, threshold: u64)
    requires
        last <= now,
    ensures
        stale_since(None, now, threshold),
        stale_since(Some(last), now, threshold) <==> now >= last + threshold,
{
}

/// Each of the two markers counts: an event on the board is announced again where its damage threat
/// or its tornado detection has changed, whichever it is, and only there.
pub proof fn law_either_marker_is_announced(board: Board, alert: Alert, list: Allowlist)
    requires
        board.wf(),
        board.active.contains_key(alert_key(alert)),
        list.verdict(alert) is Some,
        !is_ending(alert),
    ensures
        ({
            let before = board.active[alert_key(alert)].alert.properties;
            let now = alert.properties;
            let again = announced_by(board, seq![alert], list).len() == 1;
            &&& first_text(before.said("damageThreat"@)) != first_text(now.said("damageThreat"@))
                ==> again
            &&& first_text(before.said("tornadoDetection"@)) != first_text(
                now.said("tornadoDetection"@),
            ) ==> again
            &&& first_text(before.said("damageThreat"@)) == first_text(now.said("damageThreat"@))
                && first_text(before.said("tornadoDetection"@)) == first_text(
                now.said("tornadoDetection"@),
            ) ==> announced_by(board, seq![alert], list).len() == 0
        }),
{
    law_escalation_is_announced(board, alert, list);
}

/// An accepted event that is not on the board is announced and stands there from then on, in the
/// tier that the list gives it; one that the list rejects does neither.
pub proof fn law_new_events_are_announced(board: Board, alert: Alert, list: Allowlist)
    requires
        board.wf(),
        !board.active.contains_key(alert_key(alert)),
    ensures
        list.verdict(alert) is Some && !is_ending(alert) ==> {
            let after = board_after(board, seq![alert], list);
            &&& announced_by(board, seq![alert], list).len() == 1
            &&& announced_by(board, seq![alert], list)[0].key == alert_key(alert)
            &&& after.active.contains_key(alert_key(alert))
            &&& after.active[alert_key(alert)].alert == alert
            &&& list.verdict(alert) == Some(after.active[alert_key(alert)].tier)
        },
        list.verdict(alert) is None ==> announced_by(board, seq![alert], list).len() == 0
            && !board_after(board, seq![alert], list).active.contains_key(alert_key(alert)),
{
    let one = seq![alert];
    assert(one.drop_last() =~= Seq::<Alert>::empty());
    assert(take_all(first_pass(board), one.drop_last(), list) == first_pass(board));
    assert(!board.active.dom().contains(alert_key(alert)));
    assert(!board.announced.dom().contains(alert_key(alert)));
}

} // verus!
