//! What is announced, in what words, and through which channels.
//!
//! Texts stay plain ASCII where what they quote is: the font of a notification daemon may
//! lack anything else.

use vstd::prelude::*;
#[allow(unused_imports)]
use vstd::string::StringExecFns;
#[allow(unused_imports)]
use vstd::utf8::is_ascii_chars;
#[allow(unused_imports)]
use crate::alert::filter::{law_tiers_are_graded, ThreatTier};
#[allow(unused_imports)]
use crate::alert::state::{Notice, Notification};
use crate::config::{NotifyLevels, Scripts, Urgency};
#[allow(unused_imports)]
use crate::text::{
    ascii_lower, ascii_upper, decimal, join, joined, lowercase_of, lowercased, number, opt_text,
    same, signed_decimal, signed_number, texts, uppercased, words,
};

verus! {

/// The urgency of a tier.
pub open spec fn level_of(tier: ThreatTier, levels: NotifyLevels) -> Urgency {
    match tier {
        ThreatTier::Lethal => levels.lethal,
        ThreatTier::Severe => levels.severe,
        ThreatTier::Watch => levels.watch,
    }
}

pub fn urgency_for(tier: ThreatTier, levels: &NotifyLevels) -> (r: Urgency)
    ensures
        r == level_of(tier, *levels),
        tier is Lethal ==> r == levels.lethal,
        tier is Severe ==> r == levels.severe,
        tier is Watch ==> r == levels.watch,
{
    match tier {
        ThreatTier::Lethal => levels.lethal,
        ThreatTier::Severe => levels.severe,
        ThreatTier::Watch => levels.watch,
    }
}

/// The arguments of `notify-send`. A silent toast does not wake a sleeping person, so the
/// critical urgency asks for a sound.
pub open spec fn command_line(
    summary: Seq<char>,
    body: Seq<char>,
    urgency: Urgency,
) -> Seq<Seq<char>> {
    seq!["-u"@, urgency.word(), "-a"@, "weatui"@] + (if urgency is Critical {
        seq!["-h"@, "string:sound-name:alarm-clock-elapsed"@]
    } else {
        Seq::empty()
    }) + seq![summary, body]
}

pub fn build_args(summary: &str, body: &str, urgency: Urgency) -> (r: Vec<String>)
    ensures
        texts(r@) == command_line(summary@, body@, urgency),
{
    let mut args: Vec<String> = Vec::new();
    args.push("-u".to_owned());
    args.push(urgency.as_notify_send_arg().to_owned());
    args.push("-a".to_owned());
    args.push("weatui".to_owned());
    if urgency == Urgency::Critical {
        args.push("-h".to_owned());
        args.push("string:sound-name:alarm-clock-elapsed".to_owned());
    }
    args.push(summary.to_owned());
    args.push(body.to_owned());
    assert(texts(args@) =~= command_line(summary@, body@, urgency));
    args
}

/// The summary of a notification.
pub open spec fn summary_text(n: Notice) -> Seq<char> {
    "["@ + n.tier.word() + "] "@ + n.event
}

/// Writes the summary of a notification. It is plain ASCII where the event is.
pub fn summary_for(n: &Notification) -> (r: String)
    ensures
        r@ == summary_text(n@),
        is_ascii_chars(n@.event) ==> is_ascii_chars(r@),
{
    let mut out = "[".to_owned();
    out.append(n.tier.label());
    out.append("] ");
    out.append(n.event.as_str());
    proof {
        reveal_strlit("[");
        reveal_strlit("] ");
        reveal_strlit("LETHAL");
        reveal_strlit("SEVERE");
        reveal_strlit("WATCH");
    }
    out
}

/// How a damage threat is announced: the two gravest ones as what they mean.
pub open spec fn banner_text(threat: Seq<char>) -> Seq<char> {
    let t = ascii_upper(threat);
    if t == "CATASTROPHIC"@ {
        "TORNADO EMERGENCY"@
    } else if t == "CONSIDERABLE"@ {
        "PARTICULARLY DANGEROUS SITUATION"@
    } else {
        "Damage threat: "@ + t
    }
}

pub fn damage_threat_banner(threat: &str) -> (r: String)
    ensures
        r@ == banner_text(threat@),
        ascii_upper(threat@) == "CATASTROPHIC"@ ==> r@ == "TORNADO EMERGENCY"@,
        ascii_upper(threat@) == "CONSIDERABLE"@ ==> r@ == "PARTICULARLY DANGEROUS SITUATION"@,
        ascii_upper(threat@) != "CATASTROPHIC"@ && ascii_upper(threat@) != "CONSIDERABLE"@ ==> r@
            == "Damage threat: "@ + ascii_upper(threat@),
{
    proof {
        reveal_strlit("CATASTROPHIC");
        reveal_strlit("CONSIDERABLE");
        assert("CATASTROPHIC"@[1] == 'A' && "CONSIDERABLE"@[1] == 'O');
    }
    let t = uppercased(threat);
    if same(t.as_str(), "CATASTROPHIC") {
        "TORNADO EMERGENCY".to_owned()
    } else if same(t.as_str(), "CONSIDERABLE") {
        "PARTICULARLY DANGEROUS SITUATION".to_owned()
    } else {
        let mut out = "Damage threat: ".to_owned();
        out.append(t.as_str());
        out
    }
}

/// A line, where there is something to say.
pub open spec fn line_if(o: Option<Seq<char>>) -> Seq<Seq<char>> {
    match o {
        Some(s) => seq![s],
        None => Seq::empty(),
    }
}

/// The lines of a notification's body.
pub open spec fn body_lines(n: Notice, eta: Option<i64>) -> Seq<Seq<char>> {
    let lines = line_if(
        match n.damage_threat {
            Some(t) => Some(banner_text(t)),
            None => None,
        },
    ) + line_if(
        match n.tornado_detection {
            Some(d) => Some("Tornado "@ + lowercase_of(d)),
            None => None,
        },
    ) + line_if(n.headline) + line_if(n.area) + line_if(
        match eta {
            Some(m) => Some("Estimated arrival in "@ + signed_decimal(m as int) + " min"@),
            None => None,
        },
    ) + line_if(n.instruction);
    if lines.len() == 0 {
        seq![n.event]
    } else {
        lines
    }
}

/// The body of a notification: the gravest facts first, then what and where, when it comes,
/// and what to do. One with nothing else to say names the event.
pub open spec fn body_text(n: Notice, eta: Option<i64>) -> Seq<char> {
    join(body_lines(n, eta), "\n"@)
}

/// Writes the body of a notification. It is plain ASCII where everything it quotes is.
pub fn body_for(n: &Notification, eta_minutes: Option<i64>) -> (r: String)
    ensures
        r@ == body_text(n@, eta_minutes),
        quotes_ascii(n@) ==> is_ascii_chars(r@),
{
    let mut parts: Vec<String> = Vec::new();
    if let Some(t) = &n.damage_threat {
        parts.push(damage_threat_banner(t.as_str()));
    }
    if let Some(d) = &n.tornado_detection {
        let mut line = "Tornado ".to_owned();
        let low = lowercased(d.as_str());
        line.append(low.as_str());
        parts.push(line);
    }
    if let Some(h) = &n.headline {
        parts.push(h.clone());
    }
    if let Some(a) = &n.area {
        parts.push(a.clone());
    }
    if let Some(m) = eta_minutes {
        let mut line = "Estimated arrival in ".to_owned();
        let minutes = signed_number(m);
        line.append(minutes.as_str());
        line.append(" min");
        parts.push(line);
    }
    if let Some(i) = &n.instruction {
        parts.push(i.clone());
    }
    if parts.len() == 0 {
        parts.push(n.event.clone());
    }
    assert(texts(parts@) =~= body_lines(n@, eta_minutes));
    proof {
        if quotes_ascii(n@) {
            lemma_body_is_ascii(n@, eta_minutes);
        }
    }
    joined(&parts, "\n")
}

/// The command line for the desktop daemon; none where the tier is silenced.
pub open spec fn desktop_line(n: Notice, levels: NotifyLevels, eta: Option<i64>) -> Option<
    Seq<Seq<char>>,
> {
    let urgency = level_of(n.tier, levels);
    if urgency is Silent {
        None
    } else {
        Some(command_line(summary_text(n), body_text(n, eta), urgency))
    }
}

/// The texts of an optional list.
pub open spec fn opt_texts(o: Option<Vec<String>>) -> Option<Seq<Seq<char>>> {
    match o {
        Some(v) => Some(texts(v@)),
        None => None,
    }
}

/// The arguments with which `notify-send` is to be run; none where the tier is silenced and
/// it must not be.
pub fn send(n: &Notification, levels: &NotifyLevels, eta_minutes: Option<i64>) -> (r: Option<
    Vec<String>,
>)
    ensures
        opt_texts(r) == desktop_line(n@, *levels, eta_minutes),
{
    let urgency = urgency_for(n.tier, levels);
    if urgency == Urgency::Silent {
        return None;
    }
    let summary = summary_for(n);
    let body = body_for(n, eta_minutes);
    Some(build_args(summary.as_str(), body.as_str(), urgency))
}

/// An environment variable.
#[derive(Debug, Clone)]
pub struct Variable {
    pub name: String,
    pub value: String,
}

/// The names and values of variables.
pub open spec fn settings(v: Seq<Variable>) -> Seq<(Seq<char>, Seq<char>)> {
    v.map_values(|e: Variable| (e.name@, e.value@))
}

/// A text, empty where there is none.
pub open spec fn text_or_empty(o: Option<Seq<char>>) -> Seq<char> {
    match o {
        Some(s) => s,
        None => ""@,
    }
}

/// What an alert script finds in its environment: everything that the body of the notification
/// tells, so that no script has to read prose. A field that is missing is an empty variable,
/// not an absent one.
pub open spec fn environment(n: Notice, eta: Option<i64>) -> Seq<(Seq<char>, Seq<char>)> {
    seq![
        ("WEATUI_TIER"@, n.tier.word()),
        ("WEATUI_EVENT"@, n.event),
        ("WEATUI_HEADLINE"@, text_or_empty(n.headline)),
        ("WEATUI_AREA"@, text_or_empty(n.area)),
        (
            "WEATUI_ETA_MINUTES"@,
            text_or_empty(
                match eta {
                    Some(m) => Some(signed_decimal(m as int)),
                    None => None,
                },
            ),
        ),
        ("WEATUI_DAMAGE_THREAT"@, text_or_empty(n.damage_threat)),
        ("WEATUI_TORNADO_DETECTION"@, text_or_empty(n.tornado_detection)),
        ("WEATUI_INSTRUCTION"@, text_or_empty(n.instruction)),
    ]
}

fn or_blank(o: &Option<String>) -> (r: String)
    ensures
        r@ == text_or_empty(opt_text(*o)),
{
    match o {
        Some(s) => s.clone(),
        None => "".to_owned(),
    }
}

pub fn script_env(n: &Notification, eta_minutes: Option<i64>) -> (r: Vec<Variable>)
    ensures
        settings(r@) == environment(n@, eta_minutes),
        r@.len() == 8,
        r@[0].name@ == "WEATUI_TIER"@ && r@[0].value@ == n.tier.word(),
        r@[1].name@ == "WEATUI_EVENT"@ && r@[1].value@ == n.event@,
        r@[2].name@ == "WEATUI_HEADLINE"@,
        n.headline matches Some(s) ==> r@[2].value@ == s@,
        n.headline is None ==> r@[2].value@.len() == 0,
        r@[3].name@ == "WEATUI_AREA"@,
        n.area matches Some(s) ==> r@[3].value@ == s@,
        n.area is None ==> r@[3].value@.len() == 0,
        r@[4].name@ == "WEATUI_ETA_MINUTES"@,
        eta_minutes matches Some(m) ==> r@[4].value@ == signed_decimal(m as int),
        eta_minutes is None ==> r@[4].value@.len() == 0,
        r@[5].name@ == "WEATUI_DAMAGE_THREAT"@,
        n.damage_threat matches Some(s) ==> r@[5].value@ == s@,
        n.damage_threat is None ==> r@[5].value@.len() == 0,
        r@[6].name@ == "WEATUI_TORNADO_DETECTION"@,
        n.tornado_detection matches Some(s) ==> r@[6].value@ == s@,
        n.tornado_detection is None ==> r@[6].value@.len() == 0,
        r@[7].name@ == "WEATUI_INSTRUCTION"@,
        n.instruction matches Some(s) ==> r@[7].value@ == s@,
        n.instruction is None ==> r@[7].value@.len() == 0,
{
    proof {
        reveal_strlit("");
    }
    let eta = match eta_minutes {
        Some(m) => signed_number(m),
        None => "".to_owned(),
    };
    let mut out: Vec<Variable> = Vec::new();
    out.push(Variable { name: "WEATUI_TIER".to_owned(), value: n.tier.label().to_owned() });
    out.push(Variable { name: "WEATUI_EVENT".to_owned(), value: n.event.clone() });
    out.push(Variable { name: "WEATUI_HEADLINE".to_owned(), value: or_blank(&n.headline) });
    out.push(Variable { name: "WEATUI_AREA".to_owned(), value: or_blank(&n.area) });
    out.push(Variable { name: "WEATUI_ETA_MINUTES".to_owned(), value: eta });
    out.push(
        Variable { name: "WEATUI_DAMAGE_THREAT".to_owned(), value: or_blank(&n.damage_threat) },
    );
    out.push(
        Variable {
            name: "WEATUI_TORNADO_DETECTION".to_owned(),
            value: or_blank(&n.tornado_detection),
        },
    );
    out.push(Variable { name: "WEATUI_INSTRUCTION".to_owned(), value: or_blank(&n.instruction) });
    assert(settings(out@) =~= environment(n@, eta_minutes));
    out
}

/// A script to run: its path, its two arguments and its environment.
#[derive(Debug, Clone)]
pub struct ScriptRun {
    pub script: String,
    pub tier: &'static str,
    pub event: String,
    pub env: Vec<Variable>,
}

/// Whether `run` is the run of the script at `path` for a notification.
pub open spec fn is_run(run: ScriptRun, path: Seq<char>, n: Notice, eta: Option<i64>) -> bool {
    &&& run.script@ == path
    &&& run.tier@ == n.tier.word()
    &&& run.event@ == n.event
    &&& settings(run.env@) == environment(n, eta)
}

fn script_run(script: &String, n: &Notification, eta_minutes: Option<i64>) -> (r: ScriptRun)
    ensures
        is_run(r, script@, n@, eta_minutes),
{
    ScriptRun {
        script: script.clone(),
        tier: n.tier.label(),
        event: n.event.clone(),
        env: script_env(n, eta_minutes),
    }
}

/// What has to be run to deliver a notification.
#[derive(Debug, Clone)]
pub struct Delivery {
    pub desktop: Option<Vec<String>>,
    pub script: Option<ScriptRun>,
}

/// Whether `run` is the run of a tier's script, or nothing where the tier has none.
pub open spec fn runs_script(
    run: Option<ScriptRun>,
    script: Option<Seq<char>>,
    n: Notice,
    eta: Option<i64>,
) -> bool {
    match run {
        Some(r) => script matches Some(path) && is_run(r, path, n, eta),
        None => script is None,
    }
}

/// What has to be run to announce a notification: the desktop daemon unless the tier is
/// silenced, and the tier's script. Neither depends on the other.
pub fn dispatch(
    n: &Notification,
    levels: &NotifyLevels,
    scripts: &Scripts,
    eta_minutes: Option<i64>,
) -> (r: Delivery)
    ensures
        opt_texts(r.desktop) == desktop_line(n@, *levels, eta_minutes),
        runs_script(r.script, scripts.of(n@.tier), n@, eta_minutes),
        r.desktop is None <==> (match n.tier {
            ThreatTier::Lethal => levels.lethal,
            ThreatTier::Severe => levels.severe,
            ThreatTier::Watch => levels.watch,
        }) is Silent,
        opt_text(
            (match r.script {
                Some(run) => Some(run.script),
                None => None,
            }),
        ) == opt_text(
            (match n.tier {
                ThreatTier::Lethal => scripts.lethal,
                ThreatTier::Severe => scripts.severe,
                ThreatTier::Watch => scripts.watch,
            }),
        ),
        r.script matches Some(run) ==> run.event@ == n.event@,
{
    let desktop = send(n, levels, eta_minutes);
    let script = match scripts.for_tier(n.tier) {
        Some(path) => Some(script_run(path, n, eta_minutes)),
        None => None,
    };
    Delivery { desktop, script }
}

/// What a delivery came to, given what became of each channel: both failures are reported
/// where both failed.
pub fn delivery_outcome(desktop: Result<(), String>, script: Result<(), String>) -> (r: Result<
    (),
    String,
>)
    ensures
        r is Ok <==> desktop is Ok && script is Ok,
        match (desktop, script) {
            (Ok(_), Ok(_)) => true,
            (Err(a), Err(b)) => r matches Err(e) && e@ == a@ + "; "@ + b@,
            (Err(a), Ok(_)) => r matches Err(e) && e@ == a@,
            (Ok(_), Err(b)) => r matches Err(e) && e@ == b@,
        },
{
    match (desktop, script) {
        (Ok(()), Ok(())) => Ok(()),
        (Err(a), Err(b)) => {
            let mut out = a;
            out.append("; ");
            out.append(b.as_str());
            Err(out)
        },
        (Err(e), Ok(())) => Err(e),
        (Ok(()), Err(e)) => Err(e),
    }
}

/// Whether a tier can reach no one: the desktop daemon is kept out of it, and it has no script
/// that runs.
pub open spec fn is_mute(level: Urgency, script_runs: bool) -> bool {
    level is Silent && !script_runs
}

/// The words of the tiers that can reach no one, the gravest first. With any of these a monitor
/// would look alive and warn of nothing.
pub fn tiers_with_no_working_channel(
    levels: &NotifyLevels,
    lethal_runs: bool,
    severe_runs: bool,
    watch_runs: bool,
) -> (r: Vec<String>)
    ensures
        texts(r@) == line_if(
            (if is_mute(levels.lethal, lethal_runs) {
                Some(ThreatTier::Lethal.word())
            } else {
                None
            }),
        ) + line_if(
            (if is_mute(levels.severe, severe_runs) {
                Some(ThreatTier::Severe.word())
            } else {
                None
            }),
        ) + line_if(
            (if is_mute(levels.watch, watch_runs) {
                Some(ThreatTier::Watch.word())
            } else {
                None
            }),
        ),
        texts(r@).contains("LETHAL"@) <==> levels.lethal is Silent && !lethal_runs,
        texts(r@).contains("SEVERE"@) <==> levels.severe is Silent && !severe_runs,
        texts(r@).contains("WATCH"@) <==> levels.watch is Silent && !watch_runs,
        r@.len() <= 3,
{
    proof {
        law_tiers_are_graded(ThreatTier::Lethal, ThreatTier::Severe);
        law_tiers_are_graded(ThreatTier::Severe, ThreatTier::Watch);
        law_tiers_are_graded(ThreatTier::Watch, ThreatTier::Lethal);
    }
    let mut out: Vec<String> = Vec::new();
    if levels.lethal == Urgency::Silent && !lethal_runs {
        out.push(ThreatTier::Lethal.label().to_owned());
    }
    if levels.severe == Urgency::Silent && !severe_runs {
        out.push(ThreatTier::Severe.label().to_owned());
    }
    if levels.watch == Urgency::Silent && !watch_runs {
        out.push(ThreatTier::Watch.label().to_owned());
    }
    assert(texts(out@) =~= line_if(
        (if is_mute(levels.lethal, lethal_runs) {
            Some(ThreatTier::Lethal.word())
        } else {
            None
        }),
    ) + line_if(
        (if is_mute(levels.severe, severe_runs) {
            Some(ThreatTier::Severe.word())
        } else {
            None
        }),
    ) + line_if(
        (if is_mute(levels.watch, watch_runs) {
            Some(ThreatTier::Watch.word())
        } else {
            None
        }),
    ));
    proof {
        let said = texts(out@);
        let first: int = if is_mute(levels.lethal, lethal_runs) {
            1
        } else {
            0
        };
        let second: int = first + if is_mute(levels.severe, severe_runs) {
            1int
        } else {
            0
        };
        if is_mute(levels.lethal, lethal_runs) {
            assert(said[0] == "LETHAL"@);
        }
        if is_mute(levels.severe, severe_runs) {
            assert(said[first] == "SEVERE"@);
        }
        if is_mute(levels.watch, watch_runs) {
            assert(said[second] == "WATCH"@);
        }
    }
    out
}

/// What is said when the feed has been silent for `elapsed` seconds.
pub open spec fn stale_notice(elapsed: u64) -> Notice {
    Notice {
        key: "weatui.feed.stale"@,
        tier: ThreatTier::Lethal,
        event: "ALERT FEED STALE"@,
        headline: Some(
            "No successful poll of api.weather.gov for "@ + decimal((elapsed / 60) as nat)
                + " min."@,
        ),
        area: None,
        instruction: Some("You are NOT being warned about severe weather right now."@),
        damage_threat: None,
        tornado_detection: None,
    }
}

/// A dead poller cannot be told from calm weather, so it is announced as the gravest thing
/// there is.
pub fn stale_notification(elapsed_secs: u64) -> (r: Notification)
    ensures
        r@ == stale_notice(elapsed_secs),
{
    let minutes = number(elapsed_secs / 60);
    let mut headline = "No successful poll of api.weather.gov for ".to_owned();
    headline.append(minutes.as_str());
    headline.append(" min.");
    Notification {
        key: "weatui.feed.stale".to_owned(),
        tier: ThreatTier::Lethal,
        event: "ALERT FEED STALE".to_owned(),
        headline: Some(headline),
        area: None,
        instruction: Some("You are NOT being warned about severe weather right now.".to_owned()),
        damage_threat: None,
        tornado_detection: None,
    }
}

/// What has to be run to say that the feed is stale: the desktop daemon at the critical
/// urgency, whatever the levels say, and the script of the lethal tier.
pub fn send_stale_warning(elapsed_secs: u64, scripts: &Scripts) -> (r: Delivery)
    ensures
        opt_texts(r.desktop) == Some(
            command_line(
                "[weatui] ALERT FEED STALE"@,
                body_text(stale_notice(elapsed_secs), None),
                Urgency::Critical,
            ),
        ),
        runs_script(r.script, scripts.of(ThreatTier::Lethal), stale_notice(elapsed_secs), None),
{
    let n = stale_notification(elapsed_secs);
    let body = body_for(&n, None);
    let desktop = build_args("[weatui] ALERT FEED STALE", body.as_str(), Urgency::Critical);
    let script = match scripts.for_tier(ThreatTier::Lethal) {
        Some(path) => Some(script_run(path, &n, None)),
        None => None,
    };
    Delivery { desktop: Some(desktop), script }
}

/// What is said when polls succeed again after a gap of `gap` seconds.
pub open spec fn gap_notice(gap: u64) -> Notice {
    Notice {
        key: "weatui.feed.recovered"@,
        tier: ThreatTier::Lethal,
        event: "ALERT FEED RECOVERED"@,
        headline: Some(
            "No poll of api.weather.gov succeeded for "@ + decimal((gap / 60) as nat) + " min."@,
        ),
        area: None,
        instruction: Some(
            "A warning that was issued and expired in that time was not delivered."@,
        ),
        damage_threat: None,
        tornado_detection: None,
    }
}

/// The end of a gap is told of: what came and went within it cannot be made up for.
pub fn gap_notification(gap_secs: u64) -> (r: Notification)
    ensures
        r@ == gap_notice(gap_secs),
{
    let minutes = number(gap_secs / 60);
    let mut headline = "No poll of api.weather.gov succeeded for ".to_owned();
    headline.append(minutes.as_str());
    headline.append(" min.");
    Notification {
        key: "weatui.feed.recovered".to_owned(),
        tier: ThreatTier::Lethal,
        event: "ALERT FEED RECOVERED".to_owned(),
        headline: Some(headline),
        area: None,
        instruction: Some(
            "A warning that was issued and expired in that time was not delivered.".to_owned(),
        ),
        damage_threat: None,
        tornado_detection: None,
    }
}

/// What has to be run to say that polls succeed again after a gap: the desktop daemon unless
/// the lethal tier is silenced, and that tier's script.
pub fn send_gap_recovery(gap_secs: u64, levels: &NotifyLevels, scripts: &Scripts) -> (r: Delivery)
    ensures
        opt_texts(r.desktop) == desktop_line(gap_notice(gap_secs), *levels, None),
        runs_script(r.script, scripts.of(ThreatTier::Lethal), gap_notice(gap_secs), None),
{
    let n = gap_notification(gap_secs);
    dispatch(&n, levels, scripts, None)
}

/// Whether a text is the value of a variable.
pub open spec fn tells(env: Seq<(Seq<char>, Seq<char>)>, value: Seq<char>) -> bool {
    exists|i: int| 0 <= i < env.len() && (#[trigger] env[i]).1 == value
}

/// Everything that the body of a notification tells is in the environment of a script, each
/// as the value of a variable.
pub proof fn law_environment_tells_what_the_body_does(n: Notice, eta: Option<i64>)
    ensures
        tells(environment(n, eta), n.tier.word()),
        tells(environment(n, eta), n.event),
        n.headline matches Some(s) ==> tells(environment(n, eta), s),
        n.area matches Some(s) ==> tells(environment(n, eta), s),
        eta matches Some(m) ==> tells(environment(n, eta), signed_decimal(m as int)),
        n.damage_threat matches Some(s) ==> tells(environment(n, eta), s),
        n.tornado_detection matches Some(s) ==> tells(environment(n, eta), s),
        n.instruction matches Some(s) ==> tells(environment(n, eta), s),
{
    let env = environment(n, eta);
    assert(env[0].1 == n.tier.word());
    assert(env[1].1 == n.event);
    assert(env[2].1 == text_or_empty(n.headline));
    assert(env[3].1 == text_or_empty(n.area));
    if let Some(m) = eta {
        assert(env[4].1 == signed_decimal(m as int));
    }
    assert(env[5].1 == text_or_empty(n.damage_threat));
    assert(env[6].1 == text_or_empty(n.tornado_detection));
    assert(env[7].1 == text_or_empty(n.instruction));
}

/// Whether an optional text is ASCII where it is there.
pub open spec fn opt_ascii(o: Option<Seq<char>>) -> bool {
    o matches Some(s) ==> is_ascii_chars(s)
}

/// Whether everything that a notification quotes is ASCII.
pub open spec fn quotes_ascii(n: Notice) -> bool {
    is_ascii_chars(n.event) && opt_ascii(n.headline) && opt_ascii(n.area) && opt_ascii(
        n.instruction,
    ) && opt_ascii(n.damage_threat) && opt_ascii(n.tornado_detection)
}

proof fn lemma_join_ascii(parts: Seq<Seq<char>>, sep: Seq<char>)
    requires
        is_ascii_chars(sep),
        forall|i: int| 0 <= i < parts.len() ==> is_ascii_chars(#[trigger] parts[i]),
    ensures
        is_ascii_chars(join(parts, sep)),
    decreases parts.len(),
{
    if parts.len() > 1 {
        assert forall|i: int| 0 <= i < parts.len() - 1 implies is_ascii_chars(
            #[trigger] parts.drop_last()[i],
        ) by {
            assert(parts.drop_last()[i] == parts[i]);
        }
        lemma_join_ascii(parts.drop_last(), sep);
        assert(is_ascii_chars(parts[parts.len() - 1]));
    }
}

proof fn lemma_decimal_ascii(n: nat)
    ensures
        is_ascii_chars(decimal(n)),
    decreases n,
{
    if n >= 10 {
        lemma_decimal_ascii(n / 10);
    }
}

proof fn lemma_body_is_ascii(n: Notice, eta: Option<i64>)
    requires
        quotes_ascii(n),
        n.tornado_detection matches Some(d) ==> lowercase_of(d) == ascii_lower(d),
    ensures
        is_ascii_chars(body_text(n, eta)),
{
    reveal_strlit("\n");
    reveal_strlit("TORNADO EMERGENCY");
    reveal_strlit("PARTICULARLY DANGEROUS SITUATION");
    reveal_strlit("Damage threat: ");
    reveal_strlit("Tornado ");
    reveal_strlit("Estimated arrival in ");
    reveal_strlit(" min");
    if let Some(m) = eta {
        lemma_decimal_ascii(
            if m < 0 {
                (-m) as nat
            } else {
                m as nat
            },
        );
        assert(is_ascii_chars(signed_decimal(m as int)));
        assert(is_ascii_chars("Estimated arrival in "@ + signed_decimal(m as int) + " min"@));
    }
    if let Some(t) = n.damage_threat {
        assert(is_ascii_chars(ascii_upper(t)));
        assert(is_ascii_chars(banner_text(t)));
    }
    if let Some(d) = n.tornado_detection {
        assert(is_ascii_chars(ascii_lower(d)));
        assert(is_ascii_chars("Tornado "@ + lowercase_of(d)));
    }
    let lines = body_lines(n, eta);
    assert forall|i: int| 0 <= i < lines.len() implies is_ascii_chars(#[trigger] lines[i]) by {}
    lemma_join_ascii(lines, "\n"@);
}

/// The gravest products never read like a routine warning: a body with a damage threat
/// begins with the banner of that threat.
pub proof fn law_damage_threat_leads_the_body(n: Notice, eta: Option<i64>)
    requires
        n.damage_threat is Some,
    ensures
        body_lines(n, eta).len() > 0,
        body_lines(n, eta)[0] == banner_text(n.damage_threat->0),
{
}

/// How many lines something that may be missing takes.
pub open spec fn lines_for(o: bool) -> int {
    if o {
        1
    } else {
        0
    }
}

/// A body has a line for each thing that is known, in this order and with no other: the damage
/// threat, the detection, the headline, the area, the arrival, what to do. One with nothing else
/// to say names the event.
pub proof fn law_body_tells_everything_in_order(n: Notice, eta: Option<i64>)
    ensures
        ({
            let lines = body_lines(n, eta);
            let detection = lines_for(n.damage_threat is Some);
            let headline = detection + lines_for(n.tornado_detection is Some);
            let area = headline + lines_for(n.headline is Some);
            let arrival = area + lines_for(n.area is Some);
            let instruction = arrival + lines_for(eta is Some);
            let all = instruction + lines_for(n.instruction is Some);
            &&& lines.len() == if all > 0 {
                all
            } else {
                1
            }
            &&& all == 0 ==> lines[0] == n.event
            &&& n.tornado_detection matches Some(s) ==> lines[detection] == "Tornado "@
                + lowercase_of(s)
            &&& n.headline matches Some(s) ==> lines[headline] == s
            &&& n.area matches Some(s) ==> lines[area] == s
            &&& eta matches Some(m) ==> lines[arrival] == "Estimated arrival in "@ + signed_decimal(
                m as int,
            ) + " min"@
            &&& n.instruction matches Some(s) ==> lines[instruction] == s
        }),
{
}

/// The command line says how urgent it is first and ends with the summary and the body; it asks
/// for a sound exactly where it is critical.
pub proof fn law_command_line_ends_with_what_is_said(
    summary: Seq<char>,
    body: Seq<char>,
    urgency: Urgency,
)
    ensures
        ({
            let line = command_line(summary, body, urgency);
            &&& line.len() == if urgency is Critical {
                8int
            } else {
                6
            }
            &&& line[0] == "-u"@
            &&& line[1] == urgency.word()
            &&& line[2] == "-a"@
            &&& line[3] == "weatui"@
            &&& urgency is Critical ==> line[4] == "-h"@ && line[5]
                == "string:sound-name:alarm-clock-elapsed"@
            &&& line[line.len() - 2] == summary
            &&& line.last() == body
        }),
{
}

/// A tier is announced at its own level: the one set for another tier plays no part, and a silent
/// one is not announced at all.
pub proof fn law_each_tier_has_its_own_level(n: Notice, a: NotifyLevels, b: NotifyLevels, eta: Option<i64>)
    ensures
        n.tier is Lethal && a.lethal == b.lethal ==> desktop_line(n, a, eta) == desktop_line(
            n,
            b,
            eta,
        ),
        n.tier is Severe && a.severe == b.severe ==> desktop_line(n, a, eta) == desktop_line(
            n,
            b,
            eta,
        ),
        n.tier is Watch && a.watch == b.watch ==> desktop_line(n, a, eta) == desktop_line(n, b, eta),
        n.tier is Lethal ==> (desktop_line(n, a, eta) is None <==> a.lethal is Silent),
        n.tier is Severe ==> (desktop_line(n, a, eta) is None <==> a.severe is Silent),
        n.tier is Watch ==> (desktop_line(n, a, eta) is None <==> a.watch is Silent),
        desktop_line(n, a, eta) matches Some(line) ==> line[line.len() - 2] == "["@ + n.tier.word()
            + "] "@ + n.event && line.last() == body_text(n, eta),
{
}

/// How long the feed was silent is told in whole minutes, at the gravest tier, and what it means
/// is told with it.
pub proof fn law_silence_is_told_in_minutes(minutes: u32, seconds: u64)
    requires
        seconds < 60,
    ensures
        ({
            let gap = (60 * minutes as u64 + seconds) as u64;
            let stale = stale_notice(gap);
            let back = gap_notice(gap);
            &&& stale.tier is Lethal && back.tier is Lethal
            &&& stale.event == "ALERT FEED STALE"@
            &&& back.event == "ALERT FEED RECOVERED"@
            &&& stale.headline == Some(
                "No successful poll of api.weather.gov for "@ + decimal(minutes as nat) + " min."@,
            )
            &&& back.headline == Some(
                "No poll of api.weather.gov succeeded for "@ + decimal(minutes as nat) + " min."@,
            )
            &&& stale.instruction == Some(
                "You are NOT being warned about severe weather right now."@,
            )
            &&& back.instruction == Some(
                "A warning that was issued and expired in that time was not delivered."@,
            )
        }),
{
    let gap = (60 * minutes as u64 + seconds) as u64;
    assert(gap / 60 == minutes);
}

} // verus!
