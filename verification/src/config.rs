//! Settings, their defaults, and what makes a configuration unusable.
//!
//! Real numbers are held as IEEE-754 bit patterns: a degree is the pattern of a
//! double, a temperature the pattern of a single.

use vstd::prelude::*;
#[allow(unused_imports)]
use vstd::string::StringExecFns;
use crate::alert::filter::ThreatTier;
#[allow(unused_imports)]
use crate::text::{self, copied, opt_text, owned, texts};

verus! {

/// What the configuration file says.
#[derive(Debug, Clone)]
pub struct Config {
    pub location: Location,
    pub alerts: Alerts,
    pub radar: Radar,
    pub render: Render,
}

/// The watched place. `lat` and `lon` are bit patterns of doubles, in degrees.
#[derive(Debug, Clone)]
pub struct Location {
    pub zip: Option<String>,
    pub lat: Option<u64>,
    pub lon: Option<u64>,
}

impl Location {
    /// Both coordinates, where both are given.
    pub open spec fn coords(self) -> Option<(u64, u64)> {
        match (self.lat, self.lon) {
            (Some(lat), Some(lon)) => Some((lat, lon)),
            _ => None,
        }
    }

    /// Explicit coordinates win over a ZIP code.
    pub fn explicit_coords(&self) -> (r: Option<(u64, u64)>)
        ensures
            r == self.coords(),
    {
        match (self.lat, self.lon) {
            (Some(lat), Some(lon)) => Some((lat, lon)),
            _ => None,
        }
    }
}

/// The `[alerts]` section.
#[derive(Debug, Clone)]
pub struct Alerts {
    pub poll_interval_secs: u64,
    /// Products with no P-VTEC that are accepted all the same.
    pub extra_events: Vec<String>,
    pub tiers: Tiers,
    pub notify: NotifyLevels,
    pub scripts: Scripts,
    /// How long the feed may be silent before that itself is reported.
    pub stale_after_secs: u64,
}

/// Which products belong to which tier. An entry is a P-VTEC `PH.S` code or a
/// literal event name.
#[derive(Debug, Clone)]
pub struct Tiers {
    pub lethal: Vec<String>,
    pub severe: Vec<String>,
    pub watch: Vec<String>,
}

/// Desktop notification urgency. `Silent` keeps the desktop daemon out of it.
#[derive(Debug, Clone, Copy, PartialEq, Eq, Structural)]
pub enum Urgency {
    Silent,
    Low,
    Normal,
    Critical,
}

impl Urgency {
    /// The word for this urgency.
    pub open spec fn word(self) -> Seq<char> {
        match self {
            Urgency::Silent => "none"@,
            Urgency::Low => "low"@,
            Urgency::Normal => "normal"@,
            Urgency::Critical => "critical"@,
        }
    }

    /// The argument that `notify-send -u` takes.
    pub fn as_notify_send_arg(self) -> (r: &'static str)
        ensures
            r@ == self.word(),
            self is Silent ==> r@ == "none"@,
            self is Low ==> r@ == "low"@,
            self is Normal ==> r@ == "normal"@,
            self is Critical ==> r@ == "critical"@,
    {
        match self {
            Urgency::Silent => "none",
            Urgency::Low => "low",
            Urgency::Normal => "normal",
            Urgency::Critical => "critical",
        }
    }
}

/// The urgency of each tier.
#[derive(Debug, Clone, Copy, PartialEq, Eq, Structural)]
pub struct NotifyLevels {
    pub lethal: Urgency,
    pub severe: Urgency,
    pub watch: Urgency,
}

impl NotifyLevels {
    /// Whether any tier reaches the desktop daemon at all.
    pub fn uses_desktop_daemon(&self) -> (r: bool)
        ensures
            r == !(self.lethal is Silent && self.severe is Silent && self.watch is Silent),
    {
        self.lethal != Urgency::Silent || self.severe != Urgency::Silent || self.watch
            != Urgency::Silent
    }
}

/// Executables to run when an alert of a tier fires.
#[derive(Debug, Clone)]
pub struct Scripts {
    pub lethal: Option<String>,
    pub severe: Option<String>,
    pub watch: Option<String>,
}

impl Scripts {
    /// The script of a tier.
    pub open spec fn of(self, tier: ThreatTier) -> Option<Seq<char>> {
        match tier {
            ThreatTier::Lethal => opt_text(self.lethal),
            ThreatTier::Severe => opt_text(self.severe),
            ThreatTier::Watch => opt_text(self.watch),
        }
    }

    /// The script configured for `tier`.
    pub fn for_tier(&self, tier: ThreatTier) -> (r: Option<&String>)
        ensures
            r is Some <==> self.of(tier) is Some,
            r matches Some(s) ==> self.of(tier) == Some(s@),
            tier is Lethal ==> r == (match self.lethal {
                Some(s) => Some(&s),
                None => None,
            }),
            tier is Severe ==> r == (match self.severe {
                Some(s) => Some(&s),
                None => None,
            }),
            tier is Watch ==> r == (match self.watch {
                Some(s) => Some(&s),
                None => None,
            }),
    {
        match tier {
            ThreatTier::Lethal => self.lethal.as_ref(),
            ThreatTier::Severe => self.severe.as_ref(),
            ThreatTier::Watch => self.watch.as_ref(),
        }
    }
}

impl Default for Scripts {
    fn default() -> (r: Scripts)
        ensures
            r.lethal is None,
            r.severe is None,
            r.watch is None,
    {
        Scripts { lethal: None, severe: None, watch: None }
    }
}

/// The `[radar]` section.
#[derive(Debug, Clone)]
pub struct Radar {
    /// `"auto"` selects the nearest site, otherwise a site id.
    pub site: String,
    pub frames: usize,
    pub refresh_secs: u64,
}

/// The reflectivity palette.
#[derive(Debug, Clone, Copy, PartialEq, Eq, Structural)]
pub enum Colormap {
    Threat,
    Nws,
    Mono,
}

/// The `[render]` section. The two temperatures are bit patterns of singles, in
/// degrees Fahrenheit.
#[derive(Debug, Clone, Copy, PartialEq, Eq, Structural)]
pub struct Render {
    pub colormap: Colormap,
    pub cold_below_f: u32,
    pub hot_above_f: u32,
}

/// The bit pattern of 32 degrees.
pub const FREEZING_F: u32 = 0x4200_0000;

/// The bit pattern of 95 degrees.
pub const SWELTERING_F: u32 = 0x42BE_0000;

/// Seconds between polls unless set.
pub fn default_poll_interval() -> (r: u64)
    ensures
        r == 5,
{
    5
}

/// Seconds of silence before the feed counts as stale unless set.
pub fn default_stale_after() -> (r: u64)
    ensures
        r == 300,
{
    300
}

/// The products accepted by name unless set.
pub open spec fn extra_names() -> Seq<Seq<char>> {
    seq!["Special Weather Statement"@]
}

pub fn default_extra_events() -> (r: Vec<String>)
    ensures
        texts(r@) == extra_names(),
{
    let r = owned(["Special Weather Statement"].as_slice());
    assert(texts(r@) =~= extra_names());
    r
}

/// The lethal products unless set.
pub open spec fn lethal_names() -> Seq<Seq<char>> {
    seq!["TO.W"@, "EW.W"@, "FF.W"@, "TS.W"@, "SS.W"@, "HU.W"@, "Evacuation Immediate"@]
}

pub fn default_lethal() -> (r: Vec<String>)
    ensures
        texts(r@) == lethal_names(),
{
    let r = owned(
        ["TO.W", "EW.W", "FF.W", "TS.W", "SS.W", "HU.W", "Evacuation Immediate"].as_slice(),
    );
    assert(texts(r@) =~= lethal_names());
    r
}

/// The severe products unless set.
pub open spec fn severe_names() -> Seq<Seq<char>> {
    seq![
        "SV.W"@,
        "SQ.W"@,
        "DS.W"@,
        "XH.W"@,
        "EH.W"@,
        "EC.W"@,
        "WC.W"@,
        "FL.W"@,
        "FA.W"@,
    ]
}

pub fn default_severe() -> (r: Vec<String>)
    ensures
        texts(r@) == severe_names(),
{
    let r = owned(
        ["SV.W", "SQ.W", "DS.W", "XH.W", "EH.W", "EC.W", "WC.W", "FL.W", "FA.W"].as_slice(),
    );
    assert(texts(r@) =~= severe_names());
    r
}

/// The watched products unless set.
pub open spec fn watch_names() -> Seq<Seq<char>> {
    seq!["TO.A"@, "SV.A"@, "XH.A"@, "EC.A"@, "WC.A"@]
}

pub fn default_watch() -> (r: Vec<String>)
    ensures
        texts(r@) == watch_names(),
{
    let r = owned(["TO.A", "SV.A", "XH.A", "EC.A", "WC.A"].as_slice());
    assert(texts(r@) =~= watch_names());
    r
}

pub fn default_critical() -> (r: Urgency)
    ensures
        r is Critical,
{
    Urgency::Critical
}

pub fn default_normal() -> (r: Urgency)
    ensures
        r is Normal,
{
    Urgency::Normal
}

pub fn default_site() -> (r: String)
    ensures
        r@ == "auto"@,
{
    "auto".to_owned()
}

pub fn default_frames() -> (r: usize)
    ensures
        r == 12,
{
    12
}

pub fn default_refresh() -> (r: u64)
    ensures
        r == 60,
{
    60
}

pub fn default_colormap() -> (r: Colormap)
    ensures
        r is Threat,
{
    Colormap::Threat
}

impl Default for Tiers {
    fn default() -> (r: Tiers)
        ensures
            texts(r.lethal@) == lethal_names(),
            texts(r.severe@) == severe_names(),
            texts(r.watch@) == watch_names(),
    {
        Tiers { lethal: default_lethal(), severe: default_severe(), watch: default_watch() }
    }
}

impl Default for NotifyLevels {
    fn default() -> (r: NotifyLevels)
        ensures
            r.lethal is Critical,
            r.severe is Critical,
            r.watch is Normal,
    {
        NotifyLevels {
            lethal: default_critical(),
            severe: default_critical(),
            watch: default_normal(),
        }
    }
}

impl Default for Alerts {
    fn default() -> (r: Alerts)
        ensures
            r.poll_interval_secs == 5,
            texts(r.extra_events@) == extra_names(),
            texts(r.tiers.lethal@) == lethal_names(),
            texts(r.tiers.severe@) == severe_names(),
            texts(r.tiers.watch@) == watch_names(),
            r.notify.lethal is Critical,
            r.notify.severe is Critical,
            r.notify.watch is Normal,
            forall|t: ThreatTier| r.scripts.of(t) is None,
            r.stale_after_secs == 300,
    {
        Alerts {
            poll_interval_secs: default_poll_interval(),
            extra_events: default_extra_events(),
            tiers: Tiers::default(),
            notify: NotifyLevels::default(),
            scripts: Scripts::default(),
            stale_after_secs: default_stale_after(),
        }
    }
}

impl Default for Radar {
    fn default() -> (r: Radar)
        ensures
            r.site@ == "auto"@,
            r.frames == 12,
            r.refresh_secs == 60,
    {
        Radar { site: default_site(), frames: default_frames(), refresh_secs: default_refresh() }
    }
}

impl Default for Render {
    fn default() -> (r: Render)
        ensures
            r.colormap is Threat,
            r.cold_below_f == FREEZING_F,
            r.hot_above_f == SWELTERING_F,
            r.cold_below_f == 0x4200_0000,
            r.hot_above_f == 0x42BE_0000,
    {
        Render {
            colormap: default_colormap(),
            cold_below_f: FREEZING_F,
            hot_above_f: SWELTERING_F,
        }
    }
}

impl Tiers {
    /// The lethal entries.
    pub fn lethal_codes(&self) -> (r: Vec<String>)
        ensures
            r@ == self.lethal@,
    {
        copied(&self.lethal)
    }

    /// The severe entries.
    pub fn severe_codes(&self) -> (r: Vec<String>)
        ensures
            r@ == self.severe@,
    {
        copied(&self.severe)
    }

    /// The watch entries.
    pub fn watch_codes(&self) -> (r: Vec<String>)
        ensures
            r@ == self.watch@,
    {
        copied(&self.watch)
    }
}

/// Why a configuration cannot be used.
#[derive(Debug, Clone, Copy, PartialEq, Eq, Structural)]
pub enum ConfigError {
    /// Neither a ZIP code nor both coordinates.
    NoLocation,
    /// One coordinate without the other.
    HalfCoordinates,
    /// A poll interval of zero.
    ZeroPollInterval,
    /// No radar frames to keep.
    ZeroFrames,
    /// A tier's script whose path is not absolute.
    RelativeScript(ThreatTier),
}

impl ConfigError {
    /// The text shown for this error, for the file at `path`.
    pub open spec fn text(self, path: Seq<char>) -> Seq<char> {
        match self {
            ConfigError::NoLocation => path
                + ": [location] must set either `zip` or both `lat` and `lon`\n\n[location]\nzip = \"73019\"\n\nor\n\n[location]\nlat = 35.2226\nlon = -97.4395"@,
            ConfigError::HalfCoordinates => path
                + ": [location] has only one of `lat`/`lon`; set both or use `zip`"@,
            ConfigError::ZeroPollInterval => path
                + ": alerts.poll_interval_secs must be greater than zero"@,
            ConfigError::ZeroFrames => path + ": radar.frames must be greater than zero"@,
            ConfigError::RelativeScript(ThreatTier::Lethal) => path
                + ": alerts.scripts.lethal must be an absolute path"@,
            ConfigError::RelativeScript(ThreatTier::Severe) => path
                + ": alerts.scripts.severe must be an absolute path"@,
            ConfigError::RelativeScript(ThreatTier::Watch) => path
                + ": alerts.scripts.watch must be an absolute path"@,
        }
    }

    /// Names the file and what is wrong with it.
    pub fn message(&self, path: &str) -> (r: String)
        ensures
            r@ == self.text(path@),
    {
        let mut out = path.to_owned();
        match self {
            ConfigError::NoLocation => out.append(
                ": [location] must set either `zip` or both `lat` and `lon`\n\n[location]\nzip = \"73019\"\n\nor\n\n[location]\nlat = 35.2226\nlon = -97.4395",
            ),
            ConfigError::HalfCoordinates => out.append(
                ": [location] has only one of `lat`/`lon`; set both or use `zip`",
            ),
            ConfigError::ZeroPollInterval => out.append(
                ": alerts.poll_interval_secs must be greater than zero",
            ),
            ConfigError::ZeroFrames => out.append(": radar.frames must be greater than zero"),
            ConfigError::RelativeScript(ThreatTier::Lethal) => out.append(
                ": alerts.scripts.lethal must be an absolute path",
            ),
            ConfigError::RelativeScript(ThreatTier::Severe) => out.append(
                ": alerts.scripts.severe must be an absolute path",
            ),
            ConfigError::RelativeScript(ThreatTier::Watch) => out.append(
                ": alerts.scripts.watch must be an absolute path",
            ),
        }
        out
    }
}

/// Whether a path begins at the root.
pub open spec fn is_absolute(path: Seq<char>) -> bool {
    path.len() > 0 && path[0] == '/'
}

/// Whether a tier has a script and its path is not absolute.
pub open spec fn relative_script(scripts: Scripts, tier: ThreatTier) -> bool {
    scripts.of(tier) matches Some(p) && !is_absolute(p)
}

fn has_relative_script(scripts: &Scripts, tier: ThreatTier) -> (r: bool)
    ensures
        r == relative_script(*scripts, tier),
{
    match scripts.for_tier(tier) {
        Some(p) => {
            let cs = text::chars_of(p.as_str());
            cs.len() == 0 || cs[0] != '/'
        },
        None => false,
    }
}

impl Config {
    /// The first thing wrong with a configuration, if anything is.
    pub open spec fn fault(self) -> Option<ConfigError> {
        if self.location.coords() is None && self.location.zip is None {
            Some(ConfigError::NoLocation)
        } else if self.location.coords() is None && (self.location.lat is Some
            || self.location.lon is Some) {
            Some(ConfigError::HalfCoordinates)
        } else if self.alerts.poll_interval_secs == 0 {
            Some(ConfigError::ZeroPollInterval)
        } else if self.radar.frames == 0 {
            Some(ConfigError::ZeroFrames)
        } else if relative_script(self.alerts.scripts, ThreatTier::Lethal) {
            Some(ConfigError::RelativeScript(ThreatTier::Lethal))
        } else if relative_script(self.alerts.scripts, ThreatTier::Severe) {
            Some(ConfigError::RelativeScript(ThreatTier::Severe))
        } else if relative_script(self.alerts.scripts, ThreatTier::Watch) {
            Some(ConfigError::RelativeScript(ThreatTier::Watch))
        } else {
            None
        }
    }

    /// Accepts a configuration exactly when nothing is wrong with it.
    pub fn validate(&self) -> (r: Result<(), ConfigError>)
        ensures
            r is Ok <==> self.fault() is None,
            r matches Err(e) ==> self.fault() == Some(e),
    {
        let coords = self.location.explicit_coords();
        if coords.is_none() && self.location.zip.is_none() {
            return Err(ConfigError::NoLocation);
        }
        if coords.is_none() && (self.location.lat.is_some() || self.location.lon.is_some()) {
            return Err(ConfigError::HalfCoordinates);
        }
        if self.alerts.poll_interval_secs == 0 {
            return Err(ConfigError::ZeroPollInterval);
        }
        if self.radar.frames == 0 {
            return Err(ConfigError::ZeroFrames);
        }
        if has_relative_script(&self.alerts.scripts, ThreatTier::Lethal) {
            return Err(ConfigError::RelativeScript(ThreatTier::Lethal));
        }
        if has_relative_script(&self.alerts.scripts, ThreatTier::Severe) {
            return Err(ConfigError::RelativeScript(ThreatTier::Severe));
        }
        if has_relative_script(&self.alerts.scripts, ThreatTier::Watch) {
            return Err(ConfigError::RelativeScript(ThreatTier::Watch));
        }
        Ok(())
    }
}

/// `base` and `name` as one path: a separator goes between them unless `base` is empty
/// or already ends in one.
pub open spec fn path_join(base: Seq<char>, name: Seq<char>) -> Seq<char> {
    if base.len() == 0 || base.last() == '/' {
        base + name
    } else {
        base + "/"@ + name
    }
}

pub fn path_joined(base: &str, name: &str) -> (r: String)
    ensures
        r@ == path_join(base@, name@),
{
    let cs = text::chars_of(base);
    let mut out = base.to_owned();
    if !(cs.len() == 0 || cs[cs.len() - 1] == '/') {
        out.append("/");
    }
    out.append(name);
    out
}

/// The directory of the configuration and of cached files: under
/// `XDG_CONFIG_HOME` where that is set and not empty, else under `HOME`'s `.config`.
pub open spec fn settings_dir(xdg: Option<Seq<char>>, home: Option<Seq<char>>) -> Option<
    Seq<char>,
> {
    match xdg {
        Some(x) if x.len() > 0 => Some(path_join(x, "weatui"@)),
        _ => match home {
            Some(h) => Some(path_join(path_join(h, ".config"@), "weatui"@)),
            None => None,
        },
    }
}

/// Where cached files go, given the values of `XDG_CONFIG_HOME` and `HOME`; `None` when
/// neither is set.
pub fn cache_dir(xdg: Option<&str>, home: Option<&str>) -> (r: Option<String>)
    ensures
        opt_text(r) == settings_dir(
            (match xdg { Some(x) => Some(x@), None => None }),
            (match home { Some(h) => Some(h@), None => None }),
        ),
{
    if let Some(x) = xdg {
        if !x.is_empty() {
            return Some(path_joined(x, "weatui"));
        }
    }
    match home {
        Some(h) => {
            let base = path_joined(h, ".config");
            Some(path_joined(base.as_str(), "weatui"))
        },
        None => None,
    }
}

/// Where the configuration file is; `None` when neither variable is set.
pub fn config_path(xdg: Option<&str>, home: Option<&str>) -> (r: Option<String>)
    ensures
        opt_text(r) == match settings_dir(
            (match xdg { Some(x) => Some(x@), None => None }),
            (match home { Some(h) => Some(h@), None => None }),
        ) {
            Some(d) => Some(path_join(d, "config.toml"@)),
            None => None,
        },
{
    match cache_dir(xdg, home) {
        Some(d) => Some(path_joined(d.as_str(), "config.toml")),
        None => None,
    }
}

/// A configuration can be used exactly where it gives a place, by both coordinates or by a ZIP
/// code and neither, and something to wait, frames to keep, and no script whose path is not
/// absolute.
pub proof fn law_usable_configurations(c: Config)
    ensures
        c.fault() is None <==> {
            &&& (c.location.lat is Some && c.location.lon is Some) || (c.location.lat is None
                && c.location.lon is None && c.location.zip is Some)
            &&& c.alerts.poll_interval_secs > 0
            &&& c.radar.frames > 0
            &&& c.alerts.scripts.lethal matches Some(p) ==> p@.len() > 0 && p@[0] == '/'
            &&& c.alerts.scripts.severe matches Some(p) ==> p@.len() > 0 && p@[0] == '/'
            &&& c.alerts.scripts.watch matches Some(p) ==> p@.len() > 0 && p@[0] == '/'
        },
        c.fault() == Some(ConfigError::NoLocation) <==> (c.location.lat is None || c.location.lon
            is None) && c.location.zip is None,
        c.fault() == Some(ConfigError::HalfCoordinates) <==> (c.location.lat is Some)
            != (c.location.lon is Some) && c.location.zip is Some,
        c.fault() == Some(ConfigError::ZeroPollInterval) ==> c.alerts.poll_interval_secs == 0,
        c.fault() == Some(ConfigError::ZeroFrames) ==> c.radar.frames == 0,
        c.fault() matches Some(ConfigError::RelativeScript(t)) ==> (match t {
            ThreatTier::Lethal => c.alerts.scripts.lethal,
            ThreatTier::Severe => c.alerts.scripts.severe,
            ThreatTier::Watch => c.alerts.scripts.watch,
        }) matches Some(p) && (p@.len() == 0 || p@[0] != '/'),
{
}

/// A given pair of coordinates is taken as it is, latitude first.
pub proof fn law_coordinates_come_as_given(l: Location)
    ensures
        l.coords() is Some <==> l.lat is Some && l.lon is Some,
        l.coords() matches Some(c) ==> l.lat == Some(c.0) && l.lon == Some(c.1),
{
}

/// Settings lie in their own directory under `XDG_CONFIG_HOME`, whatever `HOME` is; where that is
/// missing or empty, under `.config` at home.
pub proof fn law_settings_lie_under_xdg_first(
    xdg: Seq<char>,
    home: Seq<char>,
    other: Option<Seq<char>>,
)
    requires
        xdg.len() > 0 && xdg.last() != '/',
        home.len() > 0 && home.last() != '/',
    ensures
        settings_dir(Some(xdg), other) == Some(xdg + "/weatui"@),
        settings_dir(None, Some(home)) == Some(home + "/.config/weatui"@),
        settings_dir(Some(Seq::empty()), Some(home)) == Some(home + "/.config/weatui"@),
        settings_dir(None, None) is None,
{
    reveal_strlit("/");
    reveal_strlit("weatui");
    reveal_strlit(".config");
    reveal_strlit("/weatui");
    reveal_strlit("/.config/weatui");
    assert(path_join(xdg, "weatui"@) =~= xdg + "/weatui"@);
    let under = path_join(home, ".config"@);
    assert(under.last() == 'g');
    assert(path_join(under, "weatui"@) =~= home + "/.config/weatui"@);
}

/// What is said of a configuration names its file first.
pub proof fn law_errors_name_the_file(e: ConfigError, path: Seq<char>)
    ensures
        text::occurs_at(e.text(path), path, 0),
        e.text(path).len() > path.len(),
        e is ZeroPollInterval ==> e.text(path) == path
            + ": alerts.poll_interval_secs must be greater than zero"@,
        e is ZeroFrames ==> e.text(path) == path + ": radar.frames must be greater than zero"@,
        e == ConfigError::RelativeScript(ThreatTier::Lethal) ==> e.text(path) == path
            + ": alerts.scripts.lethal must be an absolute path"@,
        e == ConfigError::RelativeScript(ThreatTier::Severe) ==> e.text(path) == path
            + ": alerts.scripts.severe must be an absolute path"@,
        e == ConfigError::RelativeScript(ThreatTier::Watch) ==> e.text(path) == path
            + ": alerts.scripts.watch must be an absolute path"@,
{
    reveal_strlit(
        ": [location] must set either `zip` or both `lat` and `lon`\n\n[location]\nzip = \"73019\"\n\nor\n\n[location]\nlat = 35.2226\nlon = -97.4395",
    );
    reveal_strlit(": [location] has only one of `lat`/`lon`; set both or use `zip`");
    reveal_strlit(": alerts.poll_interval_secs must be greater than zero");
    reveal_strlit(": radar.frames must be greater than zero");
    reveal_strlit(": alerts.scripts.lethal must be an absolute path");
    reveal_strlit(": alerts.scripts.severe must be an absolute path");
    reveal_strlit(": alerts.scripts.watch must be an absolute path");
    assert(e.text(path).subrange(0, path.len() as int) =~= path);
}

/// Unless set, every lethal and every severe code is that of a warning and every watched one that
/// of a watch; none is in two tiers, and a tornado warning is lethal.
pub proof fn law_default_tiers_are_apart(i: int, j: int)
    ensures
        lethal_names().contains("TO.W"@),
        lethal_names().contains("FF.W"@),
        lethal_names().contains("Evacuation Immediate"@),
        severe_names().contains("SV.W"@),
        watch_names().contains("TO.A"@),
        watch_names().contains("SV.A"@),
        0 <= i < 6 ==> text::is_suffix(lethal_names()[i], ".W"@),
        0 <= i < severe_names().len() ==> text::is_suffix(severe_names()[i], ".W"@),
        0 <= i < watch_names().len() ==> text::is_suffix(watch_names()[i], ".A"@),
        0 <= i < lethal_names().len() && 0 <= j < severe_names().len() ==> lethal_names()[i]
            != severe_names()[j],
        0 <= i < lethal_names().len() && 0 <= j < watch_names().len() ==> lethal_names()[i]
            != watch_names()[j],
        0 <= i < severe_names().len() && 0 <= j < watch_names().len() ==> severe_names()[i]
            != watch_names()[j],
{
    reveal_strlit("TO.W");
    reveal_strlit("EW.W");
    reveal_strlit("FF.W");
    reveal_strlit("TS.W");
    reveal_strlit("SS.W");
    reveal_strlit("HU.W");
    reveal_strlit("Evacuation Immediate");
    reveal_strlit("SV.W");
    reveal_strlit("SQ.W");
    reveal_strlit("DS.W");
    reveal_strlit("XH.W");
    reveal_strlit("EH.W");
    reveal_strlit("EC.W");
    reveal_strlit("WC.W");
    reveal_strlit("FL.W");
    reveal_strlit("FA.W");
    reveal_strlit("TO.A");
    reveal_strlit("SV.A");
    reveal_strlit("XH.A");
    reveal_strlit("EC.A");
    reveal_strlit("WC.A");
    reveal_strlit(".W");
    reveal_strlit(".A");
    assert(lethal_names()[0] == "TO.W"@);
    assert(lethal_names()[2] == "FF.W"@);
    assert(lethal_names()[6] == "Evacuation Immediate"@);
    assert(severe_names()[0] == "SV.W"@);
    assert(watch_names()[0] == "TO.A"@);
    assert(watch_names()[1] == "SV.A"@);
    if 0 <= i < 6 {
        assert(lethal_names()[i].subrange(2, 4) =~= ".W"@);
    }
    if 0 <= i < severe_names().len() {
        let s = severe_names()[i];
        assert(s.len() == 4 && s[3] == 'W');
        assert(s.subrange(2, 4) =~= ".W"@);
    }
    if 0 <= j < severe_names().len() {
        let s = severe_names()[j];
        assert(s.len() == 4 && s[3] == 'W');
    }
    if 0 <= i < watch_names().len() {
        let s = watch_names()[i];
        assert(s.subrange(2, 4) =~= ".A"@);
    }
    if 0 <= j < watch_names().len() {
        let s = watch_names()[j];
        assert(s.len() == 4 && s[3] == 'A');
    }
    if 0 <= i < 6 {
        let s = lethal_names()[i];
        assert(s.len() == 4 && s[3] == 'W');
        if 0 <= j < severe_names().len() {
            let t = severe_names()[j];
            assert(s[0] != t[0] || s[1] != t[1]);
        }
    }
}

/// Unless set, these products are lethal: warnings of tornadoes, extreme wind, flash floods,
/// tsunamis, storm surge and hurricanes, and orders to evacuate. These are severe: warnings of
/// thunderstorms, squalls, dust storms, heat, cold, wind chill and floods. And these are watched:
/// watches for tornadoes, thunderstorms, heat, cold and wind chill.
pub proof fn law_default_products_are_listed()
    ensures
        lethal_names().contains("TO.W"@),
        lethal_names().contains("EW.W"@),
        lethal_names().contains("FF.W"@),
        lethal_names().contains("TS.W"@),
        lethal_names().contains("SS.W"@),
        lethal_names().contains("HU.W"@),
        lethal_names().contains("Evacuation Immediate"@),
        lethal_names().len() == 7,
        severe_names().contains("SV.W"@),
        severe_names().contains("SQ.W"@),
        severe_names().contains("DS.W"@),
        severe_names().contains("XH.W"@),
        severe_names().contains("EH.W"@),
        severe_names().contains("EC.W"@),
        severe_names().contains("WC.W"@),
        severe_names().contains("FL.W"@),
        severe_names().contains("FA.W"@),
        severe_names().len() == 9,
        watch_names().contains("TO.A"@),
        watch_names().contains("SV.A"@),
        watch_names().contains("XH.A"@),
        watch_names().contains("EC.A"@),
        watch_names().contains("WC.A"@),
        watch_names().len() == 5,
        extra_names() == seq!["Special Weather Statement"@],
{
    assert(lethal_names()[0] == "TO.W"@);
    assert(lethal_names()[1] == "EW.W"@);
    assert(lethal_names()[2] == "FF.W"@);
    assert(lethal_names()[3] == "TS.W"@);
    assert(lethal_names()[4] == "SS.W"@);
    assert(lethal_names()[5] == "HU.W"@);
    assert(lethal_names()[6] == "Evacuation Immediate"@);
    assert(severe_names()[0] == "SV.W"@);
    assert(severe_names()[1] == "SQ.W"@);
    assert(severe_names()[2] == "DS.W"@);
    assert(severe_names()[3] == "XH.W"@);
    assert(severe_names()[4] == "EH.W"@);
    assert(severe_names()[5] == "EC.W"@);
    assert(severe_names()[6] == "WC.W"@);
    assert(severe_names()[7] == "FL.W"@);
    assert(severe_names()[8] == "FA.W"@);
    assert(watch_names()[0] == "TO.A"@);
    assert(watch_names()[1] == "SV.A"@);
    assert(watch_names()[2] == "XH.A"@);
    assert(watch_names()[3] == "EC.A"@);
    assert(watch_names()[4] == "WC.A"@);
}

} // verus!
