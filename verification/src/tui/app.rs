//! The state of the interactive display, and what every event does to it.

use vstd::prelude::*;
#[allow(unused_imports)]
use vstd::string::StringExecFns;
use crate::alert::state::ActiveAlert;
use crate::conditions::{nearest_hourly, nearest_observation, Conditions, HourlyForecast};
#[allow(unused_imports)]
use crate::conditions::{is_nearest, observed_times, valid_times};
use crate::config::{Colormap, Config};
use crate::radar::cells::StormCell;
#[allow(unused_imports)]
use crate::radar::hrrr::index_name;
#[allow(unused_imports)]
use crate::radar::ring::{FrameRing, Loop, RadarFrame};
use crate::radar::RadarProduct;
#[allow(unused_imports)]
use crate::text::{decimal, number, opt_text, signed_decimal, signed_number};
use crate::time::Stamp;
use crate::tui::horizon::{ForecastHorizon, MAX_FORECAST_FRAMES};
use crate::tui::keys::Action;

verus! {

/// How long a frame is shown at first, in nanoseconds.
pub const START_PLAYBACK_NS: u64 = 450_000_000;

/// The shortest that a frame is shown.
pub const FASTEST_PLAYBACK_NS: u64 = 60_000_000;

/// The longest that a frame is shown.
pub const SLOWEST_PLAYBACK_NS: u64 = 4_000_000_000;

/// The base layer of a key. Base layers exist on both halves of the timeline, so that changing
/// them never blanks the forecast.
pub open spec fn base_product(i: int) -> Option<RadarProduct> {
    if i == 0 {
        Some(RadarProduct::Reflectivity)
    } else if i == 1 {
        Some(RadarProduct::EchoTop)
    } else if i == 2 {
        Some(RadarProduct::VerticallyIntegratedLiquid)
    } else {
        None
    }
}

/// The newest moment at which the radar was seen, once another volume has come: one that is older
/// than what was seen, such as history, does not count.
pub fn newest_seen(seen: Option<Stamp>, observed_at: Stamp) -> (r: Stamp)
    ensures
        r == match seen {
            Some(t) if observed_at.before(t) => t,
            _ => observed_at,
        },
{
    match seen {
        Some(t) => if observed_at.is_before(&t) {
            t
        } else {
            observed_at
        },
        None => observed_at,
    }
}

/// Every base layer can be shown on both sides of now: each is forecast, so that going on past
/// now does not blank the map.
pub proof fn law_base_layers_are_forecast(i: int)
    requires
        base_product(i) is Some,
    ensures
        index_name(base_product(i)->0) is Some,
{
}

/// The augmentation of a key: the moments that only a radar has, painted over the base.
pub open spec fn aug_product(i: int) -> Option<RadarProduct> {
    if i == 0 {
        Some(RadarProduct::Velocity)
    } else if i == 1 {
        Some(RadarProduct::CorrelationCoefficient)
    } else if i == 2 {
        Some(RadarProduct::DifferentialReflectivity)
    } else if i == 3 {
        Some(RadarProduct::SpectrumWidth)
    } else {
        None
    }
}

fn base_at(i: usize) -> (r: Option<RadarProduct>)
    ensures
        r == base_product(i as int),
{
    if i == 0 {
        Some(RadarProduct::Reflectivity)
    } else if i == 1 {
        Some(RadarProduct::EchoTop)
    } else if i == 2 {
        Some(RadarProduct::VerticallyIntegratedLiquid)
    } else {
        None
    }
}

fn aug_at(i: usize) -> (r: Option<RadarProduct>)
    ensures
        r == aug_product(i as int),
{
    if i == 0 {
        Some(RadarProduct::Velocity)
    } else if i == 1 {
        Some(RadarProduct::CorrelationCoefficient)
    } else if i == 2 {
        Some(RadarProduct::DifferentialReflectivity)
    } else if i == 3 {
        Some(RadarProduct::SpectrumWidth)
    } else {
        None
    }
}

/// What an action asks of the map: a pan by steps, a zoom, or a new centre.
#[derive(Debug, Clone, Copy, PartialEq, Eq, Structural)]
pub enum MapMove {
    Stay,
    /// By so many steps east and north, a step being an eighth of the span.
    Pan { east: i64, north: i64 },
    ZoomIn,
    ZoomOut,
    Home,
    /// To the storm cell of this position.
    ToCell(usize),
    /// The frames are to follow one another faster.
    Faster,
    /// The frames are to follow one another more slowly.
    Slower,
}

/// The loop after an action.
pub open spec fn loop_after<F>(ring: Loop<F>, action: Action) -> Loop<F> {
    match action {
        Action::FrameBack => ring.stepped_back(),
        Action::FrameForward => ring.stepped_forward(),
        Action::JumpOldest => ring.at_oldest(),
        Action::JumpNewest => ring.at_newest(),
        Action::TogglePlay => Loop { playing: !ring.playing, ..ring },
        _ => ring,
    }
}

/// The base layer after an action: a key beyond the list changes nothing.
pub open spec fn product_after(product: RadarProduct, action: Action) -> RadarProduct {
    match action {
        Action::SelectProduct(i) => match base_product(i as int) {
            Some(p) => p,
            None => product,
        },
        _ => product,
    }
}

/// The augmentations after an action: one that is shown is taken away, one that is not is added
/// last.
pub open spec fn overlays_after(overlays: Seq<RadarProduct>, action: Action) -> Seq<RadarProduct> {
    match action {
        Action::ToggleProductOverlay(i) => match aug_product(i as int) {
            Some(p) => if overlays.contains(p) {
                overlays.remove(overlays.index_of(p))
            } else {
                overlays.push(p)
            },
            None => overlays,
        },
        _ => overlays,
    }
}

/// The selected storm cell after an action: selecting goes round.
pub open spec fn selection_after(selected: Option<usize>, cells: nat, action: Action) -> Option<
    usize,
> {
    match action {
        Action::CellNext => if cells == 0 {
            selected
        } else {
            match selected {
                None => Some(0),
                Some(i) => Some(((i + 1) % (cells as int)) as usize),
            }
        },
        Action::CellPrev => if cells == 0 {
            selected
        } else {
            match selected {
                None => Some((cells - 1) as usize),
                Some(i) => Some(((i + cells - 1) % (cells as int)) as usize),
            }
        },
        _ => selected,
    }
}

/// What an action asks of the map.
pub open spec fn move_for(action: Action, selected: Option<usize>, cells: nat) -> MapMove {
    match action {
        Action::PanWest => MapMove::Pan { east: -1i64, north: 0 },
        Action::PanEast => MapMove::Pan { east: 1, north: 0 },
        Action::PanNorth => MapMove::Pan { east: 0, north: 1 },
        Action::PanSouth => MapMove::Pan { east: 0, north: -1i64 },
        Action::PanHalfUp => MapMove::Pan { east: 0, north: 4 },
        Action::PanHalfDown => MapMove::Pan { east: 0, north: -4i64 },
        Action::ZoomIn => MapMove::ZoomIn,
        Action::ZoomOut => MapMove::ZoomOut,
        Action::RecentreHome => MapMove::Home,
        Action::Faster => MapMove::Faster,
        Action::Slower => MapMove::Slower,
        Action::CellNext | Action::CellPrev => match selection_after(selected, cells, action) {
            Some(i) if cells > 0 => MapMove::ToCell(i),
            _ => MapMove::Stay,
        },
        _ => MapMove::Stay,
    }
}

/// The status after an action, where the action sets one.
pub open spec fn status_after(
    status: Seq<char>,
    action: Action,
    cells: nat,
    horizon: ForecastHorizon,
) -> Seq<char> {
    match action {
        Action::CellNext | Action::CellPrev => if cells == 0 {
            "no storm cells detected"@
        } else {
            status
        },
        Action::CycleForecast => "forecast horizon "@ + horizon.successor().name(),
        _ => status,
    }
}

/// The state of the display. `F` is whatever the frames are sampled from.
#[derive(Debug)]
pub struct App<F> {
    pub active: Vec<ActiveAlert>,
    pub stale: bool,
    pub stale_secs: u64,
    pub ring: FrameRing<F>,
    pub site: String,
    pub colormap: Colormap,
    pub cold_below_f: u32,
    pub hot_above_f: u32,
    pub zone: String,
    pub pending: Option<char>,
    pub playback_ns: u64,
    pub product: RadarProduct,
    pub product_overlays: Vec<RadarProduct>,
    pub horizon: ForecastHorizon,
    pub conditions: Option<Conditions>,
    pub obs_history: Vec<Conditions>,
    pub hourly: Vec<HourlyForecast>,
    pub cells: Vec<StormCell>,
    pub selected_cell: Option<usize>,
    pub show_help: bool,
    pub quit: bool,
    pub status: String,
}

/// The conditions at the moment of the frame shown: a position in the forecasts or in the
/// observations.
#[derive(Debug, Clone, Copy, PartialEq, Eq, Structural)]
pub enum FrameConditions {
    Forecast(usize),
    Observed(usize),
}

/// The newest observed frame.
pub open spec fn newest_observed<F>(frames: Seq<RadarFrame<F>>) -> Option<Stamp>
    decreases frames.len(),
{
    if frames.len() == 0 {
        None
    } else if !frames.last().projected {
        Some(frames.last().captured_at)
    } else {
        newest_observed(frames.drop_last())
    }
}

/// Whether the frame shown is the newest observed one.
pub open spec fn is_live<F>(ring: Loop<F>) -> bool {
    ring.current() matches Some(f) && !f.projected && newest_observed(ring.frames) == Some(
        f.captured_at,
    )
}

/// The state of the loop with one more line of text, in `n` frames.
pub open spec fn radar_status(
    site: Seq<char>,
    backfill: Option<Seq<char>>,
    frames: nat,
    tilt: Seq<char>,
) -> Seq<char> {
    match backfill {
        Some(p) => site + " "@ + p + " | "@ + decimal(frames) + " frames | "@ + tilt + "deg tilt"@,
        None => site + " | "@ + decimal(frames) + " frames | "@ + tilt + "deg tilt"@,
    }
}

/// What is said after a poll.
pub open spec fn alert_status(
    dispatch_error: Option<Seq<char>>,
    poll_error: Option<Seq<char>>,
    active: nat,
    site: Seq<char>,
    frames: nat,
) -> Seq<char> {
    match dispatch_error {
        Some(e) => "alert dispatch failed: "@ + e,
        None => match poll_error {
            Some(e) => "alert poll failed: "@ + e,
            None => decimal(active) + " active | radar "@ + site + " | "@ + decimal(frames)
                + " frames"@,
        },
    }
}

impl<F> App<F> {
    /// What every state satisfies.
    pub open spec fn wf(self) -> bool {
        &&& self.ring@.wf()
        &&& self.product_overlays@.no_duplicates()
        &&& self.selected_cell matches Some(i) ==> i < self.cells@.len()
    }

    /// The state at the start. `away` is the distance of the site, in kilometres. There is
    /// room for the forecast beside the observed frames: without it a forecast would push that
    /// many observations out.
    pub fn new(cfg: &Config, site: &str, away: &str, zone: &str) -> (r: App<F>)
        requires
            cfg.radar.frames + MAX_FORECAST_FRAMES <= usize::MAX,
        ensures
            r.wf(),
            r.ring@.frames.len() == 0,
            r.ring@.capacity == cfg.radar.frames + MAX_FORECAST_FRAMES,
            r.ring@.playing,
            r.ring@.follow_live,
            r.active@.len() == 0,
            !r.stale,
            r.stale_secs == 0,
            r.site@ == site@,
            r.zone@ == zone@,
            r.colormap == cfg.render.colormap,
            r.cold_below_f == cfg.render.cold_below_f,
            r.hot_above_f == cfg.render.hot_above_f,
            r.pending is None,
            r.playback_ns == START_PLAYBACK_NS,
            r.playback_ns == 450_000_000,
            r.ring@.capacity == cfg.radar.frames + 18,
            r.product is Reflectivity,
            r.product_overlays@ == seq![
                RadarProduct::Velocity,
                RadarProduct::CorrelationCoefficient,
            ],
            r.horizon is Near,
            r.conditions is None,
            r.obs_history@.len() == 0,
            r.hourly@.len() == 0,
            r.cells@.len() == 0,
            r.selected_cell is None,
            !r.show_help,
            !r.quit,
            r.status@ == site@ + " selected, "@ + away@
                + " km away, waiting for first volume"@,
    {
        let mut status = site.to_owned();
        status.append(" selected, ");
        status.append(away);
        status.append(" km away, waiting for first volume");
        let product_overlays: Vec<RadarProduct> = vec![
            RadarProduct::Velocity,
            RadarProduct::CorrelationCoefficient,
        ];
        assert(product_overlays@ =~= seq![
            RadarProduct::Velocity,
            RadarProduct::CorrelationCoefficient,
        ]);
        App {
            active: Vec::new(),
            stale: false,
            stale_secs: 0,
            ring: FrameRing::new(cfg.radar.frames + MAX_FORECAST_FRAMES),
            site: site.to_owned(),
            colormap: cfg.render.colormap,
            cold_below_f: cfg.render.cold_below_f,
            hot_above_f: cfg.render.hot_above_f,
            zone: zone.to_owned(),
            pending: None,
            playback_ns: START_PLAYBACK_NS,
            product: RadarProduct::Reflectivity,
            product_overlays,
            horizon: ForecastHorizon::Near,
            conditions: None,
            obs_history: Vec::new(),
            hourly: Vec::new(),
            cells: Vec::new(),
            selected_cell: None,
            show_help: false,
            quit: false,
            status,
        }
    }

    fn toggle_overlay(&mut self, p: RadarProduct)
        requires
            old(self).wf(),
        ensures
            final(self).product_overlays@.no_duplicates(),
            final(self).product_overlays@ == (if old(self).product_overlays@.contains(p) {
                old(self).product_overlays@.remove(old(self).product_overlays@.index_of(p))
            } else {
                old(self).product_overlays@.push(p)
            }),
            *final(self) == (App {
                product_overlays: final(self).product_overlays,
                ..*old(self)
            }),
    {
        let ghost was = self.product_overlays@;
        let mut i: usize = 0;
        while i < self.product_overlays.len()
            invariant
                i <= self.product_overlays@.len(),
                *self == *old(self),
                was == self.product_overlays@,
                was.no_duplicates(),
                forall|k: int| 0 <= k < i ==> #[trigger] was[k] != p,
            decreases self.product_overlays@.len() - i,
        {
            if self.product_overlays[i] == p {
                assert(was.contains(p));
                assert(was.index_of(p) == i);
                self.product_overlays.remove(i);
                return;
            }
            i += 1;
        }
        self.product_overlays.push(p);
    }

    /// Does what an action asks, and returns what it asks of the map.
    pub fn apply(&mut self, action: Action) -> (r: MapMove)
        requires
            old(self).wf(),
        ensures
            final(self).wf(),
            final(self).ring@ == loop_after(old(self).ring@, action),
            final(self).product == product_after(old(self).product, action),
            final(self).product_overlays@ == overlays_after(old(self).product_overlays@, action),
            final(self).selected_cell == selection_after(
                old(self).selected_cell,
                old(self).cells@.len(),
                action,
            ),
            final(self).horizon == (if action is CycleForecast {
                old(self).horizon.successor()
            } else {
                old(self).horizon
            }),
            final(self).show_help == (old(self).show_help != (action is ToggleHelp)),
            final(self).quit == (old(self).quit || action is Quit),
            final(self).status@ == status_after(
                old(self).status@,
                action,
                old(self).cells@.len(),
                old(self).horizon,
            ),
            final(self).active == old(self).active,
            final(self).cells == old(self).cells,
            final(self).stale == old(self).stale,
            final(self).stale_secs == old(self).stale_secs,
            final(self).playback_ns == old(self).playback_ns,
            final(self).pending == old(self).pending,
            final(self).conditions == old(self).conditions,
            final(self).obs_history == old(self).obs_history,
            final(self).hourly == old(self).hourly,
            final(self).site == old(self).site,
            final(self).zone == old(self).zone,
            final(self).colormap == old(self).colormap,
            final(self).cold_below_f == old(self).cold_below_f,
            final(self).hot_above_f == old(self).hot_above_f,
            r == move_for(action, old(self).selected_cell, old(self).cells@.len()),
    {
        match action {
            Action::PanWest => MapMove::Pan { east: -1, north: 0 },
            Action::PanEast => MapMove::Pan { east: 1, north: 0 },
            Action::PanNorth => MapMove::Pan { east: 0, north: 1 },
            Action::PanSouth => MapMove::Pan { east: 0, north: -1 },
            Action::PanHalfUp => MapMove::Pan { east: 0, north: 4 },
            Action::PanHalfDown => MapMove::Pan { east: 0, north: -4 },
            Action::ZoomIn => MapMove::ZoomIn,
            Action::ZoomOut => MapMove::ZoomOut,
            Action::RecentreHome => MapMove::Home,
            Action::Faster => MapMove::Faster,
            Action::Slower => MapMove::Slower,
            Action::FrameBack => {
                self.ring.step_back();
                MapMove::Stay
            },
            Action::FrameForward => {
                self.ring.step_forward();
                MapMove::Stay
            },
            Action::JumpOldest => {
                self.ring.jump_oldest();
                MapMove::Stay
            },
            Action::JumpNewest => {
                self.ring.jump_newest();
                MapMove::Stay
            },
            Action::TogglePlay => {
                self.ring.toggle_play();
                MapMove::Stay
            },
            Action::CellNext => {
                let len: usize = self.cells.len();
                if len == 0 {
                    self.status = "no storm cells detected".to_owned();
                    return MapMove::Stay;
                }
                let next: usize = match self.selected_cell {
                    None => 0,
                    Some(i) => if i + 1 < len {
                        i + 1
                    } else {
                        0
                    },
                };
                proof {
                    if let Some(i) = self.selected_cell {
                        if i + 1 < len {
                            vstd::arithmetic::div_mod::lemma_small_mod((i + 1) as nat, len as nat);
                        } else {
                            vstd::arithmetic::div_mod::lemma_mod_self_0(len as int);
                        }
                    }
                }
                self.selected_cell = Some(next);
                MapMove::ToCell(next)
            },
            Action::CellPrev => {
                let len: usize = self.cells.len();
                if len == 0 {
                    self.status = "no storm cells detected".to_owned();
                    return MapMove::Stay;
                }
                let prev: usize = match self.selected_cell {
                    None => len - 1,
                    Some(i) => if i > 0 {
                        i - 1
                    } else {
                        len - 1
                    },
                };
                proof {
                    if let Some(i) = self.selected_cell {
                        let n = len as int;
                        if i > 0 {
                            vstd::arithmetic::div_mod::lemma_mod_add_multiples_vanish(
                                i - 1,
                                n,
                            );
                            vstd::arithmetic::div_mod::lemma_small_mod((i - 1) as nat, len as nat);
                            assert((i + n - 1) % n == i - 1);
                        } else {
                            vstd::arithmetic::div_mod::lemma_small_mod((n - 1) as nat, len as nat);
                        }
                    }
                }
                self.selected_cell = Some(prev);
                MapMove::ToCell(prev)
            },
            Action::SelectProduct(i) => {
                if let Some(p) = base_at(i) {
                    self.product = p;
                }
                MapMove::Stay
            },
            Action::ToggleProductOverlay(i) => {
                if let Some(p) = aug_at(i) {
                    self.toggle_overlay(p);
                }
                MapMove::Stay
            },
            Action::CycleForecast => {
                self.horizon = self.horizon.next();
                let mut status = "forecast horizon ".to_owned();
                status.append(self.horizon.label());
                self.status = status;
                MapMove::Stay
            },
            Action::ToggleHelp => {
                self.show_help = !self.show_help;
                MapMove::Stay
            },
            Action::Quit => {
                self.quit = true;
                MapMove::Stay
            },
            Action::Ignored => MapMove::Stay,
        }
    }

    /// Changes how long a frame is shown to `scaled`, within bounds: no faster than the
    /// fastest, or no slower than the slowest.
    pub fn rescale_playback(&mut self, faster: bool, scaled: u64)
        ensures
            final(self).playback_ns == (if faster {
                if scaled < FASTEST_PLAYBACK_NS {
                    FASTEST_PLAYBACK_NS
                } else {
                    scaled
                }
            } else {
                if scaled > SLOWEST_PLAYBACK_NS {
                    SLOWEST_PLAYBACK_NS
                } else {
                    scaled
                }
            }),
            faster ==> final(self).playback_ns >= 60_000_000,
            !faster ==> final(self).playback_ns <= 4_000_000_000,
            60_000_000 <= scaled <= 4_000_000_000 ==> final(self).playback_ns == scaled,
            *final(self) == (App { playback_ns: final(self).playback_ns, ..*old(self) }),
    {
        self.playback_ns = if faster {
            if scaled < FASTEST_PLAYBACK_NS {
                FASTEST_PLAYBACK_NS
            } else {
                scaled
            }
        } else {
            if scaled > SLOWEST_PLAYBACK_NS {
                SLOWEST_PLAYBACK_NS
            } else {
                scaled
            }
        };
    }

    /// The layers shown: the base with its unit, then each augmentation.
    pub open spec fn layers(self) -> Seq<char> {
        let base = if self.product.unit().len() == 0 {
            self.product.name()
        } else {
            self.product.name() + " "@ + self.product.unit()
        };
        base + extras(self.product_overlays@, self.product_overlays@.len() as int)
    }

    pub fn layer_summary(&self) -> (r: String)
        ensures
            r@ == self.layers(),
    {
        let mut out = self.product.label().to_owned();
        let units = self.product.units();
        if !units.is_empty() {
            out.append(" ");
            out.append(units);
        }
        let ghost base = out@;
        let mut i: usize = 0;
        assert(base + extras(self.product_overlays@, 0) =~= base);
        while i < self.product_overlays.len()
            invariant
                i <= self.product_overlays@.len(),
                out@ == base + extras(self.product_overlays@, i as int),
            decreases self.product_overlays@.len() - i,
        {
            let ghost was = extras(self.product_overlays@, i as int);
            out.append(" + ");
            out.append(self.product_overlays[i].label());
            assert(out@ =~= base + (was + " + "@ + self.product_overlays@[i as int].name()));
            i += 1;
        }
        out
    }

    fn newest_observed_at(&self) -> (r: Option<Stamp>)
        ensures
            r == newest_observed(self.ring@.frames),
    {
        let frames = self.ring.frames();
        let mut n: usize = frames.len();
        assert(frames@.take(n as int) =~= frames@);
        while n > 0
            invariant
                n <= frames@.len(),
                frames@ == self.ring@.frames,
                newest_observed(frames@.take(n as int)) == newest_observed(frames@),
            decreases n,
        {
            assert(frames@.take(n as int).last() == frames@[n - 1]);
            assert(frames@.take(n as int).drop_last() =~= frames@.take(n - 1));
            if !frames[n - 1].projected {
                return Some(frames[n - 1].captured_at);
            }
            n -= 1;
        }
        None
    }

    /// Whether the frame shown is the newest observed one, the only one that the storm cells
    /// belong to.
    pub fn on_live_frame(&self) -> (r: bool)
        ensures
            r == is_live(self.ring@),
    {
        match self.ring.current() {
            Some(f) => {
                if f.projected {
                    false
                } else {
                    match self.newest_observed_at() {
                        Some(t) => t == f.captured_at,
                        None => false,
                    }
                }
            },
            None => false,
        }
    }

    /// What the moment of the frame shown looked or will look like: the nearest forecast for a
    /// forecast frame, the nearest observation for an observed one. The newest observed frame
    /// is now, which is shown anyway.
    pub fn frame_conditions(&self) -> (r: Option<(Stamp, FrameConditions)>)
        ensures
            match self.ring@.current() {
                None => r is None,
                Some(f) => if f.projected {
                    match r {
                        Some((t, FrameConditions::Forecast(i))) => t == f.captured_at && is_nearest(
                            valid_times(self.hourly@),
                            t,
                            i as int,
                        ),
                        Some(_) => false,
                        None => self.hourly@.len() == 0,
                    }
                } else if is_live(self.ring@) {
                    r is None
                } else {
                    match r {
                        Some((t, FrameConditions::Observed(i))) => t == f.captured_at && is_nearest(
                            observed_times(self.obs_history@),
                            t,
                            i as int,
                        ),
                        Some(_) => false,
                        None => forall|k: int|
                            0 <= k < self.obs_history@.len() ==> (
                            #[trigger] self.obs_history@[k]).observed_at is None,
                    }
                },
            },
    {
        let live: bool = self.on_live_frame();
        match self.ring.current() {
            None => None,
            Some(f) => {
                let at: Stamp = f.captured_at;
                if f.projected {
                    match nearest_hourly(&self.hourly, at) {
                        Some(i) => Some((at, FrameConditions::Forecast(i))),
                        None => None,
                    }
                } else if live {
                    None
                } else {
                    match nearest_observation(&self.obs_history, at) {
                        Some(i) => Some((at, FrameConditions::Observed(i))),
                        None => None,
                    }
                }
            },
        }
    }

    /// Takes in what the monitor reports. A failure to announce is said before a failure to
    /// poll.
    pub fn take_alerts(
        &mut self,
        active: Vec<ActiveAlert>,
        stale: bool,
        stale_secs: u64,
        dispatch_error: Option<String>,
        poll_error: Option<String>,
    )
        requires
            old(self).wf(),
        ensures
            final(self).wf(),
            final(self).active == active,
            final(self).stale == stale,
            final(self).stale_secs == stale_secs,
            final(self).status@ == alert_status(
                opt_text(dispatch_error),
                opt_text(poll_error),
                active@.len(),
                old(self).site@,
                old(self).ring@.frames.len(),
            ),
            *final(self) == (App {
                active,
                stale,
                stale_secs,
                status: final(self).status,
                ..*old(self)
            }),
    {
        let count: u64 = active.len() as u64;
        self.active = active;
        self.stale = stale;
        self.stale_secs = stale_secs;
        let mut status;
        match &dispatch_error {
            Some(e) => {
                status = "alert dispatch failed: ".to_owned();
                status.append(e.as_str());
            },
            None => match &poll_error {
                Some(e) => {
                    status = "alert poll failed: ".to_owned();
                    status.append(e.as_str());
                },
                None => {
                    status = number(count);
                    status.append(" active | radar ");
                    status.append(self.site.as_str());
                    status.append(" | ");
                    let frames = number(self.ring.len() as u64);
                    status.append(frames.as_str());
                    status.append(" frames");
                },
            },
        }
        self.status = status;
    }

    /// Takes in a volume. Cells come with the live volume alone: those of an archived one would
    /// show old threats as current. A selection that no longer names a cell is dropped.
    pub fn take_radar(
        &mut self,
        observed_at: Stamp,
        field: F,
        tilt: &str,
        backfill: Option<String>,
        cells: Option<Vec<StormCell>>,
    )
        requires
            old(self).wf(),
        ensures
            final(self).wf(),
            final(self).ring@ == old(self).ring@.pushed(
                RadarFrame { captured_at: observed_at, field, projected: false },
            ),
            match cells {
                Some(list) => {
                    &&& final(self).cells == list
                    &&& final(self).selected_cell == match old(self).selected_cell {
                        Some(i) if i < list@.len() => Some(i),
                        _ => None,
                    }
                },
                None => {
                    &&& final(self).cells == old(self).cells
                    &&& final(self).selected_cell == old(self).selected_cell
                },
            },
            final(self).status@ == radar_status(
                old(self).site@,
                opt_text(backfill),
                final(self).ring@.frames.len(),
                tilt@,
            ),
            *final(self) == (App {
                ring: final(self).ring,
                cells: final(self).cells,
                selected_cell: final(self).selected_cell,
                status: final(self).status,
                ..*old(self)
            }),
    {
        if let Some(list) = cells {
            self.selected_cell = match self.selected_cell {
                Some(i) => if i < list.len() {
                    Some(i)
                } else {
                    None
                },
                None => None,
            };
            self.cells = list;
        }
        self.ring.push(RadarFrame { captured_at: observed_at, field, projected: false });
        let mut status = self.site.clone();
        if let Some(p) = &backfill {
            status.append(" ");
            status.append(p.as_str());
        }
        status.append(" | ");
        let frames = number(self.ring.len() as u64);
        status.append(frames.as_str());
        status.append(" frames | ");
        status.append(tilt);
        status.append("deg tilt");
        self.status = status;
    }

    /// Takes in a forecast frame. The first of a batch takes the place of the forecast that was
    /// shown.
    pub fn take_forecast(
        &mut self,
        valid_at: Stamp,
        field: F,
        lead_minutes: i64,
        first_of_batch: bool,
        index: usize,
        total: usize,
    )
        requires
            old(self).wf(),
            index < total,
        ensures
            final(self).wf(),
            final(self).ring@ == (if first_of_batch {
                old(self).ring@.without_projected()
            } else {
                old(self).ring@
            }).pushed(RadarFrame { captured_at: valid_at, field, projected: true }),
            final(self).status@ == "HRRR "@ + old(self).horizon.name() + " | +"@ + signed_decimal(
                lead_minutes as int,
            ) + "min | "@ + decimal((index + 1) as nat) + "/"@ + decimal(total as nat),
            *final(self) == (App {
                ring: final(self).ring,
                status: final(self).status,
                ..*old(self)
            }),
    {
        if first_of_batch {
            self.ring.drop_projected();
        }
        self.ring.push(RadarFrame { captured_at: valid_at, field, projected: true });
        let mut status = "HRRR ".to_owned();
        status.append(self.horizon.label());
        status.append(" | +");
        let lead = signed_number(lead_minutes);
        status.append(lead.as_str());
        status.append("min | ");
        let position = number(index as u64 + 1);
        status.append(position.as_str());
        status.append("/");
        let all = number(total as u64);
        status.append(all.as_str());
        self.status = status;
    }

    /// Takes in what one round of conditions brought. What it failed to bring stays as it was.
    pub fn take_conditions(
        &mut self,
        current: Option<Conditions>,
        history: Vec<Conditions>,
        hourly: Vec<HourlyForecast>,
        error: Option<String>,
    )
        requires
            old(self).wf(),
        ensures
            final(self).wf(),
            final(self).conditions == (if current is Some {
                current
            } else {
                old(self).conditions
            }),
            final(self).obs_history == (if history@.len() > 0 {
                history
            } else {
                old(self).obs_history
            }),
            final(self).hourly == (if hourly@.len() > 0 {
                hourly
            } else {
                old(self).hourly
            }),
            final(self).status@ == match error {
                Some(e) => "conditions unavailable: "@ + e@,
                None => old(self).status@,
            },
            *final(self) == (App {
                conditions: final(self).conditions,
                obs_history: final(self).obs_history,
                hourly: final(self).hourly,
                status: final(self).status,
                ..*old(self)
            }),
    {
        if current.is_some() {
            self.conditions = current;
        }
        if history.len() > 0 {
            self.obs_history = history;
        }
        if hourly.len() > 0 {
            self.hourly = hourly;
        }
        if let Some(e) = error {
            let mut status = "conditions unavailable: ".to_owned();
            status.append(e.as_str());
            self.status = status;
        }
    }

    /// Plays one frame on, where the frame shown has been shown long enough.
    pub fn advance_if_due(&mut self, elapsed_ns: u64) -> (due: bool)
        requires
            old(self).wf(),
        ensures
            final(self).wf(),
            due == (elapsed_ns >= old(self).playback_ns),
            final(self).ring@ == (if due {
                old(self).ring@.advanced()
            } else {
                old(self).ring@
            }),
            *final(self) == (App { ring: final(self).ring, ..*old(self) }),
    {
        let due: bool = elapsed_ns >= self.playback_ns;
        if due {
            self.ring.advance_playback();
        }
        due
    }

    /// The line below the map: the layers, what is in view, and the status.
    pub fn bottom_line(&self, echo: &str) -> (r: String)
        ensures
            r@ == self.layers() + " | "@ + echo@ + " | "@ + self.status@,
    {
        let mut out = self.layer_summary();
        out.append(" | ");
        out.append(echo);
        out.append(" | ");
        out.append(self.status.as_str());
        out
    }

    /// Says that a radar volume could not be had.
    pub fn radar_failed(&mut self, error: &str)
        requires
            old(self).wf(),
        ensures
            final(self).wf(),
            final(self).status@ == "radar fetch failed: "@ + error@,
            *final(self) == (App { status: final(self).status, ..*old(self) }),
    {
        let mut status = "radar fetch failed: ".to_owned();
        status.append(error);
        self.status = status;
    }

    /// Says that the forecast could not be had.
    pub fn forecast_failed(&mut self, error: &str)
        requires
            old(self).wf(),
        ensures
            final(self).wf(),
            final(self).status@ == "forecast unavailable: "@ + error@,
            *final(self) == (App { status: final(self).status, ..*old(self) }),
    {
        let mut status = "forecast unavailable: ".to_owned();
        status.append(error);
        self.status = status;
    }
}

/// The first `n` augmentations, each after a plus sign.
pub open spec fn extras(overlays: Seq<RadarProduct>, n: int) -> Seq<char>
    decreases n,
{
    if n <= 0 {
        Seq::empty()
    } else {
        extras(overlays, n - 1) + " + "@ + overlays[n - 1].name()
    }
}

/// How far the archived volumes have been loaded.
pub fn backfill_progress(done: usize, total: usize) -> (r: String)
    ensures
        r@ == "backfill "@ + decimal(done as nat) + "/"@ + decimal(total as nat),
{
    let mut out = "backfill ".to_owned();
    let a = number(done as u64);
    out.append(a.as_str());
    out.append("/");
    let b = number(total as u64);
    out.append(b.as_str());
    out
}

/// The seconds between two looks at the radar: no fewer than half a minute.
pub fn refresh_interval(refresh_secs: u64) -> (r: u64)
    ensures
        r == (if refresh_secs < 30 {
            30
        } else {
            refresh_secs
        }),
{
    if refresh_secs < 30 {
        30
    } else {
        refresh_secs
    }
}

/// Toggling an augmentation twice leaves the same augmentations shown.
pub proof fn law_toggling_twice_restores_the_set(overlays: Seq<RadarProduct>, i: usize)
    requires
        overlays.no_duplicates(),
    ensures
        forall|p: RadarProduct|
            overlays_after(
                overlays_after(overlays, Action::ToggleProductOverlay(i)),
                Action::ToggleProductOverlay(i),
            ).contains(p) <==> #[trigger] overlays.contains(p),
{
    let act = Action::ToggleProductOverlay(i);
    if let Some(q) = aug_product(i as int) {
        let once = overlays_after(overlays, act);
        let twice = overlays_after(once, act);
        if overlays.contains(q) {
            let k = overlays.index_of(q);
            assert(once =~= overlays.remove(k));
            assert(!once.contains(q)) by {
                if once.contains(q) {
                    let j = once.index_of(q);
                    assert(overlays[if j < k { j } else { j + 1 }] == q);
                }
            }
            assert forall|p: RadarProduct| twice.contains(p) <==> #[trigger] overlays.contains(
                p,
            ) by {
                if overlays.contains(p) {
                    let j = overlays.index_of(p);
                    if p == q {
                        assert(twice[once.len() as int] == p);
                    } else {
                        assert(twice[if j < k { j } else { j - 1 }] == p);
                    }
                }
                if twice.contains(p) {
                    let j = twice.index_of(p);
                    if j < once.len() {
                        assert(overlays[if j < k { j } else { j + 1 }] == p);
                    }
                }
            }
        } else {
            assert(once[overlays.len() as int] == q);
            let k = once.index_of(q);
            assert(k == overlays.len()) by {
                if k < overlays.len() {
                    assert(overlays[k] == q);
                }
            }
            assert(twice =~= overlays);
        }
    }
}

/// Going to the next storm cell and back comes to the one that was selected.
pub proof fn law_cell_selection_comes_back(selected: usize, cells: nat)
    requires
        selected < cells,
        cells <= usize::MAX,
    ensures
        selection_after(
            selection_after(Some(selected), cells, Action::CellNext),
            cells,
            Action::CellPrev,
        ) == Some(selected),
{
    let n = cells as int;
    if selected + 1 < cells {
        vstd::arithmetic::div_mod::lemma_small_mod((selected + 1) as nat, cells);
        vstd::arithmetic::div_mod::lemma_mod_add_multiples_vanish(selected as int, n);
        vstd::arithmetic::div_mod::lemma_small_mod(selected as nat, cells);
        assert((selected + 1 + n - 1) % n == selected);
    } else {
        vstd::arithmetic::div_mod::lemma_mod_self_0(n);
        vstd::arithmetic::div_mod::lemma_small_mod((n - 1) as nat, cells);
    }
}

/// The first key of the base layers shows reflectivity, the second echo tops and the third liquid;
/// the first of the augmentations velocity, the second correlation, the third differential
/// reflectivity and the fourth spectrum width. No other key changes either.
pub proof fn law_keys_choose_their_layers(
    product: RadarProduct,
    overlays: Seq<RadarProduct>,
    action: Action,
)
    ensures
        action == Action::SelectProduct(0) ==> product_after(product, action) is Reflectivity,
        action == Action::SelectProduct(1) ==> product_after(product, action) is EchoTop,
        action == Action::SelectProduct(2) ==> product_after(product, action)
            is VerticallyIntegratedLiquid,
        !(action is SelectProduct) ==> product_after(product, action) == product,
        !(action is ToggleProductOverlay) ==> overlays_after(overlays, action) == overlays,
        aug_product(0) == Some(RadarProduct::Velocity),
        aug_product(1) == Some(RadarProduct::CorrelationCoefficient),
        aug_product(2) == Some(RadarProduct::DifferentialReflectivity),
        aug_product(3) == Some(RadarProduct::SpectrumWidth),
{
}

/// An augmentation that was not shown is shown on top of the others, which stay as they were; one
/// that was shown is gone.
pub proof fn law_toggled_augmentation_comes_on_top(
    overlays: Seq<RadarProduct>,
    i: usize,
    p: RadarProduct,
)
    requires
        overlays.no_duplicates(),
        aug_product(i as int) == Some(p),
    ensures
        !overlays.contains(p) ==> overlays_after(overlays, Action::ToggleProductOverlay(i))
            == overlays.push(p),
        overlays.contains(p) ==> !overlays_after(
            overlays,
            Action::ToggleProductOverlay(i),
        ).contains(p) && overlays_after(overlays, Action::ToggleProductOverlay(i)).len()
            == overlays.len() - 1,
{
    if overlays.contains(p) {
        let at = overlays.index_of(p);
        let less = overlays.remove(at);
        if less.contains(p) {
            let k = less.index_of(p);
            let from = if k < at {
                k
            } else {
                k + 1
            };
            assert(overlays[from] == p);
            assert(overlays[at] == p);
        }
    }
}

/// Panning west and east, and north and south, are opposite and equal, a half page goes four times
/// as far as a step, and no other action pans.
pub proof fn law_pans_are_opposite(action: Action, selected: Option<usize>, cells: nat)
    ensures
        action is PanWest ==> move_for(action, selected, cells) == (MapMove::Pan {
            east: -1i64,
            north: 0,
        }),
        action is PanEast ==> move_for(action, selected, cells) == (MapMove::Pan {
            east: 1,
            north: 0,
        }),
        action is PanNorth ==> move_for(action, selected, cells) == (MapMove::Pan {
            east: 0,
            north: 1,
        }),
        action is PanSouth ==> move_for(action, selected, cells) == (MapMove::Pan {
            east: 0,
            north: -1i64,
        }),
        action is PanHalfUp ==> move_for(action, selected, cells) == (MapMove::Pan {
            east: 0,
            north: 4,
        }),
        action is PanHalfDown ==> move_for(action, selected, cells) == (MapMove::Pan {
            east: 0,
            north: -4i64,
        }),
        move_for(action, selected, cells) is ZoomIn <==> action is ZoomIn,
        move_for(action, selected, cells) is ZoomOut <==> action is ZoomOut,
        move_for(action, selected, cells) is Home <==> action is RecentreHome,
        move_for(action, selected, cells) is Faster <==> action is Faster,
        move_for(action, selected, cells) is Slower <==> action is Slower,
        move_for(action, selected, cells) is ToCell ==> action is CellNext || action is CellPrev,
{
}

/// Selecting goes through the storm cells one by one and round at the ends, from the first, or
/// backwards from the last; the map follows to the cell that is then selected.
pub proof fn law_selection_goes_round(selected: Option<usize>, cells: nat)
    requires
        0 < cells <= usize::MAX,
        selected matches Some(i) ==> i < cells,
    ensures
        ({
            let next = selection_after(selected, cells, Action::CellNext);
            let prev = selection_after(selected, cells, Action::CellPrev);
            &&& selected is None ==> next == Some(0usize) && prev == Some((cells - 1) as usize)
            &&& selected matches Some(i) ==> next == Some(
                (if i + 1 < cells {
                    i + 1
                } else {
                    0
                }) as usize,
            )
            &&& selected matches Some(i) ==> prev == Some(
                (if i > 0 {
                    i - 1
                } else {
                    cells - 1
                }) as usize,
            )
            &&& move_for(Action::CellNext, selected, cells) == MapMove::ToCell(next->0)
            &&& move_for(Action::CellPrev, selected, cells) == MapMove::ToCell(prev->0)
        }),
{
    if let Some(i) = selected {
        let n = cells as int;
        if i + 1 < n {
            vstd::arithmetic::div_mod::lemma_small_mod((i + 1) as nat, cells);
        } else {
            assert((i + 1) as int == n);
            vstd::arithmetic::div_mod::lemma_mod_self_0(n);
        }
        if i > 0 {
            vstd::arithmetic::div_mod::lemma_fundamental_div_mod_converse(i + n - 1, n, 1, i - 1);
        } else {
            vstd::arithmetic::div_mod::lemma_small_mod((n - 1) as nat, cells);
        }
    }
}

/// Only the keys of the loop move it: back and forward by one frame, to its ends, and playing on
/// and off, which twice is as before.
pub proof fn law_loop_keys_move_the_loop<F>(ring: Loop<F>, action: Action)
    requires
        ring.wf(),
    ensures
        loop_after(ring, action).frames == ring.frames,
        action is FrameBack && ring.cursor > 0 ==> loop_after(ring, action).cursor == ring.cursor
            - 1,
        action is FrameForward && ring.cursor + 1 < ring.frames.len() ==> loop_after(
            ring,
            action,
        ).cursor == ring.cursor + 1,
        action is JumpOldest ==> loop_after(ring, action).cursor == 0,
        action is JumpNewest && ring.frames.len() > 0 ==> loop_after(ring, action).cursor
            == ring.frames.len() - 1,
        action is TogglePlay ==> loop_after(ring, action).playing == !ring.playing && loop_after(
            loop_after(ring, action),
            action,
        ) == ring,
        !(action is TogglePlay) ==> loop_after(ring, action).playing == ring.playing,
        !(action is FrameBack || action is FrameForward || action is JumpOldest || action
            is JumpNewest || action is TogglePlay) ==> loop_after(ring, action) == ring,
{
}

/// The newest observed moment is that of an observed frame after which none but forecasts stand;
/// there is none exactly where every frame is a forecast.
pub proof fn law_newest_observed_is_the_last_one<F>(frames: Seq<RadarFrame<F>>, i: int)
    requires
        -1 <= i < frames.len(),
        i >= 0 ==> !frames[i].projected,
        forall|j: int| i < j < frames.len() ==> (#[trigger] frames[j]).projected,
    ensures
        newest_observed(frames) == (if i >= 0 {
            Some(frames[i].captured_at)
        } else {
            None
        }),
    decreases frames.len(),
{
    if frames.len() > 0 && i < frames.len() - 1 {
        assert(frames[frames.len() - 1].projected);
        let rest = frames.drop_last();
        assert forall|j: int| i < j < rest.len() implies (#[trigger] rest[j]).projected by {
            assert(frames[j].projected);
        }
        law_newest_observed_is_the_last_one(rest, i);
    }
}

/// What went wrong in announcing is said before what went wrong in polling, and either before how
/// things stand.
pub proof fn law_graver_failures_are_said_first(
    e: Seq<char>,
    other: Option<Seq<char>>,
    active: nat,
    site: Seq<char>,
    frames: nat,
)
    ensures
        alert_status(Some(e), other, active, site, frames) == "alert dispatch failed: "@ + e,
        alert_status(None, Some(e), active, site, frames) == "alert poll failed: "@ + e,
        alert_status(None, None, active, site, frames) == decimal(active) + " active | radar "@
            + site + " | "@ + decimal(frames) + " frames"@,
{
}

/// The augmentations shown are named after the base, each after a plus sign and in the order in
/// which they came.
pub proof fn law_layers_are_named_in_order(overlays: Seq<RadarProduct>, p: RadarProduct, n: int)
    requires
        n == overlays.len(),
    ensures
        extras(overlays.push(p), n + 1) == extras(overlays, n) + " + "@ + p.name(),
        extras(overlays, 0).len() == 0,
{
    lemma_extras_agree(overlays, overlays.push(p), n);
}

proof fn lemma_extras_agree(a: Seq<RadarProduct>, b: Seq<RadarProduct>, n: int)
    requires
        n <= a.len(),
        n <= b.len(),
        forall|i: int| 0 <= i < n ==> #[trigger] a[i] == b[i],
    ensures
        extras(a, n) == extras(b, n),
    decreases n,
{
    if n > 0 {
        lemma_extras_agree(a, b, n - 1);
        assert(a[n - 1] == b[n - 1]);
    }
}

/// The frame shown is live exactly where it is observed and no later one is.
pub proof fn law_live_is_the_newest_observed<F>(ring: Loop<F>)
    requires
        ring.wf(),
        ring.frames.len() > 0,
    ensures
        is_live(ring) <==> !ring.frames[ring.cursor].projected && forall|j: int|
            ring.cursor < j < ring.frames.len() ==> (#[trigger] ring.frames[j]).projected,
{
    let i = newest_at(ring.frames);
    lemma_newest_at(ring.frames);
    law_newest_observed_is_the_last_one(ring.frames, i);
    let c = ring.cursor;
    if is_live(ring) {
        assert(i >= 0);
        if i < c {
            assert(ring.frames[i].captured_at.before(ring.frames[c].captured_at));
        }
        if c < i {
            assert(ring.frames[c].captured_at.before(ring.frames[i].captured_at));
        }
    } else if !ring.frames[c].projected && forall|j: int|
        c < j < ring.frames.len() ==> (#[trigger] ring.frames[j]).projected {
        law_newest_observed_is_the_last_one(ring.frames, c);
    }
}

spec fn newest_at<F>(frames: Seq<RadarFrame<F>>) -> int
    decreases frames.len(),
{
    if frames.len() == 0 {
        -1
    } else if !frames.last().projected {
        frames.len() - 1
    } else {
        newest_at(frames.drop_last())
    }
}

proof fn lemma_newest_at<F>(frames: Seq<RadarFrame<F>>)
    ensures
        -1 <= newest_at(frames) < frames.len(),
        newest_at(frames) >= 0 ==> !frames[newest_at(frames)].projected,
        forall|j: int| newest_at(frames) < j < frames.len() ==> (#[trigger] frames[j]).projected,
    decreases frames.len(),
{
    if frames.len() > 0 && frames.last().projected {
        let rest = frames.drop_last();
        lemma_newest_at(rest);
        assert forall|j: int| newest_at(frames) < j < frames.len() implies (
        #[trigger] frames[j]).projected by {
            if j < rest.len() {
                assert(rest[j].projected);
            }
        }
    }
}

/// An action changes the status only where it asks for cells and there are none, or for another
/// horizon, which it names.
pub proof fn law_actions_are_quiet(
    status: Seq<char>,
    action: Action,
    cells: nat,
    horizon: ForecastHorizon,
)
    ensures
        (action is CellNext || action is CellPrev) && cells == 0 ==> status_after(
            status,
            action,
            cells,
            horizon,
        ) == "no storm cells detected"@,
        (action is CellNext || action is CellPrev) && cells > 0 ==> status_after(
            status,
            action,
            cells,
            horizon,
        ) == status,
        action is CycleForecast && horizon is Near ==> status_after(status, action, cells, horizon)
            == "forecast horizon "@ + "+6h"@,
        action is CycleForecast && horizon is Mid ==> status_after(status, action, cells, horizon)
            == "forecast horizon "@ + "+18h"@,
        action is CycleForecast && horizon is Long ==> status_after(status, action, cells, horizon)
            == "forecast horizon "@ + "+2h/15m"@,
        !(action is CellNext || action is CellPrev || action is CycleForecast) ==> status_after(
            status,
            action,
            cells,
            horizon,
        ) == status,
{
}

/// What is said of the radar names the site first and the tilt last, with the number of frames,
/// and how far the archive is loaded while it is.
pub proof fn law_radar_status_counts_the_frames(
    site: Seq<char>,
    progress: Seq<char>,
    frames: nat,
    tilt: Seq<char>,
)
    ensures
        radar_status(site, None, frames, tilt) == site + " | "@ + decimal(frames) + " frames | "@
            + tilt + "deg tilt"@,
        radar_status(site, Some(progress), frames, tilt) == site + " "@ + progress + " | "@
            + decimal(frames) + " frames | "@ + tilt + "deg tilt"@,
{
}

} // verus!
