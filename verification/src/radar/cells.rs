//! Storm cells: the connected cores of the reflectivity field, what each one threatens, and
//! their identity from volume to volume.
//!
//! Readings are bit patterns: of singles where the radar measures, of doubles where the map
//! does.

use vstd::prelude::*;
use crate::geo::Coords;
#[allow(unused_imports)]
use crate::ieee::{
    above32, above64, at_least32, at_least64, ge32, ge64, gt32, gt64, highest_of, is_highest,
    is_least, is_top, least, lemma_highest_of, lemma_top_step, magnitude, place32, raise, top,
    total32, total64, unsigned,
};
#[allow(unused_imports)]
use crate::order::{is_order, lemma_order_is_permutation, precedes, stable_order};
#[allow(unused_imports)]
use crate::radar::cluster::{are_regions, regions};
#[allow(unused_imports)]
use crate::time::toward_zero;

verus! {

/// 40 dBZ: the reflectivity that makes a sample part of a storm core.
pub const CELL_MIN_DBZ: u32 = 0x4220_0000;

/// Fewer connected samples than this are speckle.
pub const MIN_SAMPLES: usize = 4;

/// How many cells are listed, the nearest apart.
pub const MAX_CELLS: usize = 8;

/// 75 km: cells farther from home than this are not listed.
pub const MAX_CELL_DISTANCE_KM: u64 = 0x4052_C000_0000_0000;

/// 0.85: a correlation below this, where there is rotation, is debris.
pub const TDS_MAX_CC: u32 = 0x3F59_999A;

/// 25 m/s: a velocity difference that counts as rotation.
pub const TDS_MIN_ROTATION: u32 = 0x41C8_0000;

/// 45 kg/m2 of integrated liquid: hail.
pub const HAIL_VIL: u32 = 0x4234_0000;

/// 14 km: an echo top that tells of hail.
pub const HAIL_ECHO_TOP_KM: u32 = 0x4160_0000;

/// 55 dBZ: an intense core.
pub const INTENSE_DBZ: u32 = 0x425C_0000;

/// 26 m/s: damaging wind.
pub const WIND_HAZARD_MS: u32 = 0x41D0_0000;

/// 9 km: an echo top that tells of lightning.
pub const LIGHTNING_ECHO_TOP_KM: u32 = 0x4110_0000;

/// 50 dBZ: the part of a cell whose centre is tracked.
pub const CORE_DBZ: u32 = 0x4248_0000;

/// Fewer core samples than this are a peak, not a body with a centre.
pub const MIN_CORE_SAMPLES: usize = 3;

/// How far apart, in lattice steps, two samples of one couplet may be.
pub const LOCAL_RADIUS_CELLS: i64 = 3;

/// 120 km/h: the fastest that a core moves.
pub const MAX_TRACK_SPEED_KMH: u64 = 0x405E_0000_0000_0000;

/// Twenty minutes: after a longer gap no track goes on.
pub const MAX_TRACK_GAP_MS: i64 = 1_200_000;

/// A minute and a half: over a shorter gap no motion is measured.
pub const MIN_MOTION_GAP_MS: i64 = 90_000;

/// 120 minutes: an arrival later than this is not foretold.
pub const MAX_ETA_MINUTES: u64 = 0x405E_0000_0000_0000;

/// 3 km/h: a slower motion is noise.
pub const MIN_MOTION_KMH: u64 = 0x4008_0000_0000_0000;

/// The square of the slowest motion.
pub const MIN_MOTION_SQUARED: u64 = 0x4022_0000_0000_0000;

/// What a cell brings, worst first.
#[derive(Debug, Clone, Copy, PartialEq, Eq, Structural)]
pub enum Hazard {
    Tornado,
    Hail,
    Wind,
    Lightning,
    Rain,
}

impl Hazard {
    /// The letter that stands for a hazard on the map.
    pub open spec fn sign(self) -> char {
        match self {
            Hazard::Tornado => 'T',
            Hazard::Hail => 'H',
            Hazard::Wind => 'W',
            Hazard::Lightning => 'L',
            Hazard::Rain => 'R',
        }
    }

    pub fn letter(self) -> (r: char)
        ensures
            r == self.sign(),
            self is Tornado ==> r == 'T',
            self is Hail ==> r == 'H',
            self is Wind ==> r == 'W',
            self is Lightning ==> r == 'L',
            self is Rain ==> r == 'R',
    {
        match self {
            Hazard::Tornado => 'T',
            Hazard::Hail => 'H',
            Hazard::Wind => 'W',
            Hazard::Lightning => 'L',
            Hazard::Rain => 'R',
        }
    }
}

/// How dangerous a cell is, the least first.
#[derive(Debug, Clone, Copy, PartialEq, Eq, PartialOrd, Ord, Structural)]
pub enum CellThreat {
    Strong,
    Intense,
    Hail,
    Rotation,
    Debris,
}

impl CellThreat {
    /// The word for a threat.
    pub open spec fn word(self) -> Seq<char> {
        match self {
            CellThreat::Debris => "debris"@,
            CellThreat::Rotation => "maybe rot"@,
            CellThreat::Hail => "hail"@,
            CellThreat::Intense => "intense"@,
            CellThreat::Strong => "strong"@,
        }
    }

    /// How grave a threat is.
    pub open spec fn gravity(self) -> int {
        match self {
            CellThreat::Strong => 0,
            CellThreat::Intense => 1,
            CellThreat::Hail => 2,
            CellThreat::Rotation => 3,
            CellThreat::Debris => 4,
        }
    }

    pub fn label(self) -> (r: &'static str)
        ensures
            r@ == self.word(),
            self is Debris ==> r@ == "debris"@,
            self is Rotation ==> r@ == "maybe rot"@,
            self is Hail ==> r@ == "hail"@,
            self is Intense ==> r@ == "intense"@,
            self is Strong ==> r@ == "strong"@,
    {
        match self {
            CellThreat::Debris => "debris",
            CellThreat::Rotation => "maybe rot",
            CellThreat::Hail => "hail",
            CellThreat::Intense => "intense",
            CellThreat::Strong => "strong",
        }
    }

    fn grade(self) -> (r: i64)
        ensures
            r == self.gravity(),
    {
        match self {
            CellThreat::Strong => 0,
            CellThreat::Intense => 1,
            CellThreat::Hail => 2,
            CellThreat::Rotation => 3,
            CellThreat::Debris => 4,
        }
    }
}

/// What the moments of a cell come to.
#[derive(Debug, Clone, Copy, PartialEq, Eq, Structural)]
pub struct CellStats {
    pub max_dbz: u32,
    pub rotation_ms: Option<u32>,
    pub min_cc: Option<u32>,
    pub max_vil: Option<u32>,
    pub max_echo_top_km: Option<u32>,
}

/// Whether a reading is there and no less than a bound.
pub open spec fn reaches(reading: Option<u32>, bound: u32) -> bool {
    reading matches Some(v) && ge32(v, bound)
}

fn has_reached(reading: Option<u32>, bound: u32) -> (r: bool)
    ensures
        r == reaches(reading, bound),
{
    match reading {
        Some(v) => at_least32(v, bound),
        None => false,
    }
}

/// The threat of a cell, the gravest that its moments show.
pub open spec fn threat_of(s: CellStats) -> CellThreat {
    if reaches(s.rotation_ms, TDS_MIN_ROTATION) {
        if s.min_cc matches Some(cc) && gt32(TDS_MAX_CC, cc) {
            CellThreat::Debris
        } else {
            CellThreat::Rotation
        }
    } else if reaches(s.max_vil, HAIL_VIL) || reaches(s.max_echo_top_km, HAIL_ECHO_TOP_KM) {
        CellThreat::Hail
    } else if ge32(s.max_dbz, INTENSE_DBZ) {
        CellThreat::Intense
    } else {
        CellThreat::Strong
    }
}

/// The threat of a cell.
pub fn classify(s: &CellStats) -> (r: CellThreat)
    ensures
        r == threat_of(*s),
        r is Debris || r is Rotation <==> s.rotation_ms is Some && ge32(
            s.rotation_ms->0,
            0x41C8_0000,
        ),
        r is Debris <==> s.rotation_ms is Some && ge32(s.rotation_ms->0, 0x41C8_0000)
            && s.min_cc is Some && gt32(0x3F59_999A, s.min_cc->0),
{
    let rotating: bool = has_reached(s.rotation_ms, TDS_MIN_ROTATION);
    if rotating {
        if let Some(cc) = s.min_cc {
            if above32(TDS_MAX_CC, cc) {
                return CellThreat::Debris;
            }
        }
        return CellThreat::Rotation;
    }
    if has_reached(s.max_vil, HAIL_VIL) || has_reached(s.max_echo_top_km, HAIL_ECHO_TOP_KM) {
        return CellThreat::Hail;
    }
    if at_least32(s.max_dbz, INTENSE_DBZ) {
        return CellThreat::Intense;
    }
    CellThreat::Strong
}

/// `h` where it applies.
pub open spec fn listed_if(applies: bool, h: Hazard) -> Seq<Hazard> {
    if applies {
        seq![h]
    } else {
        Seq::empty()
    }
}

/// What a cell brings.
pub open spec fn hazards_of(
    threat: CellThreat,
    speed: Option<u32>,
    top: Option<u32>,
) -> Seq<Hazard> {
    listed_if(threat is Debris || threat is Rotation, Hazard::Tornado) + listed_if(
        threat is Hail,
        Hazard::Hail,
    ) + listed_if(reaches(speed, WIND_HAZARD_MS), Hazard::Wind) + listed_if(
        reaches(top, LIGHTNING_ECHO_TOP_KM),
        Hazard::Lightning,
    ) + seq![Hazard::Rain]
}

/// What a cell brings, worst first. Every cell brings rain.
pub fn hazards(
    threat: CellThreat,
    max_abs_velocity: Option<u32>,
    max_echo_top_km: Option<u32>,
) -> (r: Vec<Hazard>)
    ensures
        r@ == hazards_of(threat, max_abs_velocity, max_echo_top_km),
{
    let mut out: Vec<Hazard> = Vec::new();
    if matches!(threat, CellThreat::Debris | CellThreat::Rotation) {
        out.push(Hazard::Tornado);
    }
    if threat == CellThreat::Hail {
        out.push(Hazard::Hail);
    }
    if has_reached(max_abs_velocity, WIND_HAZARD_MS) {
        out.push(Hazard::Wind);
    }
    if has_reached(max_echo_top_km, LIGHTNING_ECHO_TOP_KM) {
        out.push(Hazard::Lightning);
    }
    out.push(Hazard::Rain);
    assert(out@ =~= hazards_of(threat, max_abs_velocity, max_echo_top_km));
    out
}

/// Which samples of a lattice are part of a storm core.
pub open spec fn core_mask(dbz: Seq<Option<u32>>) -> Seq<bool> {
    dbz.map_values(|v: Option<u32>| reaches(v, CELL_MIN_DBZ))
}

/// The storm cores of a lattice with rows of `width` samples: the connected regions of
/// samples at or above the core reflectivity, without speckle.
pub fn storm_regions(dbz: &Vec<Option<u32>>, width: usize) -> (found: Vec<Vec<usize>>)
    requires
        width > 0,
    ensures
        are_regions(
            core_mask(dbz@),
            width as int,
            MIN_SAMPLES as nat,
            dbz@.len() as int,
            found@,
        ),
        are_regions(core_mask(dbz@), width as int, 4, dbz@.len() as int, found@),
{
    let mut mask: Vec<bool> = Vec::new();
    let mut i: usize = 0;
    while i < dbz.len()
        invariant
            i <= dbz@.len(),
            mask@ == core_mask(dbz@).take(i as int),
        decreases dbz@.len() - i,
    {
        mask.push(has_reached(dbz[i], CELL_MIN_DBZ));
        i += 1;
        assert(mask@ =~= core_mask(dbz@).take(i as int));
    }
    assert(mask@ =~= core_mask(dbz@));
    regions(&mask, width, MIN_SAMPLES)
}

/// How far apart the velocities of a sample and of the one `dx` steps east and `dy` north of
/// it are.
#[derive(Debug, Clone, Copy, PartialEq, Eq, Structural)]
pub struct Span {
    pub dx: i64,
    pub dy: i64,
    pub value: u32,
}

/// One sample of a cell with everything the volume says there.
#[derive(Debug, Clone)]
pub struct Member {
    pub ix: i64,
    pub iy: i64,
    pub dbz: u32,
    pub velocity: Option<u32>,
    /// Whether the beam is narrow enough here to resolve a couplet.
    pub resolvable: bool,
    pub spans: Vec<Span>,
    pub cc: Option<u32>,
    pub vil: Option<u32>,
    pub echo_top: Option<u32>,
}

impl Member {
    /// Whether the sample lies on a lattice.
    pub open spec fn wf(self) -> bool {
        0 <= self.ix <= 0x7FFF_FFFF && 0 <= self.iy <= 0x7FFF_FFFF
    }
}

/// The speeds of a cell's samples, toward or away from the radar.
pub open spec fn speeds(members: Seq<Member>) -> Seq<Option<u32>> {
    members.map_values(
        |m: Member|
            match m.velocity {
                Some(v) => Some(magnitude(v)),
                None => None::<u32>,
            },
    )
}

pub open spec fn vils(members: Seq<Member>) -> Seq<Option<u32>> {
    members.map_values(|m: Member| m.vil)
}

pub open spec fn tops(members: Seq<Member>) -> Seq<Option<u32>> {
    members.map_values(|m: Member| m.echo_top)
}

pub open spec fn intensities(members: Seq<Member>) -> Seq<Option<u32>> {
    members.map_values(|m: Member| Some(m.dbz))
}

/// Whether the velocity difference `k` of sample `i` tells of rotation: the sample has a
/// velocity that the beam resolves, and the other sample is near.
pub open spec fn tells_rotation(members: Seq<Member>, i: int, k: int) -> bool {
    &&& 0 <= i < members.len()
    &&& members[i].velocity is Some
    &&& members[i].resolvable
    &&& 0 <= k < members[i].spans@.len()
    &&& -LOCAL_RADIUS_CELLS <= members[i].spans@[k].dx <= LOCAL_RADIUS_CELLS
    &&& -LOCAL_RADIUS_CELLS <= members[i].spans@[k].dy <= LOCAL_RADIUS_CELLS
}

/// A couplet: the velocity difference and the lattice position between its two samples.
#[derive(Debug, Clone, Copy, PartialEq, Eq, Structural)]
pub struct Couplet {
    pub span: u32,
    pub x: i64,
    pub y: i64,
}

/// Whether `c` is the couplet of difference `k` of sample `i`.
pub open spec fn is_couplet(members: Seq<Member>, i: int, k: int, c: Couplet) -> bool {
    let s = members[i].spans@[k];
    &&& tells_rotation(members, i, k)
    &&& c.span == s.value
    &&& c.x == members[i].ix + toward_zero(s.dx as int, 2)
    &&& c.y == members[i].iy + toward_zero(s.dy as int, 2)
}

/// Whether `c` is a couplet of the cell.
pub open spec fn has_couplet(members: Seq<Member>, c: Couplet) -> bool {
    exists|i: int, k: int| #[trigger] is_couplet(members, i, k, c)
}

/// Whether `r` is a strongest couplet, or nothing where there is none.
pub open spec fn is_strongest(members: Seq<Member>, r: Option<Couplet>) -> bool {
    match r {
        None => forall|i: int, k: int| !#[trigger] tells_rotation(members, i, k),
        Some(c) => {
            &&& has_couplet(members, c)
            &&& forall|i: int, k: int| #[trigger]
                tells_rotation(members, i, k) ==> !gt32(members[i].spans@[k].value, c.span)
        },
    }
}

fn half(d: i64) -> (r: i64)
    requires
        -LOCAL_RADIUS_CELLS <= d <= LOCAL_RADIUS_CELLS,
    ensures
        r == toward_zero(d as int, 2),
{
    if d < 0 {
        -((-d) / 2)
    } else {
        d / 2
    }
}

/// Whether no difference of the samples before `i`, nor of the first `j` of sample `i`, is
/// greater than `span`.
spec fn none_stronger(members: Seq<Member>, i: int, j: int, span: u32) -> bool {
    forall|a: int, k: int| #[trigger]
        tells_rotation(members, a, k) && (a < i || (a == i && k < j)) ==> !gt32(
            members[a].spans@[k].value,
            span,
        )
}

/// Whether `r` is a strongest couplet among those of the samples before `i` and of the first
/// `j` differences of sample `i`.
spec fn strongest_so_far(members: Seq<Member>, i: int, j: int, r: Option<Couplet>) -> bool {
    match r {
        None => forall|a: int, k: int|
            (a < i || (a == i && k < j)) ==> !#[trigger] tells_rotation(members, a, k),
        Some(c) => has_couplet(members, c) && none_stronger(members, i, j, c.span),
    }
}

/// The strongest couplet of a cell. Of several equally strong ones any may be given.
pub fn strongest_couplet(members: &Vec<Member>) -> (r: Option<Couplet>)
    requires
        forall|i: int| 0 <= i < members@.len() ==> (#[trigger] members@[i]).wf(),
    ensures
        is_strongest(members@, r),
{
    let mut best: Option<Couplet> = None;
    let mut i: usize = 0;
    while i < members.len()
        invariant
            i <= members@.len(),
            forall|j: int| 0 <= j < members@.len() ==> (#[trigger] members@[j]).wf(),
            strongest_so_far(members@, i as int, 0, best),
        decreases members@.len() - i,
    {
        let m = &members[i];
        assert(members@[i as int].wf());
        let mut j: usize = 0;
        while j < m.spans.len()
            invariant
                i < members@.len(),
                m == members@[i as int],
                m.wf(),
                j <= m.spans@.len(),
                strongest_so_far(members@, i as int, j as int, best),
            decreases m.spans@.len() - j,
        {
            let s = m.spans[j];
            assert(s == members@[i as int].spans@[j as int]);
            let counts: bool = m.velocity.is_some() && m.resolvable && s.dx >= -LOCAL_RADIUS_CELLS
                && s.dx <= LOCAL_RADIUS_CELLS && s.dy >= -LOCAL_RADIUS_CELLS && s.dy
                <= LOCAL_RADIUS_CELLS;
            assert(counts == tells_rotation(members@, i as int, j as int));
            if counts {
                let stronger: bool = match best {
                    None => true,
                    Some(c) => above32(s.value, c.span),
                };
                if stronger {
                    let ghost was = best;
                    let c = Couplet { span: s.value, x: m.ix + half(s.dx), y: m.iy + half(s.dy) };
                    assert(is_couplet(members@, i as int, j as int, c));
                    best = Some(c);
                    assert forall|a: int, k: int| #[trigger]
                        tells_rotation(members@, a, k) && (a < i || (a == i && k < j
                            + 1)) implies !gt32(members@[a].spans@[k].value, c.span) by {
                        if !(a == i && k == j) {
                            assert(was is Some);
                            assert(!gt32(members@[a].spans@[k].value, was->0.span));
                            assert(gt32(c.span, was->0.span));
                        }
                    }
                    assert(none_stronger(members@, i as int, j + 1, c.span));
                    assert(has_couplet(members@, c));
                } else {
                    assert(strongest_so_far(members@, i as int, j + 1, best));
                }
            }
            j += 1;
        }
        assert(strongest_so_far(members@, i + 1, 0, best));
        i += 1;
    }
    assert(is_strongest(members@, best)) by {
        assert(forall|a: int, k: int| #[trigger] tells_rotation(members@, a, k) ==> a < i);
    }
    best
}

/// Whether a sample lies near the position of a couplet.
pub open spec fn near(m: Member, c: Couplet) -> bool {
    -LOCAL_RADIUS_CELLS <= m.ix - c.x <= LOCAL_RADIUS_CELLS && -LOCAL_RADIUS_CELLS <= m.iy - c.y
        <= LOCAL_RADIUS_CELLS
}

/// Whether `r` is the least correlation near a couplet, or nothing where there is none.
pub open spec fn is_lowest_cc(members: Seq<Member>, c: Couplet, r: Option<u32>) -> bool {
    match r {
        None => forall|i: int|
            0 <= i < members.len() && near(#[trigger] members[i], c) ==> members[i].cc is None,
        Some(v) => {
            &&& exists|i: int|
                0 <= i < members.len() && near(#[trigger] members[i], c) && members[i].cc == Some(v)
            &&& forall|i: int|
                0 <= i < members.len() && near(#[trigger] members[i], c) && members[i].cc is Some
                    ==> total32(v) <= total32(members[i].cc->0)
        },
    }
}

fn lowest_cc(members: &Vec<Member>, c: Couplet) -> (r: Option<u32>)
    requires
        forall|i: int| 0 <= i < members@.len() ==> (#[trigger] members@[i]).wf(),
        -4 <= c.x <= 0x8000_0004,
        -4 <= c.y <= 0x8000_0004,
    ensures
        is_lowest_cc(members@, c, r),
{
    let mut best: Option<u32> = None;
    let mut i: usize = 0;
    while i < members.len()
        invariant
            i <= members@.len(),
            forall|j: int| 0 <= j < members@.len() ==> (#[trigger] members@[j]).wf(),
            -4 <= c.x <= 0x8000_0004,
            -4 <= c.y <= 0x8000_0004,
            best is None ==> forall|j: int|
                0 <= j < i && near(#[trigger] members@[j], c) ==> members@[j].cc is None,
            best matches Some(v) ==> {
                &&& exists|j: int|
                    0 <= j < i && near(#[trigger] members@[j], c) && members@[j].cc == Some(v)
                &&& forall|j: int|
                    0 <= j < i && near(#[trigger] members@[j], c) && members@[j].cc is Some
                        ==> total32(v) <= total32(members@[j].cc->0)
            },
        decreases members@.len() - i,
    {
        let m = &members[i];
        assert(members@[i as int].wf());
        let ddx: i64 = m.ix - c.x;
        let ddy: i64 = m.iy - c.y;
        if ddx >= -LOCAL_RADIUS_CELLS && ddx <= LOCAL_RADIUS_CELLS && ddy >= -LOCAL_RADIUS_CELLS
            && ddy <= LOCAL_RADIUS_CELLS {
            assert(near(members@[i as int], c));
            if let Some(v) = m.cc {
                let lower: bool = match best {
                    None => true,
                    Some(b) => place32(v) < place32(b),
                };
                if lower {
                    best = Some(v);
                }
            }
        }
        i += 1;
    }
    best
}

/// What the samples of a cell come to.
#[derive(Debug, Clone, Copy, PartialEq, Eq, Structural)]
pub struct Survey {
    pub stats: CellStats,
    pub max_abs_velocity: Option<u32>,
    /// Whether any velocity could have shown rotation. Without one, no rotation means
    /// unknown rather than calm.
    pub rotation_measurable: bool,
    pub core_samples: usize,
}

/// How many samples are part of the core.
pub open spec fn core_count(members: Seq<Member>) -> nat
    decreases members.len(),
{
    if members.len() == 0 {
        0
    } else {
        core_count(members.drop_last()) + (if ge32(members.last().dbz, CORE_DBZ) {
            1nat
        } else {
            0
        })
    }
}

/// Whether a survey says what the samples of a cell come to. Debris asks for the correlation
/// at the rotation, not somewhere else in the cell.
pub open spec fn is_survey(members: Seq<Member>, s: Survey) -> bool {
    &&& highest_of(intensities(members)) == Some(s.stats.max_dbz)
    &&& highest_of(vils(members)) == s.stats.max_vil
    &&& highest_of(tops(members)) == s.stats.max_echo_top_km
    &&& is_highest(intensities(members), Some(s.stats.max_dbz))
    &&& is_highest(vils(members), s.stats.max_vil)
    &&& is_highest(tops(members), s.stats.max_echo_top_km)
    &&& is_top(speeds(members), s.max_abs_velocity)
    &&& s.core_samples == core_count(members)
    &&& s.rotation_measurable == exists|i: int|
        0 <= i < members.len() && (#[trigger] members[i]).velocity is Some && members[i].resolvable
    &&& exists|couplet: Option<Couplet>|
        {
            &&& #[trigger] is_strongest(members, couplet)
            &&& match couplet {
                None => s.stats.rotation_ms is None && s.stats.min_cc is None,
                Some(c) => s.stats.rotation_ms == Some(c.span) && is_lowest_cc(
                    members,
                    c,
                    s.stats.min_cc,
                ),
            }
        }
}

/// What the samples of a cell come to.
pub fn survey(members: &Vec<Member>) -> (r: Survey)
    requires
        members@.len() > 0,
        forall|i: int| 0 <= i < members@.len() ==> (#[trigger] members@[i]).wf(),
    ensures
        is_survey(members@, r),
{
    let mut max_dbz: Option<u32> = None;
    let mut max_vil: Option<u32> = None;
    let mut max_top: Option<u32> = None;
    let mut max_speed: Option<u32> = None;
    let mut rotation_measurable: bool = false;
    let mut core_samples: usize = 0;
    let mut i: usize = 0;
    let ghost all = members@;
    proof {
        assert(is_highest(speeds(all.take(0)), None));
    }
    while i < members.len()
        invariant
            i <= members@.len(),
            all == members@,
            core_samples <= i,
            max_dbz == highest_of(intensities(all.take(i as int))),
            max_vil == highest_of(vils(all.take(i as int))),
            max_top == highest_of(tops(all.take(i as int))),
            is_top(speeds(all.take(i as int)), max_speed),
            core_samples == core_count(all.take(i as int)),
            rotation_measurable == exists|j: int|
                0 <= j < i && (#[trigger] all[j]).velocity is Some && all[j].resolvable,
        decreases members@.len() - i,
    {
        let m = &members[i];
        let ghost seen = all.take(i as int);
        let ghost more = all.take(i + 1);
        proof {
            assert(more =~= seen.push(*m));
            assert(more.drop_last() =~= seen);
            assert(intensities(more).drop_last() =~= intensities(seen));
            assert(vils(more).drop_last() =~= vils(seen));
            assert(tops(more).drop_last() =~= tops(seen));
        }
        max_dbz = raise(max_dbz, Some(m.dbz));
        max_vil = raise(max_vil, m.vil);
        max_top = raise(max_top, m.echo_top);
        let speed: Option<u32> = match m.velocity {
            Some(v) => Some(unsigned(v)),
            None => None,
        };
        let ghost fastest = max_speed;
        assert(speeds(more) =~= speeds(seen).push(speed));
        max_speed = top(max_speed, speed);
        proof {
            lemma_top_step(speeds(seen), fastest, speed);
        }
        if m.velocity.is_some() && m.resolvable {
            assert(all[i as int].velocity is Some && all[i as int].resolvable);
            rotation_measurable = true;
        }
        if at_least32(m.dbz, CORE_DBZ) {
            core_samples += 1;
        }
        i += 1;
    }
    assert(all.take(i as int) =~= all);
    let couplet = strongest_couplet(members);
    let (rotation_ms, min_cc) = match couplet {
        Some(c) => {
            proof {
                let (a, k) = choose|a: int, k: int| #[trigger] is_couplet(all, a, k, c);
                assert(all[a].wf());
            }
            (Some(c.span), lowest_cc(members, c))
        },
        None => (None, None),
    };
    proof {
        lemma_highest_of(intensities(all));
        lemma_highest_of(vils(all));
        lemma_highest_of(tops(all));
        assert(intensities(all)[0] is Some);
        assert(is_strongest(all, couplet));
    }
    Survey {
        stats: CellStats {
            max_dbz: max_dbz.unwrap(),
            rotation_ms,
            min_cc,
            max_vil,
            max_echo_top_km: max_top,
        },
        max_abs_velocity: max_speed,
        rotation_measurable,
        core_samples,
    }
}

/// How a cell moves. The heading is where the storm goes, clockwise from north.
#[derive(Debug, Clone, Copy, PartialEq, Eq, Structural)]
pub struct CellMotion {
    pub heading_deg: u64,
    pub speed_kmh: u64,
}

/// East and north speed in km/h.
#[derive(Debug, Clone, Copy, PartialEq, Eq, Structural)]
pub struct Drift {
    pub east: u64,
    pub north: u64,
}

/// When and how near a cell passes home.
#[derive(Debug, Clone, Copy, PartialEq, Eq, Structural)]
pub struct Approach {
    pub minutes: u64,
    pub distance_km: u64,
}

/// A motion as it bears on a cell and on home: its heading, its speed and the square of its
/// speed, and after how many minutes and at what distance the cell is nearest home. Bit
/// patterns of doubles.
#[derive(Debug, Clone, Copy, PartialEq, Eq, Structural)]
pub struct Course {
    pub velocity: Drift,
    pub heading_deg: u64,
    pub speed_kmh: u64,
    pub speed_squared: u64,
    pub minutes: u64,
    pub distance_km: u64,
}

impl Course {
    /// The motion that is shown: none where it is too slow to be one.
    pub open spec fn motion(self) -> Option<CellMotion> {
        if gt64(MIN_MOTION_KMH, self.speed_kmh) {
            None
        } else {
            Some(CellMotion { heading_deg: self.heading_deg, speed_kmh: self.speed_kmh })
        }
    }

    /// The approach that is shown: none for a cell that hardly moves, that is past its nearest
    /// point, or that is too far off in time.
    pub open spec fn nearing(self) -> Option<Approach> {
        if gt64(MIN_MOTION_SQUARED, self.speed_squared) || ge64(0, self.minutes) || gt64(
            self.minutes,
            MAX_ETA_MINUTES,
        ) {
            None
        } else {
            Some(Approach { minutes: self.minutes, distance_km: self.distance_km })
        }
    }
}

/// The motion that is shown of a course.
pub fn motion_from(course: &Course) -> (r: Option<CellMotion>)
    ensures
        r == course.motion(),
{
    if above64(MIN_MOTION_KMH, course.speed_kmh) {
        return None;
    }
    Some(CellMotion { heading_deg: course.heading_deg, speed_kmh: course.speed_kmh })
}

/// The approach that is shown of a course.
pub fn approach(course: &Course) -> (r: Option<Approach>)
    ensures
        r == course.nearing(),
{
    if above64(MIN_MOTION_SQUARED, course.speed_squared) {
        return None;
    }
    if at_least64(0, course.minutes) || above64(course.minutes, MAX_ETA_MINUTES) {
        return None;
    }
    Some(Approach { minutes: course.minutes, distance_km: course.distance_km })
}

/// A storm cell.
#[derive(Debug, Clone)]
pub struct StormCell {
    /// Stable while the track lives; zero until the cell is tracked.
    pub id: u32,
    pub centroid: Coords,
    /// The point that is tracked: the centre of the core where there is one.
    pub track_point: Coords,
    pub max_dbz: u32,
    pub rotation_ms: Option<u32>,
    /// Whether rotation could have been seen.
    pub rotation_measurable: bool,
    pub min_cc: Option<u32>,
    pub max_vil: Option<u32>,
    pub max_echo_top_km: Option<u32>,
    pub distance_km: u64,
    pub bearing: &'static str,
    pub threat: CellThreat,
    pub hazards: Vec<Hazard>,
    /// How fast the track moves, once it has two fixes.
    pub velocity: Option<Drift>,
    pub motion: Option<CellMotion>,
    pub approach: Option<Approach>,
}

/// A connected core as it was found: its samples, their centre, the weight and the centre
/// of its brightest part, and where it lies from home.
#[derive(Debug, Clone)]
pub struct Sighting {
    pub members: Vec<Member>,
    pub centroid: Coords,
    pub core_weight: u64,
    pub core_centre: Coords,
    pub distance_km: u64,
    pub bearing: &'static str,
}

impl Sighting {
    /// Whether there are samples, all of them on the lattice.
    pub open spec fn wf(self) -> bool {
        &&& self.members@.len() > 0
        &&& forall|i: int| 0 <= i < self.members@.len() ==> (#[trigger] self.members@[i]).wf()
    }

    /// Whether the sighting is near enough to be listed.
    pub open spec fn near_home(self) -> bool {
        !gt64(self.distance_km, MAX_CELL_DISTANCE_KM)
    }
}

/// Whether `c` is the cell of a sighting, given what its samples come to.
pub open spec fn matches_survey(s: Sighting, v: Survey, c: StormCell) -> bool {
    &&& is_survey(s.members@, v)
    &&& c.id == 0
    &&& c.velocity is None
    &&& c.motion is None
    &&& c.approach is None
    &&& c.centroid == s.centroid
    &&& c.track_point == (if v.core_samples >= MIN_CORE_SAMPLES && gt64(s.core_weight, 0) {
        s.core_centre
    } else {
        s.centroid
    })
    &&& c.max_dbz == v.stats.max_dbz
    &&& c.rotation_ms == v.stats.rotation_ms
    &&& c.rotation_measurable == v.rotation_measurable
    &&& c.min_cc == v.stats.min_cc
    &&& c.max_vil == v.stats.max_vil
    &&& c.max_echo_top_km == v.stats.max_echo_top_km
    &&& c.distance_km == s.distance_km
    &&& c.bearing@ == s.bearing@
    &&& c.threat == threat_of(v.stats)
    &&& c.hazards@ == hazards_of(threat_of(v.stats), v.max_abs_velocity, v.stats.max_echo_top_km)
}

/// Whether `c` is the cell of a sighting.
pub open spec fn describes(s: Sighting, c: StormCell) -> bool {
    exists|v: Survey| #[trigger] matches_survey(s, v, c)
}

/// The cell of a sighting.
pub fn describe(s: &Sighting) -> (c: StormCell)
    requires
        s.wf(),
    ensures
        describes(*s, c),
{
    let v = survey(&s.members);
    let threat = classify(&v.stats);
    let track_point: Coords = if v.core_samples >= MIN_CORE_SAMPLES && above64(
        s.core_weight,
        0,
    ) {
        s.core_centre
    } else {
        s.centroid
    };
    let c = StormCell {
        id: 0,
        centroid: s.centroid,
        track_point,
        max_dbz: v.stats.max_dbz,
        rotation_ms: v.stats.rotation_ms,
        rotation_measurable: v.rotation_measurable,
        min_cc: v.stats.min_cc,
        max_vil: v.stats.max_vil,
        max_echo_top_km: v.stats.max_echo_top_km,
        distance_km: s.distance_km,
        bearing: s.bearing,
        threat,
        hazards: hazards(threat, v.max_abs_velocity, v.stats.max_echo_top_km),
        velocity: None,
        motion: None,
        approach: None,
    };
    assert(matches_survey(*s, v, c));
    c
}

/// The key by which cells are ranked: the gravest threat first, then the brightest.
pub open spec fn rank_keys(cells: Seq<StormCell>) -> Seq<(i64, i64)> {
    cells.map_values(
        |c: StormCell| ((-c.threat.gravity()) as i64, (-1 - total32(c.max_dbz)) as i64),
    )
}

/// The cells in a given order.
pub open spec fn arranged(cells: Seq<StormCell>, order: Seq<usize>) -> Seq<StormCell> {
    order.map_values(|k: usize| cells[k as int])
}

/// The distances of cells.
pub open spec fn distances(cells: Seq<StormCell>) -> Seq<u64> {
    cells.map_values(|c: StormCell| c.distance_km)
}

/// Which of the ranked cells are listed: the first few, and after them the nearest where it
/// is not among them.
pub open spec fn short_list(ranked: Seq<StormCell>, nearest: int) -> Seq<StormCell> {
    if ranked.len() <= MAX_CELLS {
        ranked
    } else if nearest >= MAX_CELLS {
        ranked.take(MAX_CELLS as int).push(ranked[nearest])
    } else {
        ranked.take(MAX_CELLS as int)
    }
}

/// Whether `r` lists `cells` in the given order, shortened, where the cell at `nearest` in
/// that order is the first of the nearest ones.
pub open spec fn lists(
    cells: Seq<StormCell>,
    order: Seq<usize>,
    nearest: int,
    r: Seq<StormCell>,
) -> bool {
    &&& is_order(rank_keys(cells), order)
    &&& cells.len() > 0 ==> is_least(distances(arranged(cells, order)), nearest)
    &&& r == short_list(arranged(cells, order), nearest)
}

/// Whether `r` lists `cells` as ranked and shortened.
pub open spec fn is_listing(cells: Seq<StormCell>, r: Seq<StormCell>) -> bool {
    exists|order: Seq<usize>, nearest: int| #[trigger] lists(cells, order, nearest, r)
}

/// Ranks the cells and shortens the list. In an outbreak the cell about to arrive matters
/// more than the strongest distant ones, so the nearest is always kept.
pub fn rank(cells: Vec<StormCell>) -> (r: Vec<StormCell>)
    ensures
        is_listing(cells@, r@),
{
    let ghost all = cells@;
    let mut keys: Vec<(i64, i64)> = Vec::new();
    let mut i: usize = 0;
    while i < cells.len()
        invariant
            i <= cells@.len(),
            cells@ == all,
            keys@ == rank_keys(all).take(i as int),
        decreases cells@.len() - i,
    {
        let grade: i64 = cells[i].threat.grade();
        let place: i64 = place32(cells[i].max_dbz);
        keys.push((-grade, -1 - place));
        i += 1;
        assert(keys@ =~= rank_keys(all).take(i as int));
    }
    assert(keys@ =~= rank_keys(all));
    let order = stable_order(&keys);
    let ghost ranked = arranged(all, order@);
    let mut slots: Vec<Option<StormCell>> = Vec::new();
    for cell in it: cells
        invariant
            it.seq() == all,
            slots@.len() == it.index(),
            forall|k: int| 0 <= k < it.index() ==> #[trigger] slots@[k] == Some(all[k]),
    {
        slots.push(Some(cell));
    }
    proof {
        lemma_order_is_permutation(keys@, order@);
    }
    let mut out: Vec<StormCell> = Vec::new();
    let mut dist: Vec<u64> = Vec::new();
    let mut j: usize = 0;
    while j < order.len()
        invariant
            j <= order@.len(),
            order@.len() == all.len(),
            order@.no_duplicates(),
            ranked == arranged(all, order@),
            slots@.len() == all.len(),
            out@ == ranked.take(j as int),
            dist@ == distances(ranked).take(j as int),
            forall|k: int| 0 <= k < order@.len() ==> (#[trigger] order@[k]) < all.len(),
            forall|k: int|
                j <= k < order@.len() ==> slots@[#[trigger] order@[k] as int] == Some(
                    all[order@[k] as int],
                ),
        decreases order@.len() - j,
    {
        let k: usize = order[j];
        assert(slots@[k as int] == Some(all[k as int]));
        let ghost before = slots@;
        let taken: Option<StormCell> = slots[k].take();
        if let Some(cell) = taken {
            dist.push(cell.distance_km);
            out.push(cell);
        }
        j += 1;
        assert(out@ =~= ranked.take(j as int));
        assert(dist@ =~= distances(ranked).take(j as int));
        assert forall|k: int| j <= k < order@.len() implies slots@[#[trigger] order@[k] as int]
            == Some(all[order@[k] as int]) by {
            assert(order@[k] != order@[j - 1]);
            assert(before[order@[k] as int] == Some(all[order@[k] as int]));
        }
    }
    assert(out@ =~= ranked);
    assert(dist@ =~= distances(ranked));
    let nearest = least(&dist);
    if out.len() > MAX_CELLS {
        let at: usize = nearest.unwrap();
        if at >= MAX_CELLS {
            let kept = out.remove(at);
            out.truncate(MAX_CELLS);
            out.push(kept);
        } else {
            out.truncate(MAX_CELLS);
        }
        assert(out@ =~= short_list(ranked, at as int));
        assert(lists(all, order@, at as int, out@));
    } else {
        proof {
            let at = match nearest {
                Some(a) => a as int,
                None => 0,
            };
            assert(out@ =~= short_list(ranked, at));
            assert(lists(all, order@, at, out@));
        }
    }
    out
}

/// The sightings near enough to be listed.
pub open spec fn nearby(sightings: Seq<Sighting>) -> Seq<Sighting>
    decreases sightings.len(),
{
    if sightings.len() == 0 {
        Seq::empty()
    } else if sightings.last().near_home() {
        nearby(sightings.drop_last()).push(sightings.last())
    } else {
        nearby(sightings.drop_last())
    }
}

/// Whether each cell describes the sighting in its place.
pub open spec fn describe_all(sightings: Seq<Sighting>, cells: Seq<StormCell>) -> bool {
    &&& cells.len() == sightings.len()
    &&& forall|i: int| 0 <= i < cells.len() ==> describes(sightings[i], #[trigger] cells[i])
}

/// The storm cells of one volume: what each sighting near enough comes to, ranked and
/// shortened.
pub fn scan(sightings: &Vec<Sighting>) -> (r: Vec<StormCell>)
    requires
        forall|i: int| 0 <= i < sightings@.len() ==> (#[trigger] sightings@[i]).wf(),
    ensures
        exists|cells: Seq<StormCell>| #[trigger]
            describe_all(nearby(sightings@), cells) && is_listing(cells, r@),
{
    let mut cells: Vec<StormCell> = Vec::new();
    let mut i: usize = 0;
    while i < sightings.len()
        invariant
            i <= sightings@.len(),
            forall|k: int| 0 <= k < sightings@.len() ==> (#[trigger] sightings@[k]).wf(),
            describe_all(nearby(sightings@.take(i as int)), cells@),
        decreases sightings@.len() - i,
    {
        assert(sightings@.take(i + 1).drop_last() =~= sightings@.take(i as int));
        assert(sightings@.take(i + 1).last() == sightings@[i as int]);
        assert(sightings@[i as int].wf());
        if !above64(sightings[i].distance_km, MAX_CELL_DISTANCE_KM) {
            let ghost before = cells@;
            let c = describe(&sightings[i]);
            cells.push(c);
            let ghost now = nearby(sightings@.take(i + 1));
            assert forall|k: int| 0 <= k < cells@.len() implies describes(
                now[k],
                #[trigger] cells@[k],
            ) by {
                if k < before.len() {
                    assert(cells@[k] == before[k]);
                }
            }
        }
        i += 1;
    }
    assert(sightings@.take(i as int) =~= sightings@);
    let ghost all = cells@;
    let r = rank(cells);
    assert(describe_all(nearby(sightings@), all) && is_listing(all, r@));
    r
}

/// The list holds the nearest cell and every cell that ranks among the first few, and no
/// more than one beyond them.
pub proof fn law_nearest_and_gravest_are_listed(cells: Seq<StormCell>, r: Seq<StormCell>)
    requires
        is_listing(cells, r),
        cells.len() <= usize::MAX,
    ensures
        r.len() <= MAX_CELLS + 1,
        cells.len() <= MAX_CELLS ==> r.len() == cells.len(),
        cells.len() > 0 ==> exists|i: int|
            0 <= i < cells.len() && r.contains(#[trigger] cells[i]) && forall|j: int|
                0 <= j < cells.len() ==> total64(cells[i].distance_km) <= total64(
                    (#[trigger] cells[j]).distance_km,
                ),
        forall|i: int, j: int|
            0 <= i < MAX_CELLS && i < j < r.len() ==> (#[trigger] r[i]).threat.gravity() >= (
            #[trigger] r[j]).threat.gravity(),
        forall|i: int|
            0 <= i < cells.len() && !r.contains(#[trigger] cells[i]) ==> forall|k: int|
                0 <= k < MAX_CELLS && k < r.len() ==> (#[trigger] r[k]).threat.gravity()
                    >= cells[i].threat.gravity(),
{
    let (order, nearest) = choose|order: Seq<usize>, nearest: int| #[trigger]
        lists(cells, order, nearest, r);
    let keys = rank_keys(cells);
    let ranked = arranged(cells, order);
    lemma_order_is_permutation(keys, order);
    assert forall|i: int, j: int| 0 <= i < j < ranked.len() implies (
    #[trigger] ranked[i]).threat.gravity() >= (#[trigger] ranked[j]).threat.gravity() by {
        assert(precedes(keys, order[i] as int, order[j] as int));
        assert(keys[order[i] as int].0 == -ranked[i].threat.gravity());
        assert(keys[order[j] as int].0 == -ranked[j].threat.gravity());
    }
    if cells.len() > 0 {
        let at = order[nearest] as int;
        assert(ranked[nearest] == cells[at]);
        assert forall|j: int| 0 <= j < cells.len() implies total64(cells[at].distance_km)
            <= total64((#[trigger] cells[j]).distance_km) by {
            assert(order.contains(j as usize));
            let k = order.index_of(j as usize);
            assert(distances(ranked)[k] == cells[j].distance_km);
            assert(distances(ranked)[nearest] == cells[at].distance_km);
        }
        assert(r.contains(cells[at])) by {
            if ranked.len() <= MAX_CELLS {
                assert(r[nearest] == cells[at]);
            } else if nearest >= MAX_CELLS {
                assert(r[MAX_CELLS as int] == cells[at]);
            } else {
                assert(r[nearest] == cells[at]);
            }
        }
    }
    assert forall|i: int, j: int| 0 <= i < MAX_CELLS && i < j < r.len() implies (
    #[trigger] r[i]).threat.gravity() >= (#[trigger] r[j]).threat.gravity() by {
        assert(r[i] == ranked[i]);
        if j < MAX_CELLS || ranked.len() <= MAX_CELLS {
            assert(r[j] == ranked[j]);
        } else {
            assert(r[j] == ranked[nearest]);
        }
    }
    assert forall|i: int| 0 <= i < cells.len() && !r.contains(#[trigger] cells[i]) implies forall|
        k: int,
    |
        0 <= k < MAX_CELLS && k < r.len() ==> (#[trigger] r[k]).threat.gravity()
            >= cells[i].threat.gravity() by {
        assert(order.contains(i as usize));
        let p = order.index_of(i as usize);
        assert(ranked[p] == cells[i]);
        if p < MAX_CELLS {
            assert(r[p] == ranked[p]);
        }
        assert forall|k: int| 0 <= k < MAX_CELLS && k < r.len() implies (
        #[trigger] r[k]).threat.gravity() >= cells[i].threat.gravity() by {
            assert(r[k] == ranked[k]);
        }
    }
}

/// The threats in order, the least first.
pub proof fn law_threats_are_graded()
    ensures
        CellThreat::Strong.gravity() < CellThreat::Intense.gravity(),
        CellThreat::Intense.gravity() < CellThreat::Hail.gravity(),
        CellThreat::Hail.gravity() < CellThreat::Rotation.gravity(),
        CellThreat::Rotation.gravity() < CellThreat::Debris.gravity(),
{
}

/// The threat of a cell is the gravest that its moments show. 25 m/s of shear is rotation
/// whatever else is there, and debris exactly where the correlation at it lies below 0.85.
/// Without it 45 kg/m2 of liquid or a top of 14 km is hail, and without those 55 dBZ is intense.
pub proof fn law_threat_is_the_gravest_shown(s: CellStats)
    ensures
        (s.rotation_ms matches Some(v) && ge32(v, 0x41C8_0000)) <==> threat_of(s).gravity()
            >= CellThreat::Rotation.gravity(),
        threat_of(s) is Debris <==> (s.rotation_ms matches Some(v) && ge32(v, 0x41C8_0000)) && (
        s.min_cc matches Some(cc) && gt32(0x3F59_999A, cc)),
        (s.max_vil matches Some(v) && ge32(v, 0x4234_0000)) ==> threat_of(s).gravity()
            >= CellThreat::Hail.gravity(),
        (s.max_echo_top_km matches Some(v) && ge32(v, 0x4160_0000)) ==> threat_of(s).gravity()
            >= CellThreat::Hail.gravity(),
        threat_of(s) is Hail ==> (s.max_vil matches Some(v) && ge32(v, 0x4234_0000)) || (
        s.max_echo_top_km matches Some(v) && ge32(v, 0x4160_0000)),
        ge32(s.max_dbz, 0x425C_0000) ==> threat_of(s).gravity() >= CellThreat::Intense.gravity(),
        threat_of(s) is Intense ==> ge32(s.max_dbz, 0x425C_0000),
{
}

/// Whether a reading is there wherever another is, and no less.
pub open spec fn no_less(a: Option<u32>, b: Option<u32>) -> bool {
    a matches Some(x) ==> b matches Some(y) && ge32(y, x)
}

/// Whether a reading is there wherever another is, and no greater.
pub open spec fn no_greater(a: Option<u32>, b: Option<u32>) -> bool {
    a matches Some(x) ==> b matches Some(y) && ge32(x, y)
}

/// A cell that shows as much or more in every moment, and no better correlation, is no lesser
/// threat: no reading hides another.
pub proof fn law_worse_readings_never_lower_the_threat(a: CellStats, b: CellStats)
    requires
        ge32(b.max_dbz, a.max_dbz),
        no_less(a.rotation_ms, b.rotation_ms),
        no_less(a.max_vil, b.max_vil),
        no_less(a.max_echo_top_km, b.max_echo_top_km),
        no_greater(a.min_cc, b.min_cc),
    ensures
        threat_of(b).gravity() >= threat_of(a).gravity(),
{
}

/// What a cell brings: a tornado exactly where it rotates or throws debris, hail where that is
/// its threat, wind from 26 m/s, lightning from a top of 9 km, and always rain. Each is named
/// once, and the worse before the lesser.
pub proof fn law_hazards_follow_the_readings(
    threat: CellThreat,
    speed: Option<u32>,
    top: Option<u32>,
)
    ensures
        ({
            let h = hazards_of(threat, speed, top);
            &&& h.contains(Hazard::Tornado) <==> threat.gravity() >= CellThreat::Rotation.gravity()
            &&& h.contains(Hazard::Hail) <==> threat is Hail
            &&& h.contains(Hazard::Wind) <==> (speed matches Some(v) && ge32(v, 0x41D0_0000))
            &&& h.contains(Hazard::Lightning) <==> (top matches Some(v) && ge32(v, 0x4110_0000))
            &&& h.len() > 0 && h.last() is Rain
            &&& forall|i: int, j: int|
                0 <= i < j < h.len() ==> {
                    &&& !((#[trigger] h[i]) is Rain)
                    &&& !((#[trigger] h[j]) is Tornado)
                    &&& h[j] is Hail ==> h[i] is Tornado
                    &&& h[j] is Wind ==> h[i] is Tornado || h[i] is Hail
                    &&& h[j] is Lightning ==> h[i] is Tornado || h[i] is Hail || h[i] is Wind
                }
        }),
{
    let h = hazards_of(threat, speed, top);
    let a = listed_if(threat is Debris || threat is Rotation, Hazard::Tornado);
    let b = listed_if(threat is Hail, Hazard::Hail);
    let c = listed_if(reaches(speed, WIND_HAZARD_MS), Hazard::Wind);
    let d = listed_if(reaches(top, LIGHTNING_ECHO_TOP_KM), Hazard::Lightning);
    let (la, lb, lc) = (a.len() as int, (a + b).len() as int, (a + b + c).len() as int);
    if a.len() > 0 {
        assert(h[0] == Hazard::Tornado);
    }
    if b.len() > 0 {
        assert(h[la] == Hazard::Hail);
    }
    if c.len() > 0 {
        assert(h[lb] == Hazard::Wind);
    }
    if d.len() > 0 {
        assert(h[lc] == Hazard::Lightning);
    }
    assert(h.last() is Rain);
}

/// Whether the difference `k` of sample `i` is one that a beam near enough resolves, between
/// samples at most three steps apart.
pub open spec fn is_local_shear(members: Seq<Member>, i: int, k: int) -> bool {
    &&& 0 <= i < members.len()
    &&& members[i].velocity is Some && members[i].resolvable
    &&& 0 <= k < members[i].spans@.len()
    &&& -3 <= members[i].spans@[k].dx <= 3 && -3 <= members[i].spans@[k].dy <= 3
}

/// A cell says what its samples show: the place of its sighting, the greatest reading of each
/// moment that any of them has, and as rotation the greatest local velocity difference. Without
/// one there is neither rotation nor a correlation at it.
pub proof fn law_cell_says_what_its_samples_show(s: Sighting, c: StormCell)
    requires
        s.wf(),
        describes(s, c),
    ensures
        c.centroid == s.centroid,
        c.distance_km == s.distance_km,
        c.bearing@ == s.bearing@,
        c.id == 0 && c.velocity is None && c.motion is None && c.approach is None,
        exists|i: int| 0 <= i < s.members@.len() && (#[trigger] s.members@[i]).dbz == c.max_dbz,
        forall|i: int|
            0 <= i < s.members@.len() ==> !gt32((#[trigger] s.members@[i]).dbz, c.max_dbz),
        c.max_vil is Some <==> exists|i: int|
            0 <= i < s.members@.len() && (#[trigger] s.members@[i]).vil is Some,
        c.max_vil is Some ==> exists|i: int|
            0 <= i < s.members@.len() && (#[trigger] s.members@[i]).vil == c.max_vil,
        forall|i: int|
            0 <= i < s.members@.len() && (#[trigger] s.members@[i]).vil is Some ==> !gt32(
                s.members@[i].vil->0,
                c.max_vil->0,
            ),
        c.max_echo_top_km is Some <==> exists|i: int|
            0 <= i < s.members@.len() && (#[trigger] s.members@[i]).echo_top is Some,
        c.max_echo_top_km is Some ==> exists|i: int|
            0 <= i < s.members@.len() && (#[trigger] s.members@[i]).echo_top == c.max_echo_top_km,
        forall|i: int|
            0 <= i < s.members@.len() && (#[trigger] s.members@[i]).echo_top is Some ==> !gt32(
                s.members@[i].echo_top->0,
                c.max_echo_top_km->0,
            ),
        c.rotation_ms is Some ==> exists|i: int, k: int| #[trigger]
            is_local_shear(s.members@, i, k) && s.members@[i].spans@[k].value == c.rotation_ms->0,
        forall|i: int, k: int| #[trigger]
            is_local_shear(s.members@, i, k) ==> c.rotation_ms is Some && !gt32(
                s.members@[i].spans@[k].value,
                c.rotation_ms->0,
            ),
        c.rotation_ms is None ==> c.min_cc is None,
        c.rotation_measurable <==> exists|i: int|
            0 <= i < s.members@.len() && (#[trigger] s.members@[i]).velocity is Some
                && s.members@[i].resolvable,
{
    let v = choose|v: Survey| #[trigger] matches_survey(s, v, c);
    let all = s.members@;
    let couplet = choose|couplet: Option<Couplet>|
        {
            &&& #[trigger] is_strongest(all, couplet)
            &&& match couplet {
                None => v.stats.rotation_ms is None && v.stats.min_cc is None,
                Some(c) => v.stats.rotation_ms == Some(c.span) && is_lowest_cc(
                    all,
                    c,
                    v.stats.min_cc,
                ),
            }
        };
    assert forall|i: int, k: int| #[trigger] is_local_shear(all, i, k) implies tells_rotation(
        all,
        i,
        k,
    ) by {}
    if let Some(p) = couplet {
        let (i, k) = choose|i: int, k: int| #[trigger] is_couplet(all, i, k, p);
        assert(is_local_shear(all, i, k));
    }
    let bright = intensities(all);
    let at = bright.index_of(Some(c.max_dbz));
    assert(bright.contains(Some(c.max_dbz)));
    assert(all[at].dbz == c.max_dbz);
    assert forall|i: int| 0 <= i < all.len() implies !gt32((#[trigger] all[i]).dbz, c.max_dbz) by {
        assert(bright[i] == Some(all[i].dbz));
    }
    assert forall|i: int| 0 <= i < all.len() && (#[trigger] all[i]).vil is Some implies c.max_vil
        is Some && !gt32(all[i].vil->0, c.max_vil->0) by {
        assert(vils(all)[i] == all[i].vil);
    }
    assert forall|i: int| 0 <= i < all.len() && (#[trigger] all[i]).echo_top is Some implies
        c.max_echo_top_km is Some && !gt32(all[i].echo_top->0, c.max_echo_top_km->0) by {
        assert(tops(all)[i] == all[i].echo_top);
    }
    if c.max_vil is Some {
        let i = vils(all).index_of(c.max_vil);
        assert(vils(all).contains(c.max_vil));
        assert(all[i].vil == c.max_vil);
    }
    if c.max_echo_top_km is Some {
        let i = tops(all).index_of(c.max_echo_top_km);
        assert(tops(all).contains(c.max_echo_top_km));
        assert(all[i].echo_top == c.max_echo_top_km);
    }
}

/// The threat and the hazards of a cell are those of the readings that it shows itself.
pub proof fn law_cell_is_graded_by_its_own_readings(s: Sighting, c: StormCell)
    requires
        describes(s, c),
    ensures
        c.threat == threat_of(
            CellStats {
                max_dbz: c.max_dbz,
                rotation_ms: c.rotation_ms,
                min_cc: c.min_cc,
                max_vil: c.max_vil,
                max_echo_top_km: c.max_echo_top_km,
            },
        ),
        exists|speed: Option<u32>|
            {
                &&& #[trigger] is_top(speeds(s.members@), speed)
                &&& c.hazards@ == hazards_of(c.threat, speed, c.max_echo_top_km)
            },
{
    let v = choose|v: Survey| #[trigger] matches_survey(s, v, c);
    assert(is_top(speeds(s.members@), v.max_abs_velocity));
}

/// The speed of a cell is that of its fastest sample, toward the radar or away from it.
pub proof fn law_speed_counts_either_way(members: Seq<Member>, speed: u32, i: int)
    requires
        is_top(speeds(members), Some(speed)),
        0 <= i < members.len(),
        members[i].velocity is Some,
    ensures
        !gt32(members[i].velocity->0, speed) || gt32(0, members[i].velocity->0),
        exists|j: int|
            0 <= j < members.len() && ((#[trigger] members[j]).velocity == Some(speed) || (
            members[j].velocity matches Some(w) && w >= 0x8000_0000 && w - 0x8000_0000 == speed)),
{
    let all = speeds(members);
    assert(all[i] is Some);
    assert(all.contains(Some(speed)));
    let j = all.index_of(Some(speed));
    assert(members[j].velocity is Some);
}

proof fn lemma_core_count_splits(members: Seq<Member>, n: int)
    requires
        0 <= n <= members.len(),
    ensures
        core_count(members) == core_count(members.take(n)) + core_count(members.skip(n)),
    decreases members.len() - n,
{
    if n == members.len() {
        assert(members.take(n) =~= members);
        assert(members.skip(n) =~= Seq::<Member>::empty());
    } else {
        lemma_core_count_splits(members.drop_last(), n);
        assert(members.drop_last().take(n) =~= members.take(n));
        assert(members.drop_last().skip(n) =~= members.skip(n).drop_last());
        assert(members.skip(n).last() == members.last());
    }
}

proof fn lemma_core_counted(members: Seq<Member>, i: int)
    requires
        0 <= i < members.len(),
        ge32(members[i].dbz, CORE_DBZ),
    ensures
        core_count(members) >= core_count(members.take(i)) + 1,
{
    lemma_core_count_splits(members, i + 1);
    assert(members.take(i + 1).drop_last() =~= members.take(i));
}

proof fn lemma_no_core(members: Seq<Member>)
    requires
        forall|i: int| 0 <= i < members.len() ==> !ge32((#[trigger] members[i]).dbz, CORE_DBZ),
    ensures
        core_count(members) == 0,
    decreases members.len(),
{
    if members.len() > 0 {
        lemma_no_core(members.drop_last());
    }
}

/// A cell with at least three samples of 50 dBZ is followed by the centre of those, and one with
/// none by its own.
pub proof fn law_core_is_followed(s: Sighting, c: StormCell, i: int, j: int, k: int)
    requires
        describes(s, c),
        0 <= i < j < k < s.members@.len(),
    ensures
        gt64(s.core_weight, 0) && ge32(s.members@[i].dbz, 0x4248_0000) && ge32(
            s.members@[j].dbz,
            0x4248_0000,
        ) && ge32(s.members@[k].dbz, 0x4248_0000) ==> c.track_point == s.core_centre,
        (forall|n: int|
            0 <= n < s.members@.len() ==> !ge32((#[trigger] s.members@[n]).dbz, 0x4248_0000))
            ==> c.track_point == s.centroid,
        c.track_point == s.core_centre || c.track_point == s.centroid,
{
    let all = s.members@;
    if ge32(all[i].dbz, CORE_DBZ) && ge32(all[j].dbz, CORE_DBZ) && ge32(all[k].dbz, CORE_DBZ) {
        lemma_core_counted(all, k);
        let a = all.take(k);
        lemma_core_counted(a, j);
        assert(a.take(j) =~= all.take(j));
        lemma_core_counted(all.take(j), i);
    }
    if forall|n: int| 0 <= n < all.len() ==> !ge32((#[trigger] all[n]).dbz, CORE_DBZ) {
        lemma_no_core(all);
    }
}

proof fn lemma_nearby(sightings: Seq<Sighting>)
    ensures
        forall|i: int|
            0 <= i < nearby(sightings).len() ==> sightings.contains(#[trigger] nearby(sightings)[i])
                && nearby(sightings)[i].near_home(),
        forall|i: int|
            0 <= i < sightings.len() && (#[trigger] sightings[i]).near_home() ==> nearby(
                sightings,
            ).contains(sightings[i]),
        nearby(sightings).len() <= sightings.len(),
    decreases sightings.len(),
{
    if sightings.len() > 0 {
        let rest = sightings.drop_last();
        lemma_nearby(rest);
        let near = nearby(sightings);
        assert forall|i: int| 0 <= i < near.len() implies sightings.contains(#[trigger] near[i])
            && near[i].near_home() by {
            if i < nearby(rest).len() {
                assert(near[i] == nearby(rest)[i]);
                let k = rest.index_of(near[i]);
                assert(sightings[k] == near[i]);
            } else {
                assert(sightings[sightings.len() - 1] == near[i]);
            }
        }
        assert forall|i: int| 0 <= i < sightings.len() && (#[trigger] sightings[i]).near_home()
            implies near.contains(sightings[i]) by {
            if i < rest.len() {
                assert(rest[i] == sightings[i]);
                let k = nearby(rest).index_of(sightings[i]);
                assert(near[k] == sightings[i]);
            } else {
                assert(near[near.len() - 1] == sightings[i]);
            }
        }
    }
}

/// Whether `c` is the cell of a sighting within 75 km of home.
pub open spec fn is_near_cell(s: Sighting, c: StormCell) -> bool {
    describes(s, c) && !gt64(s.distance_km, 0x4052_C000_0000_0000)
}

/// Every cell that a scan lists is that of a sighting within 75 km of home.
pub proof fn law_scan_lists_cells_near_home_only(
    sightings: Seq<Sighting>,
    cells: Seq<StormCell>,
    r: Seq<StormCell>,
    i: int,
) -> (k: int)
    requires
        describe_all(nearby(sightings), cells),
        is_listing(cells, r),
        0 <= i < r.len(),
    ensures
        0 <= k < sightings.len(),
        is_near_cell(sightings[k], r[i]),
{
    lemma_nearby(sightings);
    let near = nearby(sightings);
    let (order, nearest) = choose|order: Seq<usize>, nearest: int| #[trigger]
        lists(cells, order, nearest, r);
    let ranked = arranged(cells, order);
    let at = if i < MAX_CELLS || ranked.len() <= MAX_CELLS {
        i
    } else {
        nearest
    };
    assert(r[i] == ranked[at]);
    let n = order[at] as int;
    assert(describes(near[n], cells[n]));
    assert(sightings.contains(near[n]));
    sightings.index_of(near[n])
}

/// Of up to eight sightings a scan leaves out none that lies within 75 km of home.
pub proof fn law_scan_leaves_out_no_near_cell(
    sightings: Seq<Sighting>,
    cells: Seq<StormCell>,
    r: Seq<StormCell>,
    k: int,
) -> (i: int)
    requires
        describe_all(nearby(sightings), cells),
        is_listing(cells, r),
        sightings.len() <= 8,
        0 <= k < sightings.len(),
        !gt64(sightings[k].distance_km, 0x4052_C000_0000_0000),
    ensures
        0 <= i < r.len(),
        describes(sightings[k], r[i]),
{
    lemma_nearby(sightings);
    let near = nearby(sightings);
    let (order, nearest) = choose|order: Seq<usize>, nearest: int| #[trigger]
        lists(cells, order, nearest, r);
    lemma_order_is_permutation(rank_keys(cells), order);
    assert(sightings[k].near_home());
    let n = near.index_of(sightings[k]);
    assert(describes(near[n], cells[n]));
    assert(order.contains(n as usize));
    let i = order.index_of(n as usize);
    assert(r[i] == cells[n]);
    i
}

/// Of two ranked cells that threaten the same, the brighter comes first.
pub proof fn law_brighter_cells_come_first(cells: Seq<StormCell>, r: Seq<StormCell>, i: int, j: int)
    requires
        is_listing(cells, r),
        0 <= i < j < r.len(),
        j < 8,
        r[i].threat == r[j].threat,
    ensures
        total32(r[i].max_dbz) >= total32(r[j].max_dbz),
{
    let (order, nearest) = choose|order: Seq<usize>, nearest: int| #[trigger]
        lists(cells, order, nearest, r);
    let keys = rank_keys(cells);
    let ranked = arranged(cells, order);
    assert(r[i] == ranked[i]);
    assert(r[j] == ranked[j]);
    assert(precedes(keys, order[i] as int, order[j] as int));
    assert(keys[order[i] as int] == ((-ranked[i].threat.gravity()) as i64, (-1 - total32(
        ranked[i].max_dbz,
    )) as i64));
    assert(keys[order[j] as int] == ((-ranked[j].threat.gravity()) as i64, (-1 - total32(
        ranked[j].max_dbz,
    )) as i64));
}

/// A motion is shown from 3 km/h on, and with the heading and the speed of its course.
pub proof fn law_slow_drift_is_no_motion(c: Course)
    ensures
        c.motion() is None <==> gt64(0x4008_0000_0000_0000, c.speed_kmh),
        c.motion() matches Some(m) ==> m.heading_deg == c.heading_deg && m.speed_kmh
            == c.speed_kmh,
{
}

/// An approach is foretold only where the nearest point lies ahead, within two hours, of a cell
/// that moves at all; and then with the time and the distance of its course.
pub proof fn law_departing_cell_has_no_approach(c: Course)
    ensures
        ge64(0, c.minutes) ==> c.nearing() is None,
        gt64(c.minutes, 0x405E_0000_0000_0000) ==> c.nearing() is None,
        gt64(0x4022_0000_0000_0000, c.speed_squared) ==> c.nearing() is None,
        c.nearing() is None ==> ge64(0, c.minutes) || gt64(c.minutes, 0x405E_0000_0000_0000)
            || gt64(0x4022_0000_0000_0000, c.speed_squared),
        c.nearing() matches Some(a) ==> a.minutes == c.minutes && a.distance_km == c.distance_km,
{
}

/// Whether a sample lies within three steps of the middle between the two samples of a velocity
/// difference.
pub open spec fn is_at_shear(m: Member, from: Member, span: Span, x: int, y: int) -> bool {
    &&& -1 <= 2 * (x - from.ix) - span.dx <= 1
    &&& -1 <= 2 * (y - from.iy) - span.dy <= 1
    &&& -3 <= m.ix - x <= 3
    &&& -3 <= m.iy - y <= 3
}

/// The correlation of a cell is the least at its rotation: that of some sample near the middle
/// of a strongest velocity difference, and no sample there has a lesser one. A dip elsewhere in
/// the cell does not count.
pub proof fn law_correlation_is_read_at_the_rotation(s: Sighting, c: StormCell)
    requires
        s.wf(),
        describes(s, c),
        c.rotation_ms is Some,
    ensures
        exists|i: int, k: int, x: int, y: int|
            {
                &&& #[trigger] is_local_shear(s.members@, i, k)
                &&& s.members@[i].spans@[k].value == c.rotation_ms->0
                &&& #[trigger] is_read_at(s.members@, i, k, x, y, c.min_cc)
            },
{
    let v = choose|v: Survey| #[trigger] matches_survey(s, v, c);
    let all = s.members@;
    let couplet = choose|couplet: Option<Couplet>|
        {
            &&& #[trigger] is_strongest(all, couplet)
            &&& match couplet {
                None => v.stats.rotation_ms is None && v.stats.min_cc is None,
                Some(c) => v.stats.rotation_ms == Some(c.span) && is_lowest_cc(
                    all,
                    c,
                    v.stats.min_cc,
                ),
            }
        };
    let p = couplet->0;
    let (i, k) = choose|i: int, k: int| #[trigger] is_couplet(all, i, k, p);
    assert(is_local_shear(all, i, k));
    let (x, y) = (p.x as int, p.y as int);
    let span = all[i].spans@[k];
    assert(-1 <= 2 * (x - all[i].ix) - span.dx <= 1);
    assert(-1 <= 2 * (y - all[i].iy) - span.dy <= 1);
    assert forall|j: int| 0 <= j < all.len() implies #[trigger] near(all[j], p) == is_at_shear(
        all[j],
        all[i],
        span,
        x,
        y,
    ) by {}
    assert(is_read_at(all, i, k, x, y, c.min_cc)) by {
        if let Some(cc) = c.min_cc {
            let j = choose|j: int|
                0 <= j < all.len() && near(#[trigger] all[j], p) && all[j].cc == Some(cc);
            assert(is_at_shear(all[j], all[i], span, x, y));
        }
        assert forall|j: int|
            0 <= j < all.len() && is_at_shear(#[trigger] all[j], all[i], span, x, y) && all[j].cc
                is Some implies c.min_cc is Some && total32(c.min_cc->0) <= total32(
            all[j].cc->0,
        ) by {
            assert(near(all[j], p));
        }
    }
}

/// Whether `cc` is the least correlation around `(x, y)`, the middle of difference `k` of sample
/// `i`; nothing where no sample there has one.
pub open spec fn is_read_at(
    members: Seq<Member>,
    i: int,
    k: int,
    x: int,
    y: int,
    cc: Option<u32>,
) -> bool {
    let from = members[i];
    let span = members[i].spans@[k];
    &&& cc is Some ==> exists|j: int|
        0 <= j < members.len() && is_at_shear(#[trigger] members[j], from, span, x, y)
            && members[j].cc == cc
    &&& forall|j: int|
        0 <= j < members.len() && is_at_shear(#[trigger] members[j], from, span, x, y)
            && members[j].cc is Some ==> cc is Some && total32(cc->0) <= total32(members[j].cc->0)
}

/// A storm core is made of samples of 40 dBZ and more.
pub proof fn law_core_begins_at_forty_dbz(dbz: Seq<Option<u32>>, i: int)
    requires
        0 <= i < dbz.len(),
    ensures
        core_mask(dbz).len() == dbz.len(),
        core_mask(dbz)[i] <==> (dbz[i] matches Some(v) && ge32(v, 0x4220_0000)),
{
}

/// A cell is followed by its centre of area where it has no core to speak of: fewer than three
/// samples of 50 dBZ, counted one by one, or no weight in them.
pub proof fn law_small_cores_are_not_followed(
    s: Sighting,
    c: StormCell,
    a: Seq<Member>,
    m: Member,
)
    requires
        describes(s, c),
    ensures
        core_count(s.members@) < 3 ==> c.track_point == s.centroid,
        !gt64(s.core_weight, 0) ==> c.track_point == s.centroid,
        core_count(s.members@) >= 3 && gt64(s.core_weight, 0) ==> c.track_point == s.core_centre,
        core_count(a.push(m)) == core_count(a) + (if ge32(m.dbz, 0x4248_0000) {
            1nat
        } else {
            0
        }),
        core_count(Seq::<Member>::empty()) == 0,
{
    assert(a.push(m).drop_last() =~= a);
    let v = choose|v: Survey| #[trigger] matches_survey(s, v, c);
    assert(is_survey(s.members@, v));
}

/// Of more than eight cells eight are listed, or nine with the nearest; of eight or fewer all are.
pub proof fn law_eight_cells_are_listed(cells: Seq<StormCell>, r: Seq<StormCell>)
    requires
        is_listing(cells, r),
    ensures
        cells.len() <= 8 ==> r.len() == cells.len(),
        cells.len() > 8 ==> 8 <= r.len() <= 9,
{
    let (order, nearest) = choose|order: Seq<usize>, nearest: int| #[trigger]
        lists(cells, order, nearest, r);
    assert(arranged(cells, order).len() == cells.len());
}

} // verus!
