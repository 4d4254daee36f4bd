//! What a radar volume says at a point, and which archived volumes to fetch.

use vstd::prelude::*;
#[allow(unused_imports)]
use crate::ieee::{
    above32, gt32, highest_of, is_highest, is_top, lemma_highest_of, lemma_top_of, place32, raise,
    top, top_of, total32,
};
#[allow(unused_imports)]
use crate::order::{is_order, lemma_order_is_permutation, precedes, stable_order};
use crate::radar::{ColumnReduction, RadarProduct};
#[allow(unused_imports)]
use crate::text::{ends_with, is_suffix, texts};
#[allow(unused_imports)]
use crate::time::{stamp_of, Stamp, EARLIEST_SECOND, LATEST_SECOND};

verus! {

/// 18 dBZ: the weakest echo that counts toward the top of a storm.
pub const ECHO_TOP_DBZ: u32 = 0x4190_0000;

/// One gate of one moment: its value and whether the radar vouches for it.
#[derive(Debug, Clone, Copy, PartialEq, Eq, Structural)]
pub struct Gate {
    pub value: u32,
    pub valid: bool,
}

/// What one elevation cut says at a point: the moment asked for, and the correlation beside
/// it.
#[derive(Debug, Clone, Copy, PartialEq, Eq, Structural)]
pub struct TiltReading {
    pub value: Option<Gate>,
    pub correlation: Option<Gate>,
}

/// The reading of a cut. In a dual-polarisation volume a reflectivity counts only beside a
/// valid correlation that is high enough: without one it is dropped, since failing open would
/// let clutter through whichever cut lacks it. No other moment is masked.
pub open spec fn gate_reading(
    product: RadarProduct,
    r: TiltReading,
    dual_pol: bool,
    least: u32,
) -> Option<u32> {
    match r.value {
        Some(g) if g.valid => if product is Reflectivity && dual_pol {
            match r.correlation {
                Some(c) if c.valid && !gt32(least, c.value) => Some(g.value),
                _ => None,
            }
        } else {
            Some(g.value)
        },
        _ => None,
    }
}

/// The reading of one cut.
pub fn tilt_value(product: RadarProduct, r: TiltReading, dual_pol: bool, min_correlation: u32) -> (v:
    Option<u32>)
    ensures
        v == gate_reading(product, r, dual_pol, min_correlation),
{
    let gate = match r.value {
        Some(g) => g,
        None => {
            return None;
        },
    };
    if !gate.valid {
        return None;
    }
    if product == RadarProduct::Reflectivity && dual_pol {
        match r.correlation {
            Some(c) => {
                if !c.valid || above32(min_correlation, c.value) {
                    return None;
                }
            },
            None => {
                return None;
            },
        }
    }
    Some(gate.value)
}

/// The readings of the cuts of a column.
pub open spec fn column(
    product: RadarProduct,
    cuts: Seq<TiltReading>,
    dual_pol: bool,
    least: u32,
) -> Seq<Option<u32>> {
    cuts.map_values(|r: TiltReading| gate_reading(product, r, dual_pol, least))
}

/// The first reading there is.
pub open spec fn first_reading(readings: Seq<Option<u32>>) -> Option<u32>
    decreases readings.len(),
{
    if readings.len() == 0 {
        None
    } else if readings[0] is Some {
        readings[0]
    } else {
        first_reading(readings.drop_first())
    }
}

/// The value of a column whose cuts are given from the lowest up.
pub fn column_value(
    product: RadarProduct,
    cuts: &Vec<TiltReading>,
    dual_pol: bool,
    min_correlation: u32,
) -> (r: Option<u32>)
    ensures
        product.reduced_by() is Max ==> r == top_of(
            column(product, cuts@, dual_pol, min_correlation),
        ) && is_top(column(product, cuts@, dual_pol, min_correlation), r),
        product.reduced_by() is LowestCut ==> r == first_reading(
            column(product, cuts@, dual_pol, min_correlation),
        ),
        product is Velocity || product is CorrelationCoefficient || product
            is DifferentialReflectivity ==> r == first_reading(
            column(product, cuts@, dual_pol, min_correlation),
        ),
        product is Reflectivity || product is SpectrumWidth ==> r == top_of(
            column(product, cuts@, dual_pol, min_correlation),
        ),
{
    let ghost all = column(product, cuts@, dual_pol, min_correlation);
    let lowest: bool = product.reduction() == ColumnReduction::LowestCut;
    let mut best: Option<u32> = None;
    let mut i: usize = 0;
    assert(all.skip(0) =~= all);
    while i < cuts.len()
        invariant
            i <= cuts@.len(),
            all == column(product, cuts@, dual_pol, min_correlation),
            lowest == product.reduced_by() is LowestCut,
            best == top_of(all.take(i as int)),
            lowest ==> best is None,
            lowest ==> first_reading(all.skip(i as int)) == first_reading(all),
        decreases cuts@.len() - i,
    {
        let v = tilt_value(product, cuts[i], dual_pol, min_correlation);
        proof {
            assert(all[i as int] == v);
            assert(all.skip(i as int)[0] == v);
            assert(all.skip(i as int).drop_first() =~= all.skip(i + 1));
            assert(all.take(i + 1).drop_last() =~= all.take(i as int));
            assert(all.take(i + 1).last() == v);
        }
        if lowest && v.is_some() {
            return v;
        }
        best = top(best, v);
        i += 1;
    }
    assert(all.take(i as int) =~= all);
    proof {
        lemma_top_of(all);
    }
    best
}

/// The heights of the cuts that carry enough echo.
pub open spec fn echo_heights(
    cuts: Seq<TiltReading>,
    heights: Seq<u32>,
    dual_pol: bool,
    least: u32,
) -> Seq<Option<u32>> {
    Seq::new(
        cuts.len(),
        |i: int|
            match gate_reading(RadarProduct::Reflectivity, cuts[i], dual_pol, least) {
                Some(dbz) if !gt32(ECHO_TOP_DBZ, dbz) => Some(heights[i]),
                _ => None,
            },
    )
}

/// The height of the highest cut with meaningful echo, taken cut by cut from the first: a later
/// one counts only where it is higher. No such cut means no top.
pub fn echo_top(
    cuts: &Vec<TiltReading>,
    heights: &Vec<u32>,
    dual_pol: bool,
    min_correlation: u32,
) -> (r: Option<u32>)
    requires
        heights@.len() == cuts@.len(),
    ensures
        r == highest_of(echo_heights(cuts@, heights@, dual_pol, min_correlation)),
        is_highest(echo_heights(cuts@, heights@, dual_pol, min_correlation), r),
{
    let ghost all = echo_heights(cuts@, heights@, dual_pol, min_correlation);
    let mut best: Option<u32> = None;
    let mut i: usize = 0;
    while i < cuts.len()
        invariant
            i <= cuts@.len(),
            heights@.len() == cuts@.len(),
            all == echo_heights(cuts@, heights@, dual_pol, min_correlation),
            best == highest_of(all.take(i as int)),
        decreases cuts@.len() - i,
    {
        let height: Option<u32> = match tilt_value(
            RadarProduct::Reflectivity,
            cuts[i],
            dual_pol,
            min_correlation,
        ) {
            Some(dbz) => if above32(ECHO_TOP_DBZ, dbz) {
                None
            } else {
                Some(heights[i])
            },
            None => None,
        };
        proof {
            assert(all[i as int] == height);
            assert(all.take(i + 1).drop_last() =~= all.take(i as int));
            assert(all.take(i + 1).last() == height);
        }
        best = raise(best, height);
        i += 1;
    }
    assert(all.take(i as int) =~= all);
    proof {
        lemma_highest_of(all);
    }
    best
}

/// The cuts that carry any echo.
pub open spec fn echo_cuts(readings: Seq<Option<u32>>) -> Seq<usize>
    decreases readings.len(),
{
    if readings.len() == 0 {
        Seq::empty()
    } else if readings.last() is Some {
        echo_cuts(readings.drop_last()).push((readings.len() - 1) as usize)
    } else {
        echo_cuts(readings.drop_last())
    }
}

/// The cuts whose echo is integrated into liquid water. With fewer than two there is nothing
/// to integrate over.
pub fn vil_layers(cuts: &Vec<TiltReading>, dual_pol: bool, min_correlation: u32) -> (r: Option<
    Vec<usize>,
>)
    ensures
        ({
            let found = echo_cuts(
                column(RadarProduct::Reflectivity, cuts@, dual_pol, min_correlation),
            );
            &&& r is Some <==> found.len() >= 2
            &&& r matches Some(list) ==> list@ == found
        }),
{
    let ghost all = column(RadarProduct::Reflectivity, cuts@, dual_pol, min_correlation);
    let mut out: Vec<usize> = Vec::new();
    let mut i: usize = 0;
    while i < cuts.len()
        invariant
            i <= cuts@.len(),
            all == column(RadarProduct::Reflectivity, cuts@, dual_pol, min_correlation),
            out@ == echo_cuts(all.take(i as int)),
        decreases cuts@.len() - i,
    {
        let v = tilt_value(RadarProduct::Reflectivity, cuts[i], dual_pol, min_correlation);
        assert(all.take(i + 1).drop_last() =~= all.take(i as int));
        assert(all.take(i + 1).last() == v);
        if v.is_some() {
            out.push(i);
        }
        i += 1;
    }
    assert(all.take(i as int) =~= all);
    if out.len() < 2 {
        None
    } else {
        Some(out)
    }
}

/// One elevation cut with reflectivity: its elevation and which other moments it carries.
#[derive(Debug, Clone, Copy, PartialEq, Eq, Structural)]
pub struct Tilt {
    pub elevation: u32,
    pub velocity: bool,
    pub correlation: bool,
    pub differential_reflectivity: bool,
    pub spectrum_width: bool,
}

impl Tilt {
    /// Whether the cut carries a moment. Echo top and liquid water are derived from the
    /// column, not carried by a cut.
    pub open spec fn carries(self, product: RadarProduct) -> bool {
        match product {
            RadarProduct::Reflectivity => true,
            RadarProduct::Velocity => self.velocity,
            RadarProduct::CorrelationCoefficient => self.correlation,
            RadarProduct::DifferentialReflectivity => self.differential_reflectivity,
            RadarProduct::SpectrumWidth => self.spectrum_width,
            RadarProduct::EchoTop | RadarProduct::VerticallyIntegratedLiquid => false,
        }
    }

    pub fn moment(&self, product: RadarProduct) -> (r: bool)
        ensures
            r == self.carries(product),
            product is Reflectivity ==> r,
            product is Velocity ==> r == self.velocity,
            product is CorrelationCoefficient ==> r == self.correlation,
            product is DifferentialReflectivity ==> r == self.differential_reflectivity,
            product is SpectrumWidth ==> r == self.spectrum_width,
            product is EchoTop || product is VerticallyIntegratedLiquid ==> !r,
    {
        match product {
            RadarProduct::Reflectivity => true,
            RadarProduct::Velocity => self.velocity,
            RadarProduct::CorrelationCoefficient => self.correlation,
            RadarProduct::DifferentialReflectivity => self.differential_reflectivity,
            RadarProduct::SpectrumWidth => self.spectrum_width,
            RadarProduct::EchoTop | RadarProduct::VerticallyIntegratedLiquid => false,
        }
    }
}

/// Whether a volume can show a product: the derived ones need two cuts, the others one that
/// carries them.
pub open spec fn can_show(tilts: Seq<Tilt>, product: RadarProduct) -> bool {
    if product is EchoTop || product is VerticallyIntegratedLiquid {
        tilts.len() >= 2
    } else {
        exists|i: int| 0 <= i < tilts.len() && (#[trigger] tilts[i]).carries(product)
    }
}

/// Whether a volume can show a product.
pub fn supports(tilts: &Vec<Tilt>, product: RadarProduct) -> (r: bool)
    ensures
        r == can_show(tilts@, product),
{
    if product == RadarProduct::EchoTop || product == RadarProduct::VerticallyIntegratedLiquid {
        return tilts.len() >= 2;
    }
    let mut i: usize = 0;
    while i < tilts.len()
        invariant
            i <= tilts@.len(),
            forall|k: int| 0 <= k < i ==> !(#[trigger] tilts@[k]).carries(product),
        decreases tilts@.len() - i,
    {
        if tilts[i].moment(product) {
            assert(tilts@[i as int].carries(product));
            return true;
        }
        i += 1;
    }
    false
}

/// How the cuts of a volume are used: their order from the lowest up, whether the volume has
/// dual polarisation, and the elevation that is reported.
#[derive(Debug, Clone)]
pub struct Arrangement {
    pub order: Vec<usize>,
    pub dual_pol: bool,
    pub lowest_elevation: u32,
}

/// The keys by which cuts are ordered.
pub open spec fn elevation_keys(tilts: Seq<Tilt>) -> Seq<(i64, i64)> {
    tilts.map_values(|t: Tilt| (total32(t.elevation) as i64, 0i64))
}

/// Whether any cut carries correlation.
pub open spec fn has_dual_pol(tilts: Seq<Tilt>) -> bool {
    exists|i: int| 0 <= i < tilts.len() && (#[trigger] tilts[i]).correlation
}

/// Whether the mask lets a cut through.
pub open spec fn passes_mask(tilts: Seq<Tilt>, t: Tilt) -> bool {
    !has_dual_pol(tilts) || t.correlation
}

/// Whether `elevation` is that of the cut `k` places up, the lowest that the mask lets through.
pub open spec fn is_reported(tilts: Seq<Tilt>, order: Seq<usize>, k: int, elevation: u32) -> bool {
    &&& 0 <= k < order.len()
    &&& passes_mask(tilts, tilts[order[k] as int])
    &&& elevation == tilts[order[k] as int].elevation
    &&& forall|j: int| 0 <= j < k ==> !passes_mask(tilts, tilts[#[trigger] order[j] as int])
}

/// Arranges the cuts that carry reflectivity; without any there is no volume. The elevation
/// reported is the lowest that the clutter mask lets through, lest a cut be named that
/// contributes nothing.
pub fn arrange(tilts: &Vec<Tilt>) -> (r: Option<Arrangement>)
    ensures
        r is None <==> tilts@.len() == 0,
        r matches Some(a) ==> {
            &&& is_order(elevation_keys(tilts@), a.order@)
            &&& a.dual_pol == has_dual_pol(tilts@)
            &&& exists|k: int| #[trigger] is_reported(tilts@, a.order@, k, a.lowest_elevation)
        },
{
    if tilts.len() == 0 {
        return None;
    }
    let mut keys: Vec<(i64, i64)> = Vec::new();
    let mut dual_pol: bool = false;
    let mut i: usize = 0;
    while i < tilts.len()
        invariant
            i <= tilts@.len(),
            keys@ == elevation_keys(tilts@).take(i as int),
            dual_pol == exists|k: int| 0 <= k < i && (#[trigger] tilts@[k]).correlation,
        decreases tilts@.len() - i,
    {
        keys.push((place32(tilts[i].elevation), 0));
        if tilts[i].correlation {
            assert(tilts@[i as int].correlation);
            dual_pol = true;
        }
        i += 1;
        assert(keys@ =~= elevation_keys(tilts@).take(i as int));
    }
    assert(keys@ =~= elevation_keys(tilts@));
    let order = stable_order(&keys);
    proof {
        lemma_order_is_permutation(keys@, order@);
    }
    let mut k: usize = 0;
    while k < order.len()
        invariant
            k <= order@.len(),
            order@.len() == tilts@.len(),
            tilts@.len() > 0,
            dual_pol == has_dual_pol(tilts@),
            is_order(elevation_keys(tilts@), order@),
            forall|u: usize| u < tilts@.len() ==> #[trigger] order@.contains(u),
            forall|j: int| 0 <= j < k ==> !passes_mask(tilts@, tilts@[#[trigger] order@[j] as int]),
        decreases order@.len() - k,
    {
        assert(order@[k as int] < elevation_keys(tilts@).len());
        let t = tilts[order[k]];
        if !dual_pol || t.correlation {
            let lowest_elevation: u32 = t.elevation;
            let a = Arrangement { order, dual_pol, lowest_elevation };
            assert(is_reported(tilts@, a.order@, k as int, a.lowest_elevation));
            return Some(a);
        }
        k += 1;
    }
    proof {
        // Some cut passes: any, or the one that makes the volume dual-polarised.
        let p: int = if dual_pol {
            choose|p: int| 0 <= p < tilts@.len() && (#[trigger] tilts@[p]).correlation
        } else {
            0
        };
        assert(passes_mask(tilts@, tilts@[p]));
        assert(order@.contains(p as usize));
        let j = order@.index_of(p as usize);
        assert(order@[j] == p as usize);
        assert(false);
    }
    None
}

/// The moment at which an archived volume began, by the name of its object, as seconds and
/// nanoseconds; nothing where the name is not that of an archived object.
pub uninterp spec fn archive_moment(name: Seq<char>) -> Option<(i64, u32)>;

/// `nexrad::data::aws::archive::Identifier::parse`, its error dropped, and the result's
/// `date_time` taken as seconds and nanoseconds since the epoch. Both depend on the name alone,
/// and a moment lies within chrono's calendar.
#[verifier::external_body]
fn archive_name_moment(name: &str) -> (r: Option<(i64, u32)>)
    ensures
        r == archive_moment(name@),
        r matches Some(m) ==> EARLIEST_SECOND <= m.0 <= LATEST_SECOND && m.1 < 2_000_000_000,
{
    let t = nexrad::data::aws::archive::Identifier::parse(name).ok()?.date_time();
    Some((t.timestamp(), t.timestamp_subsec_nanos()))
}

/// When an archived volume began.
pub fn archive_time(name: &str) -> (r: Option<Stamp>)
    ensures
        r == stamp_of(archive_moment(name@)),
        r matches Some(t) ==> t.wf(),
{
    match archive_name_moment(name) {
        Some(p) => Some(Stamp { secs: p.0, nanos: p.1 }),
        None => None,
    }
}

/// Whether a name is that of a volume: one with a date, and not of the metadata that is kept
/// beside the volumes.
pub open spec fn is_volume(name: Seq<char>, dated: bool) -> bool {
    dated && !is_suffix(name, "_MDM"@)
}

/// The volumes among a list of names, each given with whether it is dated.
pub open spec fn volumes(names: Seq<Seq<char>>, dated: Seq<bool>) -> Seq<Seq<char>>
    decreases names.len(),
{
    if names.len() == 0 {
        Seq::empty()
    } else if is_volume(names.last(), dated[names.len() - 1]) {
        volumes(names.drop_last(), dated).push(names.last())
    } else {
        volumes(names.drop_last(), dated)
    }
}

/// The last `count` of a list.
pub open spec fn last_of<T>(list: Seq<T>, count: nat) -> Seq<T> {
    if list.len() > count {
        list.skip(list.len() - count)
    } else {
        list
    }
}

/// The newest `count` volumes among the names, given oldest first. `dated[i]` tells whether
/// the `i`th name has a date.
pub fn newest_volumes(names: &Vec<String>, dated: &Vec<bool>, count: usize) -> (r: Vec<String>)
    requires
        dated@.len() == names@.len(),
    ensures
        texts(r@) == last_of(volumes(texts(names@), dated@), count as nat),
{
    let ghost all = texts(names@);
    let mut kept: Vec<String> = Vec::new();
    let mut i: usize = 0;
    assert(texts(kept@) =~= volumes(all.take(0), dated@));
    while i < names.len()
        invariant
            i <= names@.len(),
            dated@.len() == names@.len(),
            all == texts(names@),
            texts(kept@) == volumes(all.take(i as int), dated@),
        decreases names@.len() - i,
    {
        let ghost was = texts(kept@);
        assert(all.take(i + 1).drop_last() =~= all.take(i as int));
        assert(all.take(i + 1).last() == names@[i as int]@);
        if dated[i] && !ends_with(names[i].as_str(), "_MDM") {
            kept.push(names[i].clone());
            assert(texts(kept@) =~= was.push(names@[i as int]@));
        }
        i += 1;
    }
    assert(all.take(i as int) =~= all);
    let skip: usize = kept.len().saturating_sub(count);
    let ghost found = texts(kept@);
    let mut out: Vec<String> = Vec::new();
    let mut j: usize = skip;
    assert(texts(out@) =~= found.subrange(skip as int, skip as int));
    while j < kept.len()
        invariant
            skip <= j <= kept@.len(),
            found == texts(kept@),
            texts(out@) == found.subrange(skip as int, j as int),
        decreases kept@.len() - j,
    {
        let ghost was = texts(out@);
        out.push(kept[j].clone());
        assert(texts(out@) =~= was.push(found[j as int]));
        j += 1;
        assert(texts(out@) =~= found.subrange(skip as int, j as int));
    }
    assert(texts(out@) =~= last_of(found, count as nat));
    out
}

/// Whether today's list is too short, so that yesterday's is wanted too: the archive is kept
/// by day, and shortly after midnight today alone holds almost nothing.
pub fn wants_yesterday(today: usize, count: usize) -> (r: bool)
    ensures
        r == (today < count),
{
    today < count
}

/// What the archive's names are dated.
pub open spec fn dated_names(names: Seq<Seq<char>>) -> Seq<bool> {
    names.map_values(|n: Seq<char>| archive_moment(n) is Some)
}

/// The newest `count` volumes of the archive, oldest first, from today's names and, where
/// they were fetched, yesterday's, each oldest first.
pub fn recent_archive_ids(today: &Vec<String>, yesterday: &Vec<String>, count: usize) -> (r: Vec<
    String,
>)
    ensures
        ({
            let names = if today@.len() < count {
                texts(yesterday@) + texts(today@)
            } else {
                texts(today@)
            };
            texts(r@) == last_of(volumes(names, dated_names(names)), count as nat)
        }),
{
    let mut names: Vec<String> = Vec::new();
    let mut dated: Vec<bool> = Vec::new();
    let ghost all = if today@.len() < count {
        texts(yesterday@) + texts(today@)
    } else {
        texts(today@)
    };
    assert(texts(names@) =~= Seq::<Seq<char>>::empty());
    if wants_yesterday(today.len(), count) {
        let mut i: usize = 0;
        while i < yesterday.len()
            invariant
                i <= yesterday@.len(),
                texts(names@) == texts(yesterday@).take(i as int),
                dated@ == dated_names(texts(names@)),
            decreases yesterday@.len() - i,
        {
            let ghost was = texts(names@);
            let known: bool = archive_time(yesterday[i].as_str()).is_some();
            names.push(yesterday[i].clone());
            dated.push(known);
            i += 1;
            assert(texts(names@) =~= was.push(yesterday@[i - 1]@));
            assert(texts(names@) =~= texts(yesterday@).take(i as int));
            assert(dated@ =~= dated_names(texts(names@)));
        }
        assert(texts(names@) =~= texts(yesterday@));
    }
    let ghost base = texts(names@);
    let mut j: usize = 0;
    assert(texts(names@) =~= base + texts(today@).take(0));
    while j < today.len()
        invariant
            j <= today@.len(),
            texts(names@) == base + texts(today@).take(j as int),
            dated@ == dated_names(texts(names@)),
        decreases today@.len() - j,
    {
        let ghost was = texts(names@);
        let known: bool = archive_time(today[j].as_str()).is_some();
        names.push(today[j].clone());
        dated.push(known);
        j += 1;
        assert(texts(names@) =~= was.push(today@[j - 1]@));
        assert(texts(names@) =~= base + texts(today@).take(j as int));
        assert(dated@ =~= dated_names(texts(names@)));
    }
    assert(texts(names@) =~= all);
    newest_volumes(&names, &dated, count)
}

/// When a volume was observed: by its name, else by its radials, else now.
pub fn observed_at(named: Option<Stamp>, scanned: Option<Stamp>, now: Stamp) -> (r: Stamp)
    ensures
        r == match (named, scanned) {
            (Some(t), _) => t,
            (None, Some(t)) => t,
            (None, None) => now,
        },
{
    match named {
        Some(t) => t,
        None => match scanned {
            Some(t) => t,
            None => now,
        },
    }
}

/// A reading is what a vouched-for gate says. The mask touches reflectivity alone, in volumes of
/// dual polarisation alone, and there it fails closed: no reflectivity without a valid correlation
/// that is high enough.
pub proof fn law_mask_fails_closed(product: RadarProduct, r: TiltReading, dual_pol: bool, least: u32)
    ensures
        gate_reading(product, r, dual_pol, least) matches Some(v) ==> (r.value matches Some(g)
            && g.valid && g.value == v),
        !(product is Reflectivity) || !dual_pol ==> (gate_reading(product, r, dual_pol, least)
            is Some <==> (r.value matches Some(g) && g.valid)),
        product is Reflectivity && dual_pol && r.correlation is None ==> gate_reading(
            product,
            r,
            dual_pol,
            least,
        ) is None,
        product is Reflectivity && dual_pol ==> (r.correlation matches Some(c) ==> (gate_reading(
            product,
            r,
            dual_pol,
            least,
        ) is Some <==> (r.value matches Some(g) && g.valid) && c.valid && !gt32(least, c.value))),
{
}

/// The reading of a column that is taken from the lowest cut is that of the lowest cut with one,
/// whatever the higher cuts say.
pub proof fn law_lowest_reading_counts(readings: Seq<Option<u32>>, i: int)
    requires
        0 <= i <= readings.len(),
        forall|j: int| 0 <= j < i ==> (#[trigger] readings[j]) is None,
        i < readings.len() ==> readings[i] is Some,
    ensures
        first_reading(readings) == (if i < readings.len() {
            readings[i]
        } else {
            None
        }),
    decreases readings.len(),
{
    if i > 0 {
        assert(readings[0] is None);
        let rest = readings.drop_first();
        assert forall|j: int| 0 <= j < i - 1 implies (#[trigger] rest[j]) is None by {
            assert(rest[j] == readings[j + 1]);
        }
        law_lowest_reading_counts(rest, i - 1);
    }
}

/// The top of a storm is the height of a cut whose reflectivity is 18 dBZ or more, and no such cut
/// is higher; there is a top exactly where there is such a cut.
pub proof fn law_top_is_the_highest_meaningful_echo(
    cuts: Seq<TiltReading>,
    heights: Seq<u32>,
    dual_pol: bool,
    least: u32,
    i: int,
)
    requires
        heights.len() == cuts.len(),
        0 <= i < cuts.len(),
    ensures
        ({
            let top = highest_of(echo_heights(cuts, heights, dual_pol, least));
            let dbz = gate_reading(RadarProduct::Reflectivity, cuts[i], dual_pol, least);
            &&& dbz is Some && !gt32(0x4190_0000, dbz->0) ==> top is Some && !gt32(
                heights[i],
                top->0,
            )
            &&& top matches Some(h) ==> exists|k: int|
                0 <= k < cuts.len() && #[trigger] heights[k] == h && (gate_reading(
                    RadarProduct::Reflectivity,
                    cuts[k],
                    dual_pol,
                    least,
                ) matches Some(v) && !gt32(0x4190_0000, v))
        }),
{
    let list = echo_heights(cuts, heights, dual_pol, least);
    let top = highest_of(list);
    lemma_highest_of(list);
    assert(list[i] == list[i]);
    if top is Some {
        let k = choose|k: int| 0 <= k < list.len() && list[k] == top;
        assert(heights[k] == top->0);
    }
}

/// The cuts that carry echo are listed from the lowest up, each once, and no other.
pub proof fn law_echo_cuts_are_those_with_a_reading(readings: Seq<Option<u32>>, i: int, j: int)
    requires
        readings.len() <= usize::MAX,
    ensures
        0 <= i < j < echo_cuts(readings).len() ==> echo_cuts(readings)[i] < echo_cuts(readings)[j],
        0 <= i < echo_cuts(readings).len() ==> echo_cuts(readings)[i] < readings.len()
            && readings[echo_cuts(readings)[i] as int] is Some,
        0 <= i < readings.len() && readings[i] is Some ==> echo_cuts(readings).contains(i as usize),
    decreases readings.len(),
{
    if readings.len() > 0 {
        let rest = readings.drop_last();
        let found = echo_cuts(readings);
        law_echo_cuts_are_those_with_a_reading(rest, i, j);
        if readings.last() is Some {
            let before = echo_cuts(rest);
            assert(found == before.push((readings.len() - 1) as usize));
            if 0 <= i < j < found.len() && j == before.len() {
                law_echo_cuts_are_those_with_a_reading(rest, i, i);
            }
            if 0 <= i < readings.len() - 1 && readings[i] is Some {
                let k = before.index_of(i as usize);
                assert(found[k] == i as usize);
            }
            if i == readings.len() - 1 {
                assert(found[before.len() as int] == i as usize);
            }
        }
        if 0 <= i < echo_cuts(rest).len() {
            assert(rest[echo_cuts(rest)[i] as int] == readings[echo_cuts(rest)[i] as int]);
        }
    }
}

/// The elevation that is reported is that of a cut the mask lets through, and none that it lets
/// through is lower. In a volume where any cut has correlation, those with it are let through, and
/// in another all are.
pub proof fn law_reported_cut_is_the_lowest_shown(
    tilts: Seq<Tilt>,
    order: Seq<usize>,
    k: int,
    elevation: u32,
    i: int,
    any: int,
)
    requires
        tilts.len() <= usize::MAX,
        is_order(elevation_keys(tilts), order),
        is_reported(tilts, order, k, elevation),
        0 <= i < tilts.len(),
        0 <= any < tilts.len(),
    ensures
        elevation == tilts[order[k] as int].elevation,
        tilts[any].correlation ==> tilts[order[k] as int].correlation,
        tilts[i].correlation || (forall|j: int|
            0 <= j < tilts.len() ==> !(#[trigger] tilts[j]).correlation) ==> total32(elevation)
            <= total32(tilts[i].elevation),
{
    let keys = elevation_keys(tilts);
    lemma_order_is_permutation(keys, order);
    assert(order.contains(i as usize));
    let at = order.index_of(i as usize);
    if passes_mask(tilts, tilts[i]) {
        assert(at >= k) by {
            if at < k {
                assert(!passes_mask(tilts, tilts[order[at] as int]));
            }
        }
        if k < at {
            assert(precedes(keys, order[k] as int, order[at] as int));
        }
    }
}

/// Derived products need two cuts, the others one that carries them: more cuts never take a
/// product away.
pub proof fn law_more_cuts_show_no_less(tilts: Seq<Tilt>, more: Tilt, product: RadarProduct)
    ensures
        can_show(tilts, product) ==> can_show(tilts.push(more), product),
        can_show(tilts, RadarProduct::Reflectivity) <==> tilts.len() >= 1,
        can_show(tilts, RadarProduct::EchoTop) <==> tilts.len() >= 2,
        can_show(tilts, RadarProduct::VerticallyIntegratedLiquid) <==> tilts.len() >= 2,
        more.velocity ==> can_show(tilts.push(more), RadarProduct::Velocity),
        more.correlation ==> can_show(tilts.push(more), RadarProduct::CorrelationCoefficient),
        more.differential_reflectivity ==> can_show(
            tilts.push(more),
            RadarProduct::DifferentialReflectivity,
        ),
        more.spectrum_width ==> can_show(tilts.push(more), RadarProduct::SpectrumWidth),
        can_show(tilts, RadarProduct::Velocity) ==> exists|i: int|
            0 <= i < tilts.len() && (#[trigger] tilts[i]).velocity,
        can_show(tilts, RadarProduct::CorrelationCoefficient) ==> exists|i: int|
            0 <= i < tilts.len() && (#[trigger] tilts[i]).correlation,
{
    let all = tilts.push(more);
    assert(all[tilts.len() as int] == more);
    if exists|i: int| 0 <= i < tilts.len() && (#[trigger] tilts[i]).carries(product) {
        let i = choose|i: int| 0 <= i < tilts.len() && (#[trigger] tilts[i]).carries(product);
        assert(all[i].carries(product));
    }
    if tilts.len() >= 1 {
        assert(tilts[0].carries(RadarProduct::Reflectivity));
    }
}

/// A name that comes last is among the volumes where it is dated and not that of metadata, as the
/// newest of them; the others stay as they were.
pub proof fn law_volumes_are_dated_and_no_metadata(
    names: Seq<Seq<char>>,
    dated: Seq<bool>,
    name: Seq<char>,
    has_date: bool,
)
    requires
        dated.len() == names.len(),
    ensures
        volumes(names.push(name), dated.push(has_date)) == (if has_date && !is_suffix(name, "_MDM"@) {
            volumes(names, dated).push(name)
        } else {
            volumes(names, dated)
        }),
{
    assert(names.push(name).drop_last() =~= names);
    lemma_volumes_agree(names, dated, dated.push(has_date));
}

proof fn lemma_volumes_agree(names: Seq<Seq<char>>, a: Seq<bool>, b: Seq<bool>)
    requires
        names.len() <= a.len(),
        names.len() <= b.len(),
        forall|i: int| 0 <= i < names.len() ==> #[trigger] a[i] == b[i],
    ensures
        volumes(names, a) == volumes(names, b),
    decreases names.len(),
{
    if names.len() > 0 {
        lemma_volumes_agree(names.drop_last(), a, b);
        assert(a[names.len() - 1] == b[names.len() - 1]);
    }
}

/// The last of a list are its end: as many as are asked for, or all of them.
pub proof fn law_last_of_a_list_is_its_end<T>(before: Seq<T>, list: Seq<T>)
    ensures
        last_of(before + list, list.len()) == list,
        last_of(list, before.len() + list.len()) == list,
{
    assert((before + list).skip(before.len() as int) =~= list);
}

/// A column has a reading for each cut, in the order of the cuts.
pub proof fn law_column_reads_cut_by_cut(
    product: RadarProduct,
    cuts: Seq<TiltReading>,
    dual_pol: bool,
    least: u32,
    i: int,
)
    requires
        0 <= i < cuts.len(),
    ensures
        column(product, cuts, dual_pol, least).len() == cuts.len(),
        column(product, cuts, dual_pol, least)[i] == gate_reading(
            product,
            cuts[i],
            dual_pol,
            least,
        ),
{
}

} // verus!
