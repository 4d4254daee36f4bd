//! Alerts as the feed describes them, and what they mean.

pub mod filter;
pub mod motion;
pub mod poll;
pub mod state;
pub mod vtec;

use vstd::prelude::*;
#[allow(unused_imports)]
use crate::ieee::{above64, gt64};
#[allow(unused_imports)]
use crate::text::{opt_text, same, texts};
#[allow(unused_imports)]
use crate::time::{parse_timestamp, rfc3339_moment, stamp_of, Stamp};
#[allow(unused_imports)]
use self::vtec::{all_codes, readings, VtecCode, VtecFields};

verus! {

/// A closed line of positions, each a longitude and a latitude as bit patterns of doubles.
pub type Ring = Vec<(u64, u64)>;

/// The first two numbers of every position that has at least two.
pub open spec fn ring_positions(raw: Seq<Vec<u64>>) -> Seq<(u64, u64)>
    decreases raw.len(),
{
    if raw.len() == 0 {
        Seq::empty()
    } else {
        let before = ring_positions(raw.drop_last());
        let p = raw.last()@;
        if p.len() >= 2 {
            before.push((p[0], p[1]))
        } else {
            before
        }
    }
}

/// The positions of each ring in a list.
pub open spec fn ring_views(rings: Seq<Ring>) -> Seq<Seq<(u64, u64)>> {
    rings.map_values(|r: Ring| r@)
}

fn ring_from_positions(raw: &Vec<Vec<u64>>) -> (r: Ring)
    ensures
        r@ == ring_positions(raw@),
{
    let mut out: Ring = Vec::new();
    let mut i: usize = 0;
    while i < raw.len()
        invariant
            i <= raw@.len(),
            out@ == ring_positions(raw@.take(i as int)),
        decreases raw@.len() - i,
    {
        assert(raw@.take(i + 1).drop_last() =~= raw@.take(i as int));
        if raw[i].len() >= 2 {
            out.push((raw[i][0], raw[i][1]));
        }
        i += 1;
    }
    assert(raw@.take(i as int) =~= raw@);
    out
}

/// Reads the rings of a polygon. A position may carry an elevation after its longitude and
/// latitude, which is dropped; one with fewer than two numbers is left out.
pub fn rings_from_positions(raw: &Vec<Vec<Vec<u64>>>) -> (r: Vec<Ring>)
    ensures
        ring_views(r@) == raw@.map_values(|ring: Vec<Vec<u64>>| ring_positions(ring@)),
{
    let mut out: Vec<Ring> = Vec::new();
    let mut i: usize = 0;
    while i < raw.len()
        invariant
            i == out@.len(),
            i <= raw@.len(),
            forall|k: int| 0 <= k < i ==> (#[trigger] out@[k])@ == ring_positions(raw@[k]@),
        decreases raw@.len() - i,
    {
        let ring = ring_from_positions(&raw[i]);
        out.push(ring);
        i += 1;
    }
    assert(ring_views(out@) =~= raw@.map_values(|ring: Vec<Vec<u64>>| ring_positions(ring@)));
    out
}

/// Reads the polygons of a multi-polygon.
pub fn polygons_from_positions(raw: &Vec<Vec<Vec<Vec<u64>>>>) -> (r: Vec<Vec<Ring>>)
    ensures
        r@.len() == raw@.len(),
        forall|i: int|
            0 <= i < r@.len() ==> ring_views((#[trigger] r@[i])@) == raw@[i]@.map_values(
                |ring: Vec<Vec<u64>>| ring_positions(ring@),
            ),
{
    let mut out: Vec<Vec<Ring>> = Vec::new();
    let mut i: usize = 0;
    while i < raw.len()
        invariant
            i == out@.len(),
            i <= raw@.len(),
            forall|k: int|
                0 <= k < i ==> ring_views((#[trigger] out@[k])@) == raw@[k]@.map_values(
                    |ring: Vec<Vec<u64>>| ring_positions(ring@),
                ),
        decreases raw@.len() - i,
    {
        let rings = rings_from_positions(&raw[i]);
        out.push(rings);
        i += 1;
    }
    out
}

/// The area an alert covers.
#[allow(inconsistent_fields)]
#[derive(Debug, Clone)]
pub enum Geometry {
    Polygon { coordinates: Vec<Ring> },
    MultiPolygon { coordinates: Vec<Vec<Ring>> },
    Other,
}

/// The first ring of each polygon that has one.
pub open spec fn first_rings(polygons: Seq<Vec<Ring>>) -> Seq<Ring>
    decreases polygons.len(),
{
    if polygons.len() == 0 {
        Seq::empty()
    } else {
        let before = first_rings(polygons.drop_last());
        if polygons.last()@.len() > 0 {
            before.push(polygons.last()@[0])
        } else {
            before
        }
    }
}

impl Geometry {
    /// The outer boundary of each polygon; holes are not boundaries.
    pub open spec fn outer(self) -> Seq<Ring> {
        match self {
            Geometry::Polygon { coordinates } => coordinates@.take(
                if coordinates@.len() > 0 {
                    1
                } else {
                    0
                },
            ),
            Geometry::MultiPolygon { coordinates } => first_rings(coordinates@),
            Geometry::Other => Seq::empty(),
        }
    }

    pub fn outer_rings(&self) -> (r: Vec<&Ring>)
        ensures
            r@.map_values(|x: &Ring| *x) == self.outer(),
    {
        let mut out: Vec<&Ring> = Vec::new();
        match self {
            Geometry::Polygon { coordinates } => {
                if coordinates.len() > 0 {
                    out.push(&coordinates[0]);
                }
            },
            Geometry::MultiPolygon { coordinates } => {
                let mut i: usize = 0;
                assert(out@.map_values(|x: &Ring| *x) =~= first_rings(coordinates@.take(0)));
                while i < coordinates.len()
                    invariant
                        i <= coordinates@.len(),
                        out@.map_values(|x: &Ring| *x) == first_rings(
                            coordinates@.take(i as int),
                        ),
                    decreases coordinates@.len() - i,
                {
                    let ghost before = out@.map_values(|x: &Ring| *x);
                    assert(coordinates@.take(i + 1).drop_last() =~= coordinates@.take(i as int));
                    if coordinates[i].len() > 0 {
                        out.push(&coordinates[i][0]);
                        assert(out@.map_values(|x: &Ring| *x) =~= before.push(
                            coordinates@[i as int]@[0],
                        ));
                    }
                    i += 1;
                }
                assert(coordinates@.take(i as int) =~= coordinates@);
            },
            Geometry::Other => {},
        }
        assert(out@.map_values(|x: &Ring| *x) =~= self.outer());
        out
    }
}

/// Whether the edge that ends at corner `i` crosses the latitude `lat`: one of its ends
/// lies above it and the other does not.
pub open spec fn straddles(ring: Seq<(u64, u64)>, i: int, lat: u64) -> bool {
    let j = if i == 0 {
        ring.len() - 1
    } else {
        i - 1
    };
    gt64(ring[i].1, lat) != gt64(ring[j].1, lat)
}

/// How many of the first `n` edges cross the latitude to the east of the point.
pub open spec fn crossings(ring: Seq<(u64, u64)>, lat: u64, west: Seq<bool>, n: nat) -> nat
    decreases n,
{
    if n == 0 {
        0
    } else {
        crossings(ring, lat, west, (n - 1) as nat) + (if straddles(ring, n - 1, lat) && west[n
            - 1] {
            1nat
        } else {
            0
        })
    }
}

/// Whether a point lies in a ring: a ray cast from it toward the east crosses an odd number
/// of edges.
pub open spec fn in_ring(ring: Seq<(u64, u64)>, lat: u64, west: Seq<bool>) -> bool {
    ring.len() >= 3 && crossings(ring, lat, west, ring.len()) % 2 == 1
}

/// Whether a point at the latitude `lat` lies in a ring. `west[i]` tells whether the point lies west of where the edge that ends at
/// corner `i` meets the point's latitude.
pub fn point_in_ring(ring: &Ring, lat: u64, west: &Vec<bool>) -> (r: bool)
    requires
        west@.len() == ring@.len(),
    ensures
        r == in_ring(ring@, lat, west@),
{
    let n: usize = ring.len();
    if n < 3 {
        return false;
    }
    let mut inside: bool = false;
    let mut j: usize = n - 1;
    let mut i: usize = 0;
    while i < n
        invariant
            n == ring@.len(),
            n == west@.len(),
            n >= 3,
            i <= n,
            j == (if i == 0 { n - 1 } else { i - 1 }),
            inside == (crossings(ring@, lat, west@, i as nat) % 2 == 1),
        decreases n - i,
    {
        let crosses: bool = above64(ring[i].1, lat) != above64(ring[j].1, lat);
        if crosses && west[i] {
            inside = !inside;
        }
        j = i;
        i += 1;
    }
    inside
}

/// One value of a parameter: the feed mixes texts with other JSON, which is not read.
#[derive(Debug, Clone)]
pub enum ParamValue {
    Text(String),
    Other,
}

/// A parameter with its values.
#[derive(Debug, Clone)]
pub struct Parameter {
    pub name: String,
    pub values: Vec<ParamValue>,
}

/// What an alert says of itself.
#[derive(Debug, Clone)]
pub struct Properties {
    pub id: Option<String>,
    pub event: String,
    pub certainty: Option<String>,
    pub headline: Option<String>,
    /// The action that the public should take.
    pub instruction: Option<String>,
    pub area_desc: Option<String>,
    pub expires: Option<String>,
    pub parameters: Vec<Parameter>,
}

/// The texts among the values of a parameter.
pub open spec fn text_values(values: Seq<ParamValue>) -> Seq<Seq<char>>
    decreases values.len(),
{
    if values.len() == 0 {
        Seq::empty()
    } else {
        let before = text_values(values.drop_last());
        match values.last() {
            ParamValue::Text(s) => before.push(s@),
            ParamValue::Other => before,
        }
    }
}

/// The texts of the parameter called `key`, the first of that name; none where there is
/// no such parameter.
pub open spec fn param_texts(parameters: Seq<Parameter>, key: Seq<char>) -> Seq<Seq<char>>
    decreases parameters.len(),
{
    if parameters.len() == 0 {
        Seq::empty()
    } else if parameters[0].name@ == key {
        text_values(parameters[0].values@)
    } else {
        param_texts(parameters.drop_first(), key)
    }
}

fn texts_of(values: &Vec<ParamValue>) -> (r: Vec<String>)
    ensures
        texts(r@) == text_values(values@),
{
    let mut out: Vec<String> = Vec::new();
    let mut i: usize = 0;
    assert(texts(out@) =~= text_values(values@.take(0)));
    while i < values.len()
        invariant
            i <= values@.len(),
            texts(out@) == text_values(values@.take(i as int)),
        decreases values@.len() - i,
    {
        let ghost before = texts(out@);
        assert(values@.take(i + 1).drop_last() =~= values@.take(i as int));
        match &values[i] {
            ParamValue::Text(s) => {
                out.push(s.clone());
                assert(texts(out@) =~= before.push(s@));
            },
            ParamValue::Other => {},
        }
        i += 1;
    }
    assert(values@.take(i as int) =~= values@);
    out
}

/// The first of a list of texts.
pub open spec fn first_text(list: Seq<Seq<char>>) -> Option<Seq<char>> {
    if list.len() > 0 {
        Some(list[0])
    } else {
        None
    }
}

impl Properties {
    /// The texts of a parameter.
    pub open spec fn said(self, key: Seq<char>) -> Seq<Seq<char>> {
        param_texts(self.parameters@, key)
    }

    pub fn param(&self, key: &str) -> (r: Vec<String>)
        ensures
            texts(r@) == self.said(key@),
    {
        let mut i: usize = 0;
        assert(self.parameters@.skip(0) =~= self.parameters@);
        while i < self.parameters.len()
            invariant
                i <= self.parameters@.len(),
                param_texts(self.parameters@.skip(i as int), key@) == self.said(key@),
            decreases self.parameters@.len() - i,
        {
            let ghost rest = self.parameters@.skip(i as int);
            assert(rest[0] == self.parameters@[i as int]);
            assert(rest.drop_first() =~= self.parameters@.skip(i + 1));
            if same(self.parameters[i].name.as_str(), key) {
                return texts_of(&self.parameters[i].values);
            }
            i += 1;
        }
        let r: Vec<String> = Vec::new();
        assert(texts(r@) =~= Seq::<Seq<char>>::empty());
        r
    }

    /// The first text of a parameter.
    pub fn param_first(&self, key: &str) -> (r: Option<String>)
        ensures
            opt_text(r) == first_text(self.said(key@)),
    {
        let all = self.param(key);
        if all.len() > 0 {
            assert(texts(all@)[0] == all@[0]@);
            Some(all[0].clone())
        } else {
            None
        }
    }
}

/// One entry of the feed.
#[derive(Debug, Clone)]
pub struct Feature {
    pub geometry: Option<Geometry>,
    pub properties: Properties,
}

/// The alerts in one answer of the feed.
#[derive(Debug, Clone)]
pub struct AlertCollection {
    pub features: Vec<Feature>,
}

/// The answer offered this many entries and none could be read.
#[derive(Debug, Clone, Copy, PartialEq, Eq, Structural)]
pub struct AllMalformed {
    pub offered: usize,
}

/// The entries that could be read, in order.
pub open spec fn readable(parsed: Seq<Option<Feature>>) -> Seq<Feature>
    decreases parsed.len(),
{
    if parsed.len() == 0 {
        Seq::empty()
    } else {
        match parsed.last() {
            Some(f) => readable(parsed.drop_last()).push(f),
            None => readable(parsed.drop_last()),
        }
    }
}

/// Keeps the entries that could be read and skips the others one by one. An answer that
/// offered entries of which none could be read is an error: an empty sky would clear every
/// active alert and still count as a successful poll.
pub fn features_skipping_malformed(parsed: Vec<Option<Feature>>) -> (r: Result<
    AlertCollection,
    AllMalformed,
>)
    ensures
        r is Err <==> parsed@.len() > 0 && readable(parsed@).len() == 0,
        r matches Ok(c) ==> c.features@ == readable(parsed@),
        r matches Err(e) ==> e.offered == parsed@.len(),
{
    let offered: usize = parsed.len();
    let ghost all = parsed@;
    let mut rest = parsed;
    let mut backward: Vec<Feature> = Vec::new();
    let mut kept: Vec<Feature> = Vec::new();
    assert(all.take(offered as int) =~= all);
    assert(readable(all) =~= readable(rest@) + backward@.reverse());
    while rest.len() > 0
        invariant
            readable(all) == readable(rest@) + backward@.reverse(),
        decreases rest@.len(),
    {
        let ghost was = rest@;
        let ghost held = backward@;
        match rest.pop() {
            Some(Some(f)) => {
                backward.push(f);
                assert(rest@ =~= was.drop_last());
                assert(backward@.reverse() =~= seq![f] + held.reverse());
                assert(readable(was) == readable(rest@).push(f));
                assert(readable(all) =~= readable(rest@) + backward@.reverse());
            },
            Some(None) => {
                assert(rest@ =~= was.drop_last());
            },
            None => {},
        }
    }
    assert(readable(all) =~= backward@.reverse());
    let ghost wanted = backward@.reverse();
    assert(kept@ + backward@.reverse() =~= wanted);
    while backward.len() > 0
        invariant
            kept@ + backward@.reverse() == wanted,
        decreases backward@.len(),
    {
        let ghost was = backward@;
        let ghost held = kept@;
        if let Some(f) = backward.pop() {
            kept.push(f);
            assert(was.reverse() =~= seq![f] + backward@.reverse());
            assert(kept@ + backward@.reverse() =~= held + was.reverse());
        }
    }
    assert(kept@ =~= wanted);
    if offered > 0 && kept.len() == 0 {
        return Err(AllMalformed { offered });
    }
    proof {
        if offered == 0 {
            assert(all.len() == 0);
        }
    }
    Ok(AlertCollection { features: kept })
}

/// An alert with its codes read.
#[derive(Debug, Clone)]
pub struct Alert {
    pub properties: Properties,
    pub geometry: Option<Geometry>,
    pub vtec: Vec<VtecCode>,
    /// The product carried codes of which none could be read.
    pub vtec_unparsed: bool,
}

/// The first code whose event goes on.
pub open spec fn first_live(codes: Seq<VtecFields>) -> Option<VtecFields>
    decreases codes.len(),
{
    if codes.len() == 0 {
        None
    } else if !codes[0].action.ends_event() {
        Some(codes[0])
    } else {
        first_live(codes.drop_first())
    }
}

/// The code that says what a product does: the first one whose event goes on, else the
/// first.
pub open spec fn operative(codes: Seq<VtecFields>) -> Option<VtecFields> {
    match first_live(codes) {
        Some(c) => Some(c),
        None => if codes.len() > 0 {
            Some(codes[0])
        } else {
            None
        },
    }
}

/// The reading of an optional code.
pub open spec fn code_reading(code: Option<&VtecCode>) -> Option<VtecFields> {
    match code {
        Some(c) => Some(c@),
        None => None,
    }
}

impl Alert {
    /// Whether the product carried codes of which none could be read.
    pub open spec fn unparsed(self) -> bool {
        self.vtec_unparsed
    }

    /// The code that decides.
    pub open spec fn primary(self) -> Option<VtecFields> {
        operative(readings(self.vtec@))
    }

    /// When the alert expires, where it says so in a form that can be read.
    pub open spec fn expiry(self) -> Option<Stamp> {
        match self.properties.expires {
            Some(s) => stamp_of(rfc3339_moment(s@)),
            None => None,
        }
    }

    /// Reads the codes of a feed entry.
    pub fn from_feature(feature: Feature) -> (r: Alert)
        ensures
            r.properties == feature.properties,
            r.geometry == feature.geometry,
            readings(r.vtec@) == all_codes(feature.properties.said("VTEC"@)),
            r.unparsed() == (feature.properties.said("VTEC"@).len() > 0 && r.vtec@.len() == 0),
    {
        let raw = feature.properties.param("VTEC");
        let vtec = VtecCode::parse_all(&raw);
        let vtec_unparsed: bool = raw.len() > 0 && vtec.len() == 0;
        Alert { vtec_unparsed, properties: feature.properties, geometry: feature.geometry, vtec }
    }

    /// Whether the product carried codes of which none could be read, which is not the same
    /// as carrying none.
    pub fn vtec_unparsed(&self) -> (r: bool)
        ensures
            r == self.unparsed(),
    {
        self.vtec_unparsed
    }

    /// The operative code. An upgrade carries the cancellation of the event it replaces
    /// along with the replacement, in either order.
    pub fn primary_vtec(&self) -> (r: Option<&VtecCode>)
        ensures
            code_reading(r) == self.primary(),
    {
        let ghost all = readings(self.vtec@);
        let mut i: usize = 0;
        assert(all.skip(0) =~= all);
        while i < self.vtec.len()
            invariant
                i <= self.vtec@.len(),
                all == readings(self.vtec@),
                first_live(all.skip(i as int)) == first_live(all),
            decreases self.vtec@.len() - i,
        {
            assert(all.skip(i as int)[0] == self.vtec@[i as int]@);
            assert(all.skip(i as int).drop_first() =~= all.skip(i + 1));
            if !self.vtec[i].action.terminates_event() {
                return Some(&self.vtec[i]);
            }
            i += 1;
        }
        if self.vtec.len() > 0 {
            assert(all[0] == self.vtec@[0]@);
            Some(&self.vtec[0])
        } else {
            None
        }
    }

    /// When the alert expires.
    pub fn expires_at(&self) -> (r: Option<Stamp>)
        ensures
            r == self.expiry(),
            r matches Some(t) ==> t.wf(),
    {
        match &self.properties.expires {
            Some(s) => parse_timestamp(s.as_str()),
            None => None,
        }
    }

    /// The text that describes the storm's motion.
    pub fn motion_text(&self) -> (r: Option<String>)
        ensures
            opt_text(r) == first_text(self.properties.said("eventMotionDescription"@)),
    {
        self.properties.param_first("eventMotionDescription")
    }

    pub fn max_wind_gust(&self) -> (r: Option<String>)
        ensures
            opt_text(r) == first_text(self.properties.said("maxWindGust"@)),
    {
        self.properties.param_first("maxWindGust")
    }

    pub fn max_hail_size(&self) -> (r: Option<String>)
        ensures
            opt_text(r) == first_text(self.properties.said("maxHailSize"@)),
    {
        self.properties.param_first("maxHailSize")
    }

    pub fn tornado_detection(&self) -> (r: Option<String>)
        ensures
            opt_text(r) == first_text(self.properties.said("tornadoDetection"@)),
    {
        self.properties.param_first("tornadoDetection")
    }

    /// `CONSIDERABLE` and `CATASTROPHIC` mark the gravest products.
    pub fn damage_threat(&self) -> (r: Option<String>)
        ensures
            opt_text(r) == first_text(self.properties.said("damageThreat"@)),
    {
        self.properties.param_first("damageThreat")
    }

    /// Whether `west` tells of every edge of every outer ring.
    pub open spec fn tells_edges(self, west: Seq<Vec<bool>>) -> bool {
        self.geometry matches Some(g) ==> {
            &&& west.len() == g.outer().len()
            &&& forall|k: int|
                0 <= k < west.len() ==> (#[trigger] west[k])@.len() == g.outer()[k]@.len()
        }
    }

    /// Whether the alert covers a point at the latitude `lat`: where it lies in one of the
    /// outer rings. A product without a polygon was issued for the point asked for, and
    /// covers it.
    pub open spec fn covers(self, lat: u64, west: Seq<Vec<bool>>) -> bool {
        match self.geometry {
            None => true,
            Some(g) => exists|k: int|
                0 <= k < west.len() && in_ring(g.outer()[k]@, lat, (#[trigger] west[k])@),
        }
    }

    /// Whether the alert covers a point. `west[k]` tells of each edge of the `k`th outer ring
    /// whether the point lies west of where the edge meets its latitude.
    pub fn contains(&self, lat: u64, west: &Vec<Vec<bool>>) -> (r: bool)
        requires
            self.tells_edges(west@),
        ensures
            r == self.covers(lat, west@),
    {
        match &self.geometry {
            None => true,
            Some(g) => {
                let rings = g.outer_rings();
                let ghost outer = g.outer();
                assert(rings@.len() == outer.len());
                let mut k: usize = 0;
                while k < rings.len()
                    invariant
                        k <= rings@.len(),
                        rings@.map_values(|x: &Ring| *x) == outer,
                        rings@.len() == outer.len(),
                        west@.len() == outer.len(),
                        forall|i: int|
                            0 <= i < west@.len() ==> (#[trigger] west@[i])@.len()
                                == outer[i]@.len(),
                        forall|i: int|
                            0 <= i < k ==> !in_ring(outer[i]@, lat, (#[trigger] west@[i])@),
                        self.geometry == Some(*g),
                        outer == g.outer(),
                    decreases rings@.len() - k,
                {
                    assert(rings@.map_values(|x: &Ring| *x)[k as int] == *rings@[k as int]);
                    assert(west@[k as int]@.len() == outer[k as int]@.len());
                    if point_in_ring(rings[k], lat, &west[k]) {
                        assert(in_ring(outer[k as int]@, lat, west@[k as int]@));
                        return true;
                    }
                    k += 1;
                }
                false
            },
        }
    }
}

/// A product is read as ending its event only where every code it carries ends one.
pub proof fn law_termination_needs_every_code(codes: Seq<VtecFields>)
    ensures
        operative(codes) is None <==> codes.len() == 0,
        (operative(codes) matches Some(c) && c.action.ends_event()) <==> (codes.len() > 0
            && forall|i: int| 0 <= i < codes.len() ==> (#[trigger] codes[i]).action.ends_event()),
{
    lemma_first_live(codes);
    if codes.len() > 0 && first_live(codes) is Some {
        let i = choose|i: int|
            0 <= i < codes.len() && first_live(codes) == Some(#[trigger] codes[i]);
        assert(!codes[i].action.ends_event());
    }
}

proof fn lemma_first_live(codes: Seq<VtecFields>)
    ensures
        first_live(codes) is None ==> forall|i: int|
            0 <= i < codes.len() ==> (#[trigger] codes[i]).action.ends_event(),
        first_live(codes) matches Some(c) ==> !c.action.ends_event() && exists|i: int|
            0 <= i < codes.len() && c == #[trigger] codes[i],
    decreases codes.len(),
{
    if codes.len() > 0 {
        let rest = codes.drop_first();
        lemma_first_live(rest);
        if codes[0].action.ends_event() {
            assert forall|i: int| 0 <= i < codes.len() && first_live(codes) is None implies (
            #[trigger] codes[i]).action.ends_event() by {
                if i > 0 {
                    assert(codes[i] == rest[i - 1]);
                }
            }
            if let Some(c) = first_live(rest) {
                let i = choose|i: int| 0 <= i < rest.len() && c == #[trigger] rest[i];
                assert(codes[i + 1] == c);
            }
        } else {
            assert(codes[0] == first_live(codes)->0);
        }
    }
}

/// The texts of two lists of values, one after the other, are those of the first and then those
/// of the second; what is no text leaves no trace.
pub proof fn law_texts_keep_their_order(a: Seq<ParamValue>, b: Seq<ParamValue>, s: String)
    ensures
        text_values(a + b) == text_values(a) + text_values(b),
        text_values(seq![ParamValue::Text(s)]) == seq![s@],
        text_values(seq![ParamValue::Other]).len() == 0,
    decreases b.len(),
{
    reveal_with_fuel(text_values, 2);
    let one = seq![ParamValue::Text(s)];
    assert(one.drop_last() =~= Seq::<ParamValue>::empty());
    assert(text_values(one) =~= seq![s@]);
    let none = seq![ParamValue::Other];
    assert(none.drop_last() =~= Seq::<ParamValue>::empty());
    if b.len() == 0 {
        assert(a + b =~= a);
        assert(text_values(a) + text_values(b) =~= text_values(a));
    } else {
        law_texts_keep_their_order(a, b.drop_last(), s);
        assert((a + b).drop_last() =~= a + b.drop_last());
        assert((a + b).last() == b.last());
        assert(text_values(a + b) =~= text_values(a) + text_values(b));
    }
}

/// A parameter is found by its name: it says the texts of the first of that name, and without one
/// it says nothing.
pub proof fn law_parameter_is_found_by_name(p: Seq<Parameter>, key: Seq<char>, i: int)
    requires
        0 <= i <= p.len(),
        forall|j: int| 0 <= j < i ==> (#[trigger] p[j]).name@ != key,
        i < p.len() ==> p[i].name@ == key,
    ensures
        param_texts(p, key) == (if i < p.len() {
            text_values(p[i].values@)
        } else {
            Seq::empty()
        }),
    decreases p.len(),
{
    if i > 0 {
        assert(p[0].name@ != key);
        let rest = p.drop_first();
        assert forall|j: int| 0 <= j < i - 1 implies (#[trigger] rest[j]).name@ != key by {
            assert(rest[j] == p[j + 1]);
        }
        law_parameter_is_found_by_name(rest, key, i - 1);
    }
}

/// The code that decides is the first that goes on, whatever stands around it; where all end
/// their events it is the first.
pub proof fn law_first_code_that_goes_on_decides(codes: Seq<VtecFields>, i: int)
    requires
        0 <= i < codes.len(),
        forall|j: int| 0 <= j < i ==> (#[trigger] codes[j]).action.ends_event(),
    ensures
        !codes[i].action.ends_event() ==> operative(codes) == Some(codes[i]),
        (forall|j: int| 0 <= j < codes.len() ==> (#[trigger] codes[j]).action.ends_event())
            ==> operative(codes) == Some(codes[0]),
    decreases codes.len(),
{
    lemma_first_live(codes);
    if i > 0 {
        assert(codes[0].action.ends_event());
        let rest = codes.drop_first();
        assert forall|j: int| 0 <= j < i - 1 implies (#[trigger] rest[j]).action.ends_event() by {
            assert(rest[j] == codes[j + 1]);
        }
        law_first_code_that_goes_on_decides(rest, i - 1);
        lemma_first_live(rest);
        if !codes[i].action.ends_event() {
            assert(rest[i - 1] == codes[i]);
            assert(first_live(rest) is Some) by {
                if first_live(rest) is None {
                    assert(rest[i - 1].action.ends_event());
                }
            }
        }
    }
}

/// Only outer boundaries count: of a polygon the first ring, whatever holes follow it; of several
/// polygons the outer boundaries of the one list and then of the other.
pub proof fn law_holes_are_no_boundaries(a: Seq<Vec<Ring>>, b: Seq<Vec<Ring>>, polygon: Vec<Ring>)
    ensures
        first_rings(a + b) == first_rings(a) + first_rings(b),
        polygon@.len() > 0 ==> first_rings(seq![polygon]) == seq![polygon@[0]],
        polygon@.len() > 0 ==> (Geometry::Polygon { coordinates: polygon }).outer()
            == seq![polygon@[0]],
        polygon@.len() == 0 ==> first_rings(seq![polygon]).len() == 0 && (Geometry::Polygon {
            coordinates: polygon,
        }).outer().len() == 0,
    decreases b.len(),
{
    reveal_with_fuel(first_rings, 2);
    let one = seq![polygon];
    assert(one.drop_last() =~= Seq::<Vec<Ring>>::empty());
    assert(one.last() == polygon);
    if polygon@.len() > 0 {
        assert(first_rings(one) =~= seq![polygon@[0]]);
        assert((Geometry::Polygon { coordinates: polygon }).outer() =~= seq![polygon@[0]]);
    }
    if b.len() == 0 {
        assert(a + b =~= a);
        assert(first_rings(a) + first_rings(b) =~= first_rings(a));
    } else {
        law_holes_are_no_boundaries(a, b.drop_last(), polygon);
        assert((a + b).drop_last() =~= a + b.drop_last());
        assert((a + b).last() == b.last());
        assert(first_rings(a + b) =~= first_rings(a) + first_rings(b));
    }
}

proof fn lemma_crossings_agree(ring: Seq<(u64, u64)>, lat: u64, a: Seq<bool>, b: Seq<bool>, n: nat)
    requires
        n <= ring.len(),
        a.len() == ring.len(),
        b.len() == ring.len(),
        forall|i: int| 0 <= i < n && straddles(ring, i, lat) ==> #[trigger] a[i] == b[i],
    ensures
        crossings(ring, lat, a, n) == crossings(ring, lat, b, n),
    decreases n,
{
    if n > 0 {
        lemma_crossings_agree(ring, lat, a, b, (n - 1) as nat);
        assert(straddles(ring, n - 1, lat) ==> a[n - 1] == b[n - 1]);
    }
}

proof fn lemma_crossings_differ(
    ring: Seq<(u64, u64)>,
    lat: u64,
    west: Seq<bool>,
    at: int,
    n: nat,
)
    requires
        0 <= at < n <= ring.len(),
        west.len() == ring.len(),
        straddles(ring, at, lat),
        !west[at],
    ensures
        crossings(ring, lat, west.update(at, true), n) == crossings(ring, lat, west, n) + 1,
    decreases n,
{
    let more = west.update(at, true);
    if at < n - 1 {
        lemma_crossings_differ(ring, lat, west, at, (n - 1) as nat);
        assert(more[n - 1] == west[n - 1]);
    } else {
        lemma_crossings_agree(ring, lat, more, west, (n - 1) as nat);
    }
}

/// The corner before another, going round.
pub open spec fn corner_before(ring: Seq<(u64, u64)>, i: int) -> (u64, u64) {
    ring[if i > 0 {
        i - 1
    } else {
        ring.len() - 1
    }]
}

/// A point is in a ring or out of it by the edges that cross its latitude: with one more of them
/// to the east it changes sides, what the other edges do plays no part, and with none to the east
/// it is outside. An edge crosses where one of its ends lies above the point and the other does
/// not.
pub proof fn law_each_crossing_changes_sides(
    ring: Seq<(u64, u64)>,
    lat: u64,
    west: Seq<bool>,
    at: int,
)
    requires
        ring.len() >= 3,
        west.len() == ring.len(),
        0 <= at < ring.len(),
        !west[at],
    ensures
        gt64(ring[at].1, lat) != gt64(corner_before(ring, at).1, lat) ==> in_ring(
            ring,
            lat,
            west.update(at, true),
        ) != in_ring(ring, lat, west),
        gt64(ring[at].1, lat) == gt64(corner_before(ring, at).1, lat) ==> in_ring(
            ring,
            lat,
            west.update(at, true),
        ) == in_ring(ring, lat, west),
        (forall|i: int| 0 <= i < west.len() ==> !(#[trigger] west[i])) ==> !in_ring(
            ring,
            lat,
            west,
        ),
{
    let more = west.update(at, true);
    if straddles(ring, at, lat) {
        lemma_crossings_differ(ring, lat, west, at, ring.len());
    } else {
        lemma_crossings_agree(ring, lat, more, west, ring.len());
    }
    if forall|i: int| 0 <= i < west.len() ==> !(#[trigger] west[i]) {
        lemma_no_crossing(ring, lat, west, ring.len());
    }
}

proof fn lemma_no_crossing(ring: Seq<(u64, u64)>, lat: u64, west: Seq<bool>, n: nat)
    requires
        n <= ring.len(),
        west.len() == ring.len(),
        forall|i: int| 0 <= i < west.len() ==> !(#[trigger] west[i]),
    ensures
        crossings(ring, lat, west, n) == 0,
    decreases n,
{
    if n > 0 {
        lemma_no_crossing(ring, lat, west, (n - 1) as nat);
        assert(!west[n - 1]);
    }
}

/// Entries that cannot be read are skipped one by one: those of two answers, one after the other,
/// are the readable ones of the first and then of the second.
pub proof fn law_readable_entries_keep_their_order(
    a: Seq<Option<Feature>>,
    b: Seq<Option<Feature>>,
    f: Feature,
)
    ensures
        readable(a + b) == readable(a) + readable(b),
        readable(seq![Some(f)]) == seq![f],
        readable(seq![None::<Feature>]).len() == 0,
    decreases b.len(),
{
    reveal_with_fuel(readable, 2);
    let one = seq![Some(f)];
    assert(one.drop_last() =~= Seq::<Option<Feature>>::empty());
    assert(readable(one) =~= seq![f]);
    let none = seq![None::<Feature>];
    assert(none.drop_last() =~= Seq::<Option<Feature>>::empty());
    if b.len() == 0 {
        assert(a + b =~= a);
        assert(readable(a) + readable(b) =~= readable(a));
    } else {
        law_readable_entries_keep_their_order(a, b.drop_last(), f);
        assert((a + b).drop_last() =~= a + b.drop_last());
        assert((a + b).last() == b.last());
        assert(readable(a + b) =~= readable(a) + readable(b));
    }
}

/// Positions are read longitude first, then latitude; what follows the two is dropped, and a
/// position with fewer numbers is left out and moves no other.
pub proof fn law_positions_are_longitude_then_latitude(raw: Seq<Vec<u64>>, p: Vec<u64>)
    ensures
        p@.len() >= 2 ==> ring_positions(raw.push(p)).len() == ring_positions(raw).len() + 1
            && ring_positions(raw.push(p)).last().0 == p@[0] && ring_positions(
            raw.push(p),
        ).last().1 == p@[1] && ring_positions(raw.push(p)).drop_last() == ring_positions(raw),
        p@.len() < 2 ==> ring_positions(raw.push(p)) == ring_positions(raw),
        ring_positions(Seq::<Vec<u64>>::empty()).len() == 0,
{
    assert(raw.push(p).drop_last() =~= raw);
    if p@.len() >= 2 {
        assert(ring_positions(raw.push(p)).drop_last() =~= ring_positions(raw));
    }
}

/// One outer ring that holds a point is enough for an alert to cover it, and without any it does
/// not; an alert without an area covers every point.
pub proof fn law_one_ring_is_enough(alert: Alert, lat: u64, west: Seq<Vec<bool>>, k: int)
    ensures
        alert.geometry is None ==> alert.covers(lat, west),
        0 <= k < west.len() ==> (alert.geometry matches Some(g) ==> (in_ring(
            g.outer()[k]@,
            lat,
            west[k]@,
        ) ==> alert.covers(lat, west))),
        alert.geometry matches Some(g) ==> ((forall|j: int|
            0 <= j < west.len() ==> !in_ring(g.outer()[j]@, lat, (#[trigger] west[j])@))
            ==> !alert.covers(lat, west)),
{
}

/// The first text of a list is the one it begins with.
pub proof fn law_first_text_is_the_first(s: Seq<char>, rest: Seq<Seq<char>>)
    ensures
        first_text(seq![s] + rest) == Some(s),
        first_text(Seq::empty()) is None,
{
}

} // verus!
