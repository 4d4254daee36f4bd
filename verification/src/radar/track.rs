//! The identity of storm cells from volume to volume.

use vstd::prelude::*;
use crate::geo::Coords;
#[allow(unused_imports)]
use crate::ieee::{above64, at_least64, ge64, gt64, place64, total64};
#[allow(unused_imports)]
use crate::order::{is_order, lemma_order_is_permutation, precedes, stable_order};
#[allow(unused_imports)]
use crate::radar::cells::{
    approach, motion_from, Approach, CellMotion, Course, Drift, StormCell, MAX_TRACK_GAP_MS,
    MAX_TRACK_SPEED_KMH, MIN_MOTION_GAP_MS,
};
use crate::time::Stamp;

verus! {

/// Where a track was last seen, and how it moved.
#[derive(Debug, Clone, Copy, PartialEq, Eq, Structural)]
pub struct Fix {
    pub id: u32,
    pub centroid: Coords,
    pub velocity: Option<Drift>,
}

/// A cell against a track: how far it lies from where the track should be, how fast the track
/// would have moved to it, the cell's course with the track's own motion, where it has one,
/// and with that measurement blended in.
#[derive(Debug, Clone, Copy, PartialEq, Eq, Structural)]
pub struct PairReading {
    pub distance_km: u64,
    pub speed_kmh: u64,
    pub kept: Option<Course>,
    pub blended: Course,
}

/// The motion of a course.
pub open spec fn drift_of(course: Option<Course>) -> Option<Drift> {
    match course {
        Some(c) => Some(c.velocity),
        None => None,
    }
}

/// Whether the readings tell of every cell against every track, each kept course being that of
/// the track's own motion.
pub open spec fn are_readings(
    readings: Seq<Vec<PairReading>>,
    tracks: Seq<Fix>,
    cells: nat,
) -> bool {
    &&& readings.len() == cells
    &&& forall|c: int| 0 <= c < cells ==> (#[trigger] readings[c])@.len() == tracks.len()
    &&& forall|c: int, p: int|
        0 <= c < cells && 0 <= p < tracks.len() ==> drift_of((#[trigger] readings[c]@[p]).kept)
            == tracks[p].velocity
}

/// The pairs of cell `c` with the first `n` tracks that lie within reach.
pub open spec fn row_pairs(row: Seq<PairReading>, gate: u64, c: int, n: nat) -> Seq<(int, int)>
    decreases n,
{
    if n == 0 {
        Seq::empty()
    } else {
        let before = row_pairs(row, gate, c, (n - 1) as nat);
        if ge64(gate, row[n - 1].distance_km) {
            before.push((c, n - 1))
        } else {
            before
        }
    }
}

/// The pairs of the first `n` cells with tracks that lie within reach.
pub open spec fn gated_pairs(readings: Seq<Vec<PairReading>>, gate: u64, n: nat) -> Seq<(int, int)>
    decreases n,
{
    if n == 0 {
        Seq::empty()
    } else {
        let row = readings[n - 1]@;
        gated_pairs(readings, gate, (n - 1) as nat) + row_pairs(row, gate, n - 1, row.len())
    }
}

/// The keys by which pairs are ordered: the nearest first.
pub open spec fn pair_keys(
    readings: Seq<Vec<PairReading>>,
    pairs: Seq<(int, int)>,
) -> Seq<(i64, i64)> {
    pairs.map_values(
        |p: (int, int)| (total64(readings[p.0]@[p.1].distance_km) as i64, 0i64),
    )
}

/// The pairs in a given order.
pub open spec fn in_order(pairs: Seq<(int, int)>, order: Seq<usize>) -> Seq<(int, int)> {
    order.map_values(|k: usize| pairs[k as int])
}

/// Which track each cell goes on with: the pairs are taken in turn, and one is kept unless its
/// cell or its track is already in a pair that was kept.
pub open spec fn matching(pairs: Seq<(int, int)>) -> Map<int, int>
    decreases pairs.len(),
{
    if pairs.len() == 0 {
        Map::empty()
    } else {
        let before = matching(pairs.drop_last());
        let (c, p) = pairs.last();
        if before.contains_key(c) || before.values().contains(p) {
            before
        } else {
            before.insert(c, p)
        }
    }
}

/// Whether `m` matches cells with tracks, the nearest pairs within reach first.
pub open spec fn is_matching(
    readings: Seq<Vec<PairReading>>,
    gate: u64,
    m: Map<int, int>,
) -> bool {
    let pairs = gated_pairs(readings, gate, readings.len());
    exists|order: Seq<usize>| #[trigger]
        is_order(pair_keys(readings, pairs), order) && m == matching(in_order(pairs, order))
}

/// How many of the first `n` cells begin a track.
pub open spec fn begun(m: Map<int, int>, n: int) -> int
    decreases n,
{
    if n <= 0 {
        0
    } else {
        begun(m, n - 1) + (if m.contains_key(n - 1) {
            0int
        } else {
            1
        })
    }
}

/// The identity of cell `i`: that of its track, or the next one not yet used.
pub open spec fn id_for(tracks: Seq<Fix>, m: Map<int, int>, last: u32, i: int) -> int {
    if m.contains_key(i) {
        tracks[m[i]].id as int
    } else {
        last + begun(m, i + 1)
    }
}

/// The course of cell `i`. A track that goes on keeps its motion until enough time has passed
/// to measure it again, and where the measurement is faster than a storm moves.
pub open spec fn course_for(
    m: Map<int, int>,
    readings: Seq<Vec<PairReading>>,
    gap_ms: int,
    i: int,
) -> Option<Course> {
    if !m.contains_key(i) {
        None
    } else {
        let reading = readings[i]@[m[i]];
        if gap_ms < MIN_MOTION_GAP_MS || gt64(reading.speed_kmh, MAX_TRACK_SPEED_KMH) {
            reading.kept
        } else {
            Some(reading.blended)
        }
    }
}

/// What is shown of a course as a motion.
pub open spec fn motion_of(course: Option<Course>) -> Option<CellMotion> {
    match course {
        Some(c) => c.motion(),
        None => None,
    }
}

/// What is shown of a course as an approach.
pub open spec fn approach_of(course: Option<Course>) -> Option<Approach> {
    match course {
        Some(c) => c.nearing(),
        None => None,
    }
}

/// A cell with its identity and its course.
pub open spec fn identified(cell: StormCell, id: int, course: Option<Course>) -> StormCell {
    StormCell {
        id: id as u32,
        velocity: drift_of(course),
        motion: motion_of(course),
        approach: approach_of(course),
        ..cell
    }
}

/// Whether tracks go on across a gap.
pub open spec fn goes_on(last_at: Option<Stamp>, at: Stamp) -> bool {
    last_at matches Some(p) && 0 <= at.millis_after(p) <= MAX_TRACK_GAP_MS
}

/// The time since the last volume, in milliseconds.
pub open spec fn gap(last_at: Option<Stamp>, at: Stamp) -> int {
    match last_at {
        Some(p) => at.millis_after(p),
        None => 0,
    }
}

/// Carries cell identity between volumes.
#[derive(Debug, Clone)]
pub struct CellTracker {
    pub next_id: u32,
    pub previous: Vec<Fix>,
    pub last_at: Option<Stamp>,
}

/// Whether no two tracks share an identity and each has one that was given, of which zero is
/// none.
pub open spec fn ids_differ(tracks: Seq<Fix>, last: u32) -> bool {
    &&& forall|i: int, j: int|
        0 <= i < tracks.len() && 0 <= j < tracks.len() && i != j ==> (#[trigger] tracks[i]).id != (
        #[trigger] tracks[j]).id
    &&& forall|i: int| 0 <= i < tracks.len() ==> 1 <= (#[trigger] tracks[i]).id <= last
}

/// Whether a track has an identity.
pub open spec fn is_track_id(tracks: Seq<Fix>, id: u32) -> bool {
    exists|p: int| 0 <= p < tracks.len() && (#[trigger] tracks[p]).id == id
}

impl Default for CellTracker {
    fn default() -> (r: CellTracker)
        ensures
            r.next_id == 0,
            r.previous@.len() == 0,
            r.last_at is None,
            r.wf(),
    {
        CellTracker { next_id: 0, previous: Vec::new(), last_at: None }
    }
}

impl CellTracker {
    /// What every tracker satisfies.
    pub open spec fn wf(self) -> bool {
        &&& ids_differ(self.previous@, self.next_id)
        &&& self.last_at matches Some(t) ==> t.wf()
    }

    /// The tracks that can go on at `at`.
    pub open spec fn live(self, at: Stamp) -> Seq<Fix> {
        if goes_on(self.last_at, at) {
            self.previous@
        } else {
            Seq::empty()
        }
    }

    fn usable(&self, at: Stamp) -> (r: bool)
        requires
            self.wf(),
            at.wf(),
        ensures
            r == goes_on(self.last_at, at),
    {
        match &self.last_at {
            Some(p) => {
                let ms: i64 = at.millis_since(p);
                ms >= 0 && ms <= MAX_TRACK_GAP_MS
            },
            None => false,
        }
    }

    /// The tracks that can go on at `at`, each of which is to be held against each cell.
    pub fn tracks(&self, at: Stamp) -> (r: Vec<Fix>)
        requires
            self.wf(),
            at.wf(),
        ensures
            r@ == self.live(at),
    {
        let mut out: Vec<Fix> = Vec::new();
        if self.usable(at) {
            let mut i: usize = 0;
            while i < self.previous.len()
                invariant
                    i <= self.previous@.len(),
                    out@ == self.previous@.take(i as int),
                decreases self.previous@.len() - i,
            {
                out.push(self.previous[i]);
                i += 1;
                assert(out@ =~= self.previous@.take(i as int));
            }
            assert(out@ =~= self.previous@);
        }
        assert(out@ =~= self.live(at));
        out
    }
}

/// The pairs of cells and tracks within reach, as positions.
fn pairs_within(readings: &Vec<Vec<PairReading>>, gate: u64) -> (r: Vec<(usize, usize)>)
    ensures
        r@.map_values(|p: (usize, usize)| (p.0 as int, p.1 as int)) == gated_pairs(
            readings@,
            gate,
            readings@.len(),
        ),
        forall|k: int|
            0 <= k < r@.len() ==> (#[trigger] r@[k]).0 < readings@.len() && r@[k].1
                < readings@[r@[k].0 as int]@.len(),
{
    let mut out: Vec<(usize, usize)> = Vec::new();
    let mut c: usize = 0;
    assert(out@.map_values(|p: (usize, usize)| (p.0 as int, p.1 as int)) =~= gated_pairs(
        readings@,
        gate,
        0,
    ));
    while c < readings.len()
        invariant
            c <= readings@.len(),
            out@.map_values(|p: (usize, usize)| (p.0 as int, p.1 as int)) == gated_pairs(
                readings@,
                gate,
                c as nat,
            ),
            forall|k: int|
                0 <= k < out@.len() ==> (#[trigger] out@[k]).0 < readings@.len() && out@[k].1
                    < readings@[out@[k].0 as int]@.len(),
        decreases readings@.len() - c,
    {
        let row = &readings[c];
        let ghost base = gated_pairs(readings@, gate, c as nat);
        let mut p: usize = 0;
        assert(base + row_pairs(row@, gate, c as int, 0) =~= base);
        while p < row.len()
            invariant
                c < readings@.len(),
                row == readings@[c as int],
                p <= row@.len(),
                out@.map_values(|p: (usize, usize)| (p.0 as int, p.1 as int)) == base + row_pairs(
                    row@,
                    gate,
                    c as int,
                    p as nat,
                ),
                forall|k: int|
                    0 <= k < out@.len() ==> (#[trigger] out@[k]).0 < readings@.len() && out@[k].1
                        < readings@[out@[k].0 as int]@.len(),
            decreases row@.len() - p,
        {
            let ghost was = out@;
            if at_least64(gate, row[p].distance_km) {
                out.push((c, p));
                assert(out@.map_values(|p: (usize, usize)| (p.0 as int, p.1 as int))
                    =~= was.map_values(|p: (usize, usize)| (p.0 as int, p.1 as int)).push(
                    (c as int, p as int),
                ));
                assert(base + row_pairs(row@, gate, c as int, (p + 1) as nat) =~= (base
                    + row_pairs(row@, gate, c as int, p as nat)).push((c as int, p as int)));
            }
            p += 1;
        }
        c += 1;
    }
    out
}

/// The matching that a list of partners stands for.
spec fn partners(matched: Seq<Option<usize>>) -> Map<int, int> {
    Map::new(
        |c: int| 0 <= c < matched.len() && matched[c] is Some,
        |c: int| matched[c]->0 as int,
    )
}

/// Matches cells with tracks, the nearest first: `r[c]` is the track that cell `c` goes on
/// with.
fn match_tracks(readings: &Vec<Vec<PairReading>>, gate: u64, tracks: usize) -> (r: Vec<
    Option<usize>,
>)
    requires
        forall|c: int| 0 <= c < readings@.len() ==> (#[trigger] readings@[c])@.len() == tracks,
    ensures
        r@.len() == readings@.len(),
        is_matching(readings@, gate, partners(r@)),
        forall|c: int| 0 <= c < r@.len() ==> ((#[trigger] r@[c]) matches Some(p) ==> p < tracks),
{
    let pairs = pairs_within(readings, gate);
    let ghost all = gated_pairs(readings@, gate, readings@.len());
    assert(all.len() == pairs@.len());
    assert forall|k: int| 0 <= k < all.len() implies #[trigger] all[k] == (
        pairs@[k].0 as int,
        pairs@[k].1 as int,
    ) by {
        assert(pairs@.map_values(|p: (usize, usize)| (p.0 as int, p.1 as int))[k] == (
            pairs@[k].0 as int,
            pairs@[k].1 as int,
        ));
    }
    let mut keys: Vec<(i64, i64)> = Vec::new();
    let mut i: usize = 0;
    while i < pairs.len()
        invariant
            i <= pairs@.len(),
            all.len() == pairs@.len(),
            forall|k: int|
                0 <= k < all.len() ==> #[trigger] all[k] == (pairs@[k].0 as int, pairs@[k].1 as int),
            forall|k: int|
                0 <= k < pairs@.len() ==> (#[trigger] pairs@[k]).0 < readings@.len() && pairs@[k].1
                    < readings@[pairs@[k].0 as int]@.len(),
            keys@ == pair_keys(readings@, all).take(i as int),
        decreases pairs@.len() - i,
    {
        let (c, p) = pairs[i];
        assert(all[i as int] == (c as int, p as int));
        assert(pairs@[i as int] == (c, p));
        keys.push((place64(readings[c][p].distance_km), 0));
        i += 1;
        assert(keys@ =~= pair_keys(readings@, all).take(i as int));
    }
    assert(keys@ =~= pair_keys(readings@, all));
    let order = stable_order(&keys);
    let ghost sorted = in_order(all, order@);
    let mut matched: Vec<Option<usize>> = Vec::new();
    let mut claimed: Vec<bool> = Vec::new();
    let mut a: usize = 0;
    while a < readings.len()
        invariant
            a <= readings@.len(),
            matched@.len() == a,
            forall|c: int| 0 <= c < a ==> (#[trigger] matched@[c]) is None,
        decreases readings@.len() - a,
    {
        matched.push(None);
        a += 1;
    }
    let mut b: usize = 0;
    while b < tracks
        invariant
            b <= tracks,
            claimed@.len() == b,
            forall|p: int| 0 <= p < b ==> !(#[trigger] claimed@[p]),
        decreases tracks - b,
    {
        claimed.push(false);
        b += 1;
    }
    let mut k: usize = 0;
    assert(partners(matched@) =~= matching(sorted.take(0)));
    while k < order.len()
        invariant
            k <= order@.len(),
            order@.len() == all.len(),
            all.len() == pairs@.len(),
            sorted == in_order(all, order@),
            matched@.len() == readings@.len(),
            claimed@.len() == tracks,
            forall|j: int|
                0 <= j < all.len() ==> #[trigger] all[j] == (pairs@[j].0 as int, pairs@[j].1 as int),
            forall|j: int|
                0 <= j < pairs@.len() ==> (#[trigger] pairs@[j]).0 < readings@.len() && pairs@[j].1
                    < readings@[pairs@[j].0 as int]@.len(),
            forall|c: int|
                0 <= c < readings@.len() ==> (#[trigger] readings@[c])@.len() == tracks,
            forall|j: int| 0 <= j < order@.len() ==> (#[trigger] order@[j]) < all.len(),
            forall|c: int|
                0 <= c < matched@.len() ==> ((#[trigger] matched@[c]) matches Some(p) ==> p
                    < tracks),
            partners(matched@) == matching(sorted.take(k as int)),
            forall|p: int|
                0 <= p < tracks ==> (#[trigger] claimed@[p] <==> partners(
                    matched@,
                ).values().contains(p)),
        decreases order@.len() - k,
    {
        let at: usize = order[k];
        assert(at < all.len());
        let (c, p) = pairs[at];
        assert(pairs@[at as int] == (c, p));
        assert(all[at as int] == (c as int, p as int));
        assert(readings@[c as int]@.len() == tracks);
        assert(sorted.take(k + 1).drop_last() =~= sorted.take(k as int));
        assert(sorted.take(k + 1).last() == (c as int, p as int));
        let ghost before = partners(matched@);
        assert(before.contains_key(c as int) == (matched@[c as int] is Some));
        if matched[c].is_none() && !claimed[p] {
            matched[c] = Some(p);
            claimed[p] = true;
            let ghost now = before.insert(c as int, p as int);
            assert(partners(matched@) =~= now);
            assert forall|q: int| 0 <= q < tracks implies (#[trigger] claimed@[q]
                <==> now.values().contains(q)) by {
                if now.values().contains(q) && q != p {
                    let d = choose|d: int| now.contains_key(d) && now[d] == q;
                    assert(d != c);
                    assert(before.contains_key(d) && before[d] == q);
                    assert(before.values().contains(q));
                }
                if before.values().contains(q) {
                    let d = choose|d: int| before.contains_key(d) && before[d] == q;
                    assert(now.contains_key(d) && now[d] == q);
                }
                if q == p {
                    assert(now.contains_key(c as int) && now[c as int] == p);
                }
            }
        }
        k += 1;
    }
    assert(sorted.take(k as int) =~= sorted);
    assert(is_order(pair_keys(readings@, all), order@));
    matched
}

/// A matching gives no track to two cells.
pub proof fn lemma_matching_is_one_to_one(pairs: Seq<(int, int)>)
    ensures
        forall|a: int, b: int| #[trigger]
            matching(pairs).contains_key(a) && #[trigger] matching(pairs).contains_key(b) && a != b
                ==> matching(pairs)[a] != matching(pairs)[b],
        forall|c: int| #[trigger]
            matching(pairs).contains_key(c) ==> pairs.contains((c, matching(pairs)[c])),
    decreases pairs.len(),
{
    if pairs.len() > 0 {
        let before = matching(pairs.drop_last());
        let now = matching(pairs);
        lemma_matching_is_one_to_one(pairs.drop_last());
        let (c, p) = pairs.last();
        assert forall|a: int, b: int| #[trigger]
            now.contains_key(a) && #[trigger] now.contains_key(b) && a != b implies now[a]
            != now[b] by {
            if before.contains_key(a) && before.contains_key(b) {
            } else if a == c {
                assert(before.contains_key(b));
                assert(before.values().contains(before[b]));
            } else {
                assert(before.contains_key(a));
                assert(before.values().contains(before[a]));
            }
        }
        assert forall|a: int| #[trigger] now.contains_key(a) implies pairs.contains(
            (a, now[a]),
        ) by {
            if before.contains_key(a) {
                assert(pairs.drop_last().contains((a, before[a])));
                let k = pairs.drop_last().index_of((a, before[a]));
                assert(pairs[k] == (a, now[a]));
            } else {
                assert(pairs[pairs.len() - 1] == (a, now[a]));
            }
        }
    }
}

proof fn lemma_row_pairs(row: Seq<PairReading>, gate: u64, c: int, n: nat)
    requires
        n <= row.len(),
    ensures
        forall|k: int|
            0 <= k < row_pairs(row, gate, c, n).len() ==> {
                let q = #[trigger] row_pairs(row, gate, c, n)[k];
                q.0 == c && 0 <= q.1 < n && ge64(gate, row[q.1].distance_km)
            },
    decreases n,
{
    if n > 0 {
        lemma_row_pairs(row, gate, c, (n - 1) as nat);
        let before = row_pairs(row, gate, c, (n - 1) as nat);
        let now = row_pairs(row, gate, c, n);
        assert forall|k: int| 0 <= k < now.len() implies {
            let q = #[trigger] now[k];
            q.0 == c && 0 <= q.1 < n && ge64(gate, row[q.1].distance_km)
        } by {
            if k < before.len() {
                assert(now[k] == before[k]);
            }
        }
    }
}

proof fn lemma_gated_pairs(readings: Seq<Vec<PairReading>>, gate: u64, n: nat)
    requires
        n <= readings.len(),
    ensures
        forall|k: int|
            0 <= k < gated_pairs(readings, gate, n).len() ==> {
                let q = #[trigger] gated_pairs(readings, gate, n)[k];
                0 <= q.0 < n && 0 <= q.1 < readings[q.0]@.len() && ge64(
                    gate,
                    readings[q.0]@[q.1].distance_km,
                )
            },
    decreases n,
{
    if n > 0 {
        lemma_gated_pairs(readings, gate, (n - 1) as nat);
        let row = readings[n - 1]@;
        lemma_row_pairs(row, gate, n - 1, row.len());
        let before = gated_pairs(readings, gate, (n - 1) as nat);
        let tail = row_pairs(row, gate, n - 1, row.len());
        let now = gated_pairs(readings, gate, n);
        assert forall|k: int| 0 <= k < now.len() implies {
            let q = #[trigger] now[k];
            0 <= q.0 < n && 0 <= q.1 < readings[q.0]@.len() && ge64(
                gate,
                readings[q.0]@[q.1].distance_km,
            )
        } by {
            if k < before.len() {
                assert(now[k] == before[k]);
            } else {
                assert(now[k] == tail[k - before.len()]);
            }
        }
    }
}

/// No track goes on as two cells, and none goes on as a cell out of reach.
pub proof fn law_tracks_do_not_split(
    readings: Seq<Vec<PairReading>>,
    gate: u64,
    m: Map<int, int>,
)
    requires
        is_matching(readings, gate, m),
    ensures
        forall|a: int, b: int| #[trigger]
            m.contains_key(a) && #[trigger] m.contains_key(b) && a != b ==> m[a] != m[b],
        forall|c: int| #[trigger]
            m.contains_key(c) ==> 0 <= c < readings.len() && 0 <= m[c] < readings[c]@.len() && ge64(
                gate,
                readings[c]@[m[c]].distance_km,
            ),
{
    let pairs = gated_pairs(readings, gate, readings.len());
    let order = choose|order: Seq<usize>| #[trigger]
        is_order(pair_keys(readings, pairs), order) && m == matching(in_order(pairs, order));
    let sorted = in_order(pairs, order);
    lemma_matching_is_one_to_one(sorted);
    lemma_gated_pairs(readings, gate, readings.len());
    assert forall|c: int| #[trigger] m.contains_key(c) implies 0 <= c < readings.len() && 0 <= m[c]
        < readings[c]@.len() && ge64(gate, readings[c]@[m[c]].distance_km) by {
        assert(sorted.contains((c, m[c])));
        let k = sorted.index_of((c, m[c]));
        assert(sorted[k] == pairs[order[k] as int]);
    }
}

proof fn lemma_begun(m: Map<int, int>, i: int, j: int)
    requires
        0 <= i <= j,
    ensures
        0 <= begun(m, i) <= i,
        begun(m, i) <= begun(m, j) <= begun(m, i) + (j - i),
        i < j && !m.contains_key(j - 1) ==> begun(m, i) < begun(m, j),
    decreases j,
{
    if i > 0 {
        lemma_begun(m, i - 1, i - 1);
    }
    if i < j {
        lemma_begun(m, i, j - 1);
    }
}

impl CellTracker {
    /// Gives the cells of one volume their identities, their motion and their approach.
    ///
    /// `readings[c][p]` holds cell `c` against track `p` of those that can go on, and `gate`
    /// is how far a track may lie from where it should be. A gap too long to follow a storm
    /// across begins every track anew.
    pub fn track(
        &mut self,
        cells: Vec<StormCell>,
        at: Stamp,
        gate: u64,
        readings: &Vec<Vec<PairReading>>,
    ) -> (r: Vec<StormCell>)
        requires
            old(self).wf(),
            at.wf(),
            are_readings(readings@, old(self).live(at), cells@.len()),
            old(self).next_id + cells@.len() <= u32::MAX,
        ensures
            final(self).wf(),
            final(self).last_at == Some(at),
            r@.len() == cells@.len(),
            final(self).previous@.len() == cells@.len(),
            old(self).next_id <= final(self).next_id,
            forall|i: int| 0 <= i < r@.len() ==> 1 <= (#[trigger] r@[i]).id <= final(self).next_id,
            forall|i: int, j: int|
                0 <= i < r@.len() && 0 <= j < r@.len() && i != j ==> (#[trigger] r@[i]).id != (
                #[trigger] r@[j]).id,
            forall|i: int|
                0 <= i < r@.len() ==> is_track_id(old(self).live(at), (#[trigger] r@[i]).id)
                    || r@[i].id > old(self).next_id,
            !goes_on(old(self).last_at, at) ==> forall|i: int|
                0 <= i < r@.len() ==> (#[trigger] r@[i]).id > old(self).next_id && r@[i].motion
                    is None && r@[i].approach is None,
            forall|i: int|
                0 <= i < r@.len() ==> (#[trigger] r@[i]) == (StormCell {
                    id: r@[i].id,
                    velocity: r@[i].velocity,
                    motion: r@[i].motion,
                    approach: r@[i].approach,
                    ..cells@[i]
                }),
            forall|i: int, p: int|
                0 <= i < r@.len() && 0 <= p < old(self).live(at).len() && (#[trigger] r@[i]).id == (
                #[trigger] old(self).live(at)[p]).id ==> {
                    let reading = readings@[i]@[p];
                    &&& ge64(gate, reading.distance_km)
                    &&& gap(old(self).last_at, at) >= 90_000 && !gt64(
                        reading.speed_kmh,
                        0x405E_0000_0000_0000,
                    ) ==> {
                        &&& r@[i].velocity == Some(reading.blended.velocity)
                        &&& r@[i].motion == reading.blended.motion()
                        &&& r@[i].approach == reading.blended.nearing()
                    }
                    &&& gap(old(self).last_at, at) < 90_000 || gt64(
                        reading.speed_kmh,
                        0x405E_0000_0000_0000,
                    ) ==> {
                        &&& r@[i].velocity == old(self).live(at)[p].velocity
                        &&& r@[i].motion == motion_of(reading.kept)
                        &&& r@[i].approach == approach_of(reading.kept)
                    }
                },
            forall|i: int|
                0 <= i < r@.len() && (#[trigger] r@[i]).id > old(self).next_id ==> r@[i].velocity
                    is None && r@[i].motion is None && r@[i].approach is None,
            exists|m: Map<int, int>|
                {
                    &&& #[trigger] is_matching(readings@, gate, m)
                    &&& final(self).next_id == old(self).next_id + begun(m, cells@.len() as int)
                    &&& forall|i: int|
                        0 <= i < r@.len() ==> #[trigger] r@[i] == identified(
                            cells@[i],
                            id_for(old(self).live(at), m, old(self).next_id, i),
                            course_for(m, readings@, gap(old(self).last_at, at), i),
                        )
                },
            forall|i: int|
                0 <= i < r@.len() ==> (#[trigger] final(self).previous@[i]) == (Fix {
                    id: r@[i].id,
                    centroid: r@[i].track_point,
                    velocity: r@[i].velocity,
                }),
    {
        let ghost live = self.live(at);
        let ghost last = self.next_id;
        let ghost start = cells@;
        let ghost gap_ms = gap(self.last_at, at);
        let tracks = self.tracks(at);
        let settled: bool = match &self.last_at {
            Some(p) => at.millis_since(p) >= MIN_MOTION_GAP_MS,
            None => false,
        };
        let matched = match_tracks(readings, gate, tracks.len());
        let ghost m = partners(matched@);
        proof {
            law_tracks_do_not_split(readings@, gate, m);
        }
        let mut cells = cells;
        let mut fixes: Vec<Fix> = Vec::new();
        let mut next: u32 = self.next_id;
        let mut i: usize = 0;
        while i < cells.len()
            invariant
                i <= cells@.len(),
                cells@.len() == start.len(),
                matched@.len() == start.len(),
                readings@.len() == start.len(),
                m == partners(matched@),
                tracks@ == live,
                live.len() == 0 || settled == (gap_ms >= MIN_MOTION_GAP_MS),
                last + start.len() <= u32::MAX,
                next == last + begun(m, i as int),
                0 <= begun(m, i as int) <= i,
                fixes@.len() == i,
                forall|c: int|
                    0 <= c < readings@.len() ==> (#[trigger] readings@[c])@.len() == live.len(),
                forall|c: int|
                    0 <= c < matched@.len() ==> ((#[trigger] matched@[c]) matches Some(p) ==> p
                        < live.len()),
                forall|j: int|
                    0 <= j < i ==> #[trigger] cells@[j] == identified(
                        start[j],
                        id_for(live, m, last, j),
                        course_for(m, readings@, gap_ms, j),
                    ),
                forall|j: int| i <= j < start.len() ==> #[trigger] cells@[j] == start[j],
                forall|j: int|
                    0 <= j < i ==> (#[trigger] fixes@[j]) == (Fix {
                        id: cells@[j].id,
                        centroid: cells@[j].track_point,
                        velocity: cells@[j].velocity,
                    }),
            decreases cells@.len() - i,
        {
            assert(cells@[i as int] == start[i as int]);
            assert(matched@[i as int] is Some == m.contains_key(i as int));
            let (id, course): (u32, Option<Course>) = match matched[i] {
                Some(p) => {
                    assert(readings@[i as int]@.len() == live.len());
                    let reading = readings[i][p];
                    let course: Option<Course> = if !settled || above64(
                        reading.speed_kmh,
                        MAX_TRACK_SPEED_KMH,
                    ) {
                        reading.kept
                    } else {
                        Some(reading.blended)
                    };
                    (tracks[p].id, course)
                },
                None => {
                    next = next + 1;
                    (next, None)
                },
            };
            let ghost was = cells@;
            let (velocity, motion, nearing) = match &course {
                Some(c) => (Some(c.velocity), motion_from(c), approach(c)),
                None => (None, None, None),
            };
            cells[i].id = id;
            cells[i].velocity = velocity;
            cells[i].motion = motion;
            cells[i].approach = nearing;
            assert(cells@ =~= was.update(
                i as int,
                identified(start[i as int], id as int, course),
            ));
            assert(id == id_for(live, m, last, i as int));
            assert(course == course_for(m, readings@, gap_ms, i as int));
            fixes.push(Fix { id, centroid: cells[i].track_point, velocity });
            i += 1;
        }
        proof {
            assert(is_matching(readings@, gate, m));
            lemma_ids_stay_apart(live, m, last, start.len() as int);
            let now = fixes@;
            assert forall|a: int, b: int|
                0 <= a < now.len() && 0 <= b < now.len() && a != b implies (#[trigger] now[a]).id
                != (#[trigger] now[b]).id by {
                assert(now[a].id == cells@[a].id);
                assert(now[b].id == cells@[b].id);
                assert(id_for(live, m, last, a) != id_for(live, m, last, b));
            }
            assert forall|a: int| 0 <= a < now.len() implies (#[trigger] now[a]).id <= next by {
                assert(now[a].id == cells@[a].id);
                assert(id_for(live, m, last, a) <= last + begun(m, start.len() as int));
            }
            assert forall|a: int| 0 <= a < cells@.len() implies is_track_id(
                live,
                (#[trigger] cells@[a]).id,
            ) || cells@[a].id > last by {
                assert(1 <= id_for(live, m, last, a) <= u32::MAX);
                lemma_begun(m, a, a + 1);
                lemma_begun(m, a, a);
                if m.contains_key(a) {
                    assert(live[m[a]].id == cells@[a].id);
                }
            }
            assert forall|a: int, p: int|
                0 <= a < cells@.len() && 0 <= p < live.len() && (#[trigger] cells@[a]).id == (
                #[trigger] live[p]).id implies m.contains_key(a) && m[a] == p by {
                assert(1 <= id_for(live, m, last, a) <= u32::MAX);
                lemma_begun(m, a, a + 1);
                lemma_begun(m, a, a);
                assert(live[p].id <= last);
                if m.contains_key(a) && m[a] != p {
                    assert(live[m[a]].id != live[p].id);
                }
            }
            assert forall|a: int| 0 <= a < cells@.len() && (#[trigger] cells@[a]).id > last implies
                !m.contains_key(a) by {
                if m.contains_key(a) {
                    assert(live[m[a]].id <= last);
                }
            }
            if !goes_on(self.last_at, at) {
                assert forall|a: int| 0 <= a < cells@.len() implies (#[trigger] cells@[a]).id > last
                    && cells@[a].motion is None && cells@[a].approach is None by {
                    assert(is_track_id(live, cells@[a].id) || cells@[a].id > last);
                    assert(readings@[a]@.len() == 0);
                    assert(!m.contains_key(a));
                }
            }
        }
        self.next_id = next;
        self.previous = fixes;
        self.last_at = Some(at);
        cells
    }
}

/// The identities given to the first `n` cells differ, and none is beyond the last given.
proof fn lemma_ids_stay_apart(tracks: Seq<Fix>, m: Map<int, int>, last: u32, n: int)
    requires
        ids_differ(tracks, last),
        0 <= n,
        forall|a: int, b: int| #[trigger]
            m.contains_key(a) && #[trigger] m.contains_key(b) && a != b ==> m[a] != m[b],
        forall|c: int| #[trigger] m.contains_key(c) ==> 0 <= m[c] < tracks.len(),
        last + n <= u32::MAX,
    ensures
        forall|a: int, b: int|
            0 <= a < n && 0 <= b < n && a != b ==> #[trigger] id_for(tracks, m, last, a)
                != #[trigger] id_for(tracks, m, last, b),
        forall|a: int|
            0 <= a < n ==> 1 <= #[trigger] id_for(tracks, m, last, a) <= last + begun(m, n)
                <= u32::MAX,
{
    lemma_begun(m, n, n);
    assert forall|a: int| 0 <= a < n implies 1 <= #[trigger] id_for(tracks, m, last, a) <= last
        + begun(m, n) <= u32::MAX by {
        lemma_begun(m, a + 1, n);
        lemma_begun(m, a, a);
        if m.contains_key(a) {
            assert(1 <= tracks[m[a]].id <= last);
        }
    }
    assert forall|a: int, b: int| 0 <= a < n && 0 <= b < n && a != b implies #[trigger] id_for(
        tracks,
        m,
        last,
        a,
    ) != #[trigger] id_for(tracks, m, last, b) by {
        lemma_begun(m, a, a + 1);
        lemma_begun(m, b, b + 1);
        if m.contains_key(a) && m.contains_key(b) {
            assert(tracks[m[a]].id != tracks[m[b]].id);
        } else if m.contains_key(a) {
            assert(tracks[m[a]].id <= last);
            assert(begun(m, b + 1) == begun(m, b) + 1);
            lemma_begun(m, b, b);
        } else if m.contains_key(b) {
            assert(tracks[m[b]].id <= last);
            assert(begun(m, a + 1) == begun(m, a) + 1);
            lemma_begun(m, a, a);
        } else if a < b {
            lemma_begun(m, a + 1, b + 1);
        } else {
            lemma_begun(m, b + 1, a + 1);
        }
    }
}

/// Within one volume no two cells share an identity, and a cell that begins a track has one
/// that no earlier cell had.
pub proof fn law_identities_are_unique(
    tracker: CellTracker,
    at: Stamp,
    readings: Seq<Vec<PairReading>>,
    gate: u64,
    m: Map<int, int>,
    a: int,
    b: int,
)
    requires
        tracker.wf(),
        is_matching(readings, gate, m),
        forall|c: int|
            0 <= c < readings.len() ==> (#[trigger] readings[c])@.len() == tracker.live(at).len(),
        tracker.next_id + readings.len() <= u32::MAX,
        0 <= a < readings.len(),
        0 <= b < readings.len(),
        a != b,
    ensures
        id_for(tracker.live(at), m, tracker.next_id, a) != id_for(
            tracker.live(at),
            m,
            tracker.next_id,
            b,
        ),
        !m.contains_key(a) ==> id_for(tracker.live(at), m, tracker.next_id, a) > tracker.next_id,
{
    law_tracks_do_not_split(readings, gate, m);
    lemma_ids_stay_apart(tracker.live(at), m, tracker.next_id, readings.len() as int);
    lemma_begun(m, a, a + 1);
    lemma_begun(m, a, a);
}

/// A volume that comes again too soon to measure anything teaches nothing: a cell that goes on
/// keeps the identity and the motion of its track.
pub proof fn law_repeat_changes_nothing(
    tracker: CellTracker,
    at: Stamp,
    readings: Seq<Vec<PairReading>>,
    gate: u64,
    m: Map<int, int>,
    i: int,
)
    requires
        are_readings(readings, tracker.live(at), readings.len()),
        is_matching(readings, gate, m),
        gap(tracker.last_at, at) < MIN_MOTION_GAP_MS,
        m.contains_key(i),
    ensures
        id_for(tracker.live(at), m, tracker.next_id, i) == tracker.live(at)[m[i]].id,
        drift_of(course_for(m, readings, gap(tracker.last_at, at), i)) == tracker.live(
            at,
        )[m[i]].velocity,
{
    law_tracks_do_not_split(readings, gate, m);
}

/// An identity is never given again: with every identity ever given at most the last one, a cell
/// that begins a track has none of them, one that goes on has that of its track, and none goes
/// beyond the last one given then. Zero is never given.
pub proof fn law_identities_are_never_given_again(
    tracker: CellTracker,
    at: Stamp,
    readings: Seq<Vec<PairReading>>,
    gate: u64,
    m: Map<int, int>,
    given: Set<int>,
    i: int,
)
    requires
        tracker.wf(),
        are_readings(readings, tracker.live(at), readings.len()),
        is_matching(readings, gate, m),
        tracker.next_id + readings.len() <= u32::MAX,
        forall|g: int| #[trigger] given.contains(g) ==> g <= tracker.next_id,
        0 <= i < readings.len(),
    ensures
        1 <= id_for(tracker.live(at), m, tracker.next_id, i) <= tracker.next_id + begun(
            m,
            readings.len() as int,
        ),
        m.contains_key(i) ==> id_for(tracker.live(at), m, tracker.next_id, i) == tracker.live(
            at,
        )[m[i]].id,
        !m.contains_key(i) ==> !given.contains(id_for(tracker.live(at), m, tracker.next_id, i)),
        forall|g: int| #[trigger]
            given.contains(g) ==> g <= tracker.next_id + begun(m, readings.len() as int),
{
    law_tracks_do_not_split(readings, gate, m);
    lemma_ids_stay_apart(tracker.live(at), m, tracker.next_id, readings.len() as int);
    lemma_begun(m, i, i + 1);
    lemma_begun(m, i, i);
    lemma_begun(m, readings.len() as int, readings.len() as int);
}

/// After a gap too long to follow a storm across, every cell has an identity that no cell had
/// before, and neither a motion nor an approach.
pub proof fn law_long_gap_begins_anew(
    tracker: CellTracker,
    at: Stamp,
    readings: Seq<Vec<PairReading>>,
    gate: u64,
    m: Map<int, int>,
    i: int,
)
    requires
        !goes_on(tracker.last_at, at),
        is_matching(readings, gate, m),
        forall|c: int|
            0 <= c < readings.len() ==> (#[trigger] readings[c])@.len() == tracker.live(at).len(),
        0 <= i < readings.len(),
    ensures
        id_for(tracker.live(at), m, tracker.next_id, i) > tracker.next_id,
        motion_of(course_for(m, readings, gap(tracker.last_at, at), i)) is None,
        approach_of(course_for(m, readings, gap(tracker.last_at, at), i)) is None,
{
    law_tracks_do_not_split(readings, gate, m);
    if m.contains_key(i) {
        assert(readings[i]@.len() == 0);
    }
    lemma_begun(m, i, i + 1);
    lemma_begun(m, i, i);
}

/// A cell that goes on with a track after a minute and a half or more, at a measured speed of
/// 120 km/h or less, takes the course with that measurement blended in, whether or not the track
/// had a motion before. Over a shorter gap, or where the measurement is faster, the track keeps
/// what it had; and a cell that begins a track has no course.
pub proof fn law_measured_motion_is_taken(
    m: Map<int, int>,
    readings: Seq<Vec<PairReading>>,
    gap_ms: int,
    i: int,
)
    ensures
        m.contains_key(i) && gap_ms >= 90_000 && !gt64(
            readings[i]@[m[i]].speed_kmh,
            0x405E_0000_0000_0000,
        ) ==> course_for(m, readings, gap_ms, i) == Some(readings[i]@[m[i]].blended),
        m.contains_key(i) && (gap_ms < 90_000 || gt64(
            readings[i]@[m[i]].speed_kmh,
            0x405E_0000_0000_0000,
        )) ==> course_for(m, readings, gap_ms, i) == readings[i]@[m[i]].kept,
        !m.contains_key(i) ==> course_for(m, readings, gap_ms, i) is None,
{
}

/// Two readings of one track that differ in the fresh measurement alone give two motions, even
/// where the track had one: no track is stuck with its first motion.
pub proof fn law_no_track_is_stuck(
    m: Map<int, int>,
    first: Seq<Vec<PairReading>>,
    second: Seq<Vec<PairReading>>,
    gap_ms: int,
    i: int,
)
    requires
        m.contains_key(i),
        gap_ms >= 90_000,
        first[i]@[m[i]].kept == second[i]@[m[i]].kept,
        ge64(0x405E_0000_0000_0000, first[i]@[m[i]].speed_kmh),
        ge64(0x405E_0000_0000_0000, second[i]@[m[i]].speed_kmh),
        first[i]@[m[i]].blended.velocity != second[i]@[m[i]].blended.velocity,
    ensures
        drift_of(course_for(m, first, gap_ms, i)) != drift_of(course_for(m, second, gap_ms, i)),
{
}

/// Tracks go on from one volume to the next where it comes no earlier and at most twenty minutes
/// later, and never without a volume before.
pub proof fn law_tracks_live_twenty_minutes(last_at: Option<Stamp>, at: Stamp)
    ensures
        goes_on(last_at, at) <==> (last_at matches Some(p) && at.millis_after(p) >= 0
            && at.millis_after(p) <= 20 * 60_000),
        goes_on(Some(at), at),
{
}

/// Where in the list of pairs that a matching took the one is that kept pair `k` out, or is it.
proof fn lemma_kept_out_by_nearer(pairs: Seq<(int, int)>, k: int) -> (j: int)
    requires
        0 <= k < pairs.len(),
    ensures
        0 <= j <= k,
        matching(pairs).contains_key(pairs[j].0),
        matching(pairs)[pairs[j].0] == pairs[j].1,
        pairs[j].0 == pairs[k].0 || pairs[j].1 == pairs[k].1,
    decreases pairs.len(),
{
    let rest = pairs.drop_last();
    let before = matching(rest);
    let (c, p) = pairs.last();
    lemma_matching_is_one_to_one(rest);
    if k < rest.len() {
        let j = lemma_kept_out_by_nearer(rest, k);
        assert(pairs[j] == rest[j]);
        j
    } else if before.contains_key(c) {
        assert(rest.contains((c, before[c])));
        let j = rest.index_of((c, before[c]));
        assert(pairs[j] == rest[j]);
        j
    } else if before.values().contains(p) {
        let d = choose|d: int| before.contains_key(d) && #[trigger] before[d] == p;
        assert(rest.contains((d, before[d])));
        let j = rest.index_of((d, before[d]));
        assert(pairs[j] == rest[j]);
        j
    } else {
        k
    }
}

proof fn lemma_pair_is_listed(readings: Seq<Vec<PairReading>>, gate: u64, n: nat, c: int, p: int)
    requires
        0 <= c < n <= readings.len(),
        0 <= p < readings[c]@.len(),
        ge64(gate, readings[c]@[p].distance_km),
    ensures
        gated_pairs(readings, gate, n).contains((c, p)),
    decreases n,
{
    let row = readings[n - 1]@;
    let before = gated_pairs(readings, gate, (n - 1) as nat);
    let own = row_pairs(row, gate, n - 1, row.len());
    if c < n - 1 {
        lemma_pair_is_listed(readings, gate, (n - 1) as nat, c, p);
        let k = before.index_of((c, p));
        assert((before + own)[k] == (c, p));
    } else {
        lemma_row_pair_is_listed(row, gate, c, row.len(), p);
        let k = own.index_of((c, p));
        assert((before + own)[before.len() + k] == (c, p));
    }
}

proof fn lemma_row_pair_is_listed(row: Seq<PairReading>, gate: u64, c: int, n: nat, p: int)
    requires
        0 <= p < n <= row.len(),
        ge64(gate, row[p].distance_km),
    ensures
        row_pairs(row, gate, c, n).contains((c, p)),
    decreases n,
{
    let before = row_pairs(row, gate, c, (n - 1) as nat);
    if p < n - 1 {
        lemma_row_pair_is_listed(row, gate, c, (n - 1) as nat, p);
        let k = before.index_of((c, p));
        assert(row_pairs(row, gate, c, n)[k] == (c, p));
    } else {
        assert(row_pairs(row, gate, c, n)[before.len() as int] == (c, p));
    }
}

/// Whether cell `c` goes on with track `p`.
pub open spec fn goes_with(m: Map<int, int>, c: int, p: int) -> bool {
    m.contains_key(c) && m[c] == p
}

/// The nearest pairs are matched first: a cell and a track within reach of each other that do not
/// go together are kept apart by a pair that is no farther apart, of that cell or of that track.
pub proof fn law_nearest_pairs_are_matched(
    readings: Seq<Vec<PairReading>>,
    gate: u64,
    m: Map<int, int>,
    c: int,
    p: int,
) -> (other: (int, int))
    requires
        is_matching(readings, gate, m),
        0 <= c < readings.len(),
        0 <= p < readings[c]@.len(),
        ge64(gate, readings[c]@[p].distance_km),
    ensures
        goes_with(m, other.0, other.1),
        other.0 == c || other.1 == p,
        0 <= other.0 < readings.len(),
        0 <= other.1 < readings[other.0]@.len(),
        total64(readings[other.0]@[other.1].distance_km) <= total64(readings[c]@[p].distance_km),
{
    let pairs = gated_pairs(readings, gate, readings.len());
    let order = choose|order: Seq<usize>| #[trigger]
        is_order(pair_keys(readings, pairs), order) && m == matching(in_order(pairs, order));
    let sorted = in_order(pairs, order);
    let keys = pair_keys(readings, pairs);
    lemma_gated_pairs(readings, gate, readings.len());
    lemma_pair_is_listed(readings, gate, readings.len(), c, p);
    let at = pairs.index_of((c, p));
    let k = lemma_order_covers(keys, order, at);
    assert(sorted[k] == (c, p));
    let j = lemma_kept_out_by_nearer(sorted, k);
    assert(sorted[j] == pairs[order[j] as int]);
    if j < k {
        assert(precedes(keys, order[j] as int, order[k] as int));
    }
    assert(keys[order[j] as int].0 == total64(readings[sorted[j].0]@[sorted[j].1].distance_km));
    assert(keys[order[k] as int].0 == total64(readings[c]@[p].distance_km));
    sorted[j]
}

proof fn lemma_order_covers(keys: Seq<(i64, i64)>, order: Seq<usize>, i: int) -> (k: int)
    requires
        is_order(keys, order),
        0 <= i < keys.len(),
    ensures
        0 <= k < order.len(),
        order[k] == i,
{
    lemma_order_is_permutation(keys, order);
    let ints = order.map_values(|x: usize| x as int);
    let all = vstd::set_lib::set_int_range(0, usize::MAX + 1);
    assert(ints.no_duplicates());
    ints.unique_seq_to_set();
    vstd::set_lib::lemma_int_range(0, usize::MAX + 1);
    assert forall|x: int| #[trigger] ints.to_set().contains(x) implies all.contains(x) by {
        let n = ints.index_of(x);
        assert(ints.contains(x));
        assert(ints[n] == order[n]);
    }
    vstd::set_lib::lemma_len_subset(ints.to_set(), all);
    assert(order.contains(i as usize));
    order.index_of(i as usize)
}

} // verus!
