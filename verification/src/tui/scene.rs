//! What is drawn over the radar picture, and in what order.

use vstd::prelude::*;
#[allow(unused_imports)]
use vstd::string::StringExecFns;
use crate::alert::filter::ThreatTier;
use crate::config::Colormap;
#[allow(unused_imports)]
use crate::ieee::{above64, at_least32, ge32, gt64};
#[allow(unused_imports)]
use crate::order::{is_order, lemma_order_is_permutation, precedes, stable_order};
use crate::radar::cells::CellThreat;
use crate::radar::{DbzGrid, RadarProduct};
#[allow(unused_imports)]
use crate::render::colormap::{product_shade, shade_of, Shade};
#[allow(unused_imports)]
use crate::render::hud::{threat_colour, threat_rgb};
use crate::render::labels::Area;
#[allow(unused_imports)]
use crate::render::overlay::{
    brackets, crosshair, drawable, listed_points, ring_points, PixelOverlay, DISTANCE_RING,
    HOME_MARKER, LETHAL_OUTLINE, SEVERE_OUTLINE, WATCH_OUTLINE,
};
use crate::render::Rgb;
#[allow(unused_imports)]
use crate::text::{ascii_upper, chars_of, decimal, lines, number, text_lines, texts, uppercased};

verus! {

/// 30 dBZ: augmentations are painted only within echo as strong as this. Below it the Doppler
/// and dual-polarisation moments are mostly insects.
pub const AUG_MIN_REFLECTIVITY_DBZ: u32 = 0x41F0_0000;

/// One coat of paint.
pub struct Coat {
    pub points: Set<(int, int)>,
    pub rgb: Rgb,
}

/// The colour of a point under a number of coats: that of the last one that covers it.
pub open spec fn colour_at(coats: Seq<Coat>, p: (int, int)) -> Option<Rgb>
    decreases coats.len(),
{
    if coats.len() == 0 {
        None
    } else if coats.last().points.contains(p) {
        Some(coats.last().rgb)
    } else {
        colour_at(coats.drop_last(), p)
    }
}

/// Whether a picture shows a number of coats.
pub open spec fn shows(o: PixelOverlay, width: usize, height: usize, coats: Seq<Coat>) -> bool {
    &&& o.wf()
    &&& o.width == width
    &&& o.height == height
    &&& forall|p: (int, int)| #[trigger]
        o.at(p) == if o.holds(p) {
            colour_at(coats, p)
        } else {
            None
        }
}

proof fn lemma_one_more_coat(
    before: PixelOverlay,
    after: PixelOverlay,
    width: usize,
    height: usize,
    coats: Seq<Coat>,
    coat: Coat,
)
    requires
        shows(before, width, height, coats),
        after.wf(),
        after.painted_over(before, coat.points, coat.rgb),
    ensures
        shows(after, width, height, coats.push(coat)),
{
    let more = coats.push(coat);
    assert(more.drop_last() =~= coats);
    assert forall|p: (int, int)| #[trigger]
        after.at(p) == if after.holds(p) {
            colour_at(more, p)
        } else {
            None
        } by {
        assert(after.holds(p) == before.holds(p));
        assert(before.at(p) == if before.holds(p) {
            colour_at(coats, p)
        } else {
            None
        });
    }
}

/// One painted pixel of an augmentation.
#[derive(Debug)]
pub struct Dot {
    pub x: i64,
    pub y: i64,
    pub rgb: Rgb,
}

/// The outlines of an alert on the screen.
#[derive(Debug)]
pub struct Outline {
    pub tier: ThreatTier,
    pub rings: Vec<Vec<(i64, i64)>>,
}

/// A storm cell on the screen.
#[derive(Debug)]
pub struct Marker {
    pub at: (i64, i64),
    pub threat: CellThreat,
}

/// Everything that is drawn over the picture.
#[derive(Debug)]
pub struct Scene {
    pub ring_points: Vec<(i64, i64)>,
    pub dots: Vec<Dot>,
    pub outlines: Vec<Outline>,
    pub markers: Vec<Marker>,
    pub selected: Option<usize>,
    /// Whether the frame shown is the newest observed one, whose cells the markers are.
    pub on_live_frame: bool,
    pub home: (i64, i64),
}

/// The colour of an outline.
pub open spec fn outline_colour(tier: ThreatTier) -> Rgb {
    match tier {
        ThreatTier::Lethal => LETHAL_OUTLINE,
        ThreatTier::Severe => SEVERE_OUTLINE,
        ThreatTier::Watch => WATCH_OUTLINE,
    }
}

/// The coats of the first `n` dots.
pub open spec fn dot_coats(dots: Seq<Dot>, n: int) -> Seq<Coat>
    decreases n,
{
    if n <= 0 {
        Seq::empty()
    } else {
        let d = dots[n - 1];
        dot_coats(dots, n - 1).push(
            Coat { points: set![(d.x as int, d.y as int)], rgb: d.rgb },
        )
    }
}

/// The coats of the first `n` rings of an outline.
pub open spec fn ring_coats(rings: Seq<Vec<(i64, i64)>>, rgb: Rgb, n: int) -> Seq<Coat>
    decreases n,
{
    if n <= 0 {
        Seq::empty()
    } else {
        ring_coats(rings, rgb, n - 1).push(Coat { points: ring_points(rings[n - 1]@), rgb })
    }
}

/// The coats of the first `n` outlines in a given order.
pub open spec fn outline_coats(outlines: Seq<Outline>, order: Seq<usize>, n: int) -> Seq<Coat>
    decreases n,
{
    if n <= 0 {
        Seq::empty()
    } else {
        let o = outlines[order[n - 1] as int];
        outline_coats(outlines, order, n - 1) + ring_coats(
            o.rings@,
            outline_colour(o.tier),
            o.rings@.len() as int,
        )
    }
}

/// The coats of the first `n` markers: the selected one is larger and white.
pub open spec fn marker_coats(markers: Seq<Marker>, selected: Option<usize>, n: int) -> Seq<Coat>
    decreases n,
{
    if n <= 0 {
        Seq::empty()
    } else {
        let m = markers[n - 1];
        let chosen = selected == Some((n - 1) as usize);
        marker_coats(markers, selected, n - 1).push(
            Coat {
                points: brackets(
                    m.at,
                    if chosen {
                        6
                    } else {
                        4
                    },
                    if chosen {
                        3
                    } else {
                        2
                    },
                ),
                rgb: if chosen {
                    HOME_MARKER
                } else {
                    threat_colour(m.threat)
                },
            },
        )
    }
}

/// The keys by which outlines are drawn: the gravest last, so that none hides it.
pub open spec fn outline_keys(outlines: Seq<Outline>) -> Seq<(i64, i64)> {
    outlines.map_values(|o: Outline| (o.tier.gravity() as i64, 0i64))
}

impl Scene {
    /// Whether everything lies where it can be drawn.
    pub open spec fn wf(self) -> bool {
        &&& forall|k: int|
            0 <= k < self.outlines@.len() ==> can_outline(#[trigger] self.outlines@[k])
        &&& forall|k: int| 0 <= k < self.markers@.len() ==> can_mark((#[trigger] self.markers@[k]).at)
        &&& can_mark(self.home)
    }

    /// What is painted, one coat over the other: rings of distance, augmentations, alerts,
    /// storm cells on the live frame, and home.
    pub open spec fn coats(self, order: Seq<usize>) -> Seq<Coat> {
        seq![Coat { points: listed_points(self.ring_points@), rgb: DISTANCE_RING }] + dot_coats(
            self.dots@,
            self.dots@.len() as int,
        ) + outline_coats(self.outlines@, order, order.len() as int) + (if self.on_live_frame {
            marker_coats(self.markers@, self.selected, self.markers@.len() as int)
        } else {
            Seq::empty()
        }) + seq![Coat { points: crosshair(self.home), rgb: HOME_MARKER }]
    }
}

/// Whether every line of an outline can be drawn.
pub open spec fn can_outline(o: Outline) -> bool {
    forall|r: int, i: int, j: int|
        0 <= r < o.rings@.len() && 0 <= i < o.rings@[r]@.len() && 0 <= j < o.rings@[r]@.len()
            ==> drawable(#[trigger] o.rings@[r]@[i], #[trigger] o.rings@[r]@[j])
}

/// Whether a marker can be drawn around a point.
pub open spec fn can_mark(p: (i64, i64)) -> bool {
    i64::MIN + 6 <= p.0 <= i64::MAX - 6 && i64::MIN + 6 <= p.1 <= i64::MAX - 6
}

fn paint_dots(o: &mut PixelOverlay, dots: &Vec<Dot>, coats: Ghost<Seq<Coat>>)
    requires
        shows(*old(o), old(o).width, old(o).height, coats@),
    ensures
        shows(
            *final(o),
            old(o).width,
            old(o).height,
            coats@ + dot_coats(dots@, dots@.len() as int),
        ),
{
    let ghost w = o.width;
    let ghost h = o.height;
    let mut i: usize = 0;
    assert(coats@ + dot_coats(dots@, 0) =~= coats@);
    while i < dots.len()
        invariant
            i <= dots@.len(),
            w == old(o).width,
            h == old(o).height,
            shows(*o, w, h, coats@ + dot_coats(dots@, i as int)),
        decreases dots@.len() - i,
    {
        let ghost before = *o;
        let ghost done = dot_coats(dots@, i as int);
        let ghost coat = Coat {
            points: set![(dots@[i as int].x as int, dots@[i as int].y as int)],
            rgb: dots@[i as int].rgb,
        };
        o.set(dots[i].x, dots[i].y, dots[i].rgb);
        proof {
            lemma_one_more_coat(before, *o, w, h, coats@ + done, coat);
            assert((coats@ + done).push(coat) =~= coats@ + done.push(coat));
        }
        i += 1;
    }
}

fn paint_rings(o: &mut PixelOverlay, outline: &Outline, coats: Ghost<Seq<Coat>>)
    requires
        shows(*old(o), old(o).width, old(o).height, coats@),
        can_outline(*outline),
    ensures
        shows(
            *final(o),
            old(o).width,
            old(o).height,
            coats@ + ring_coats(
                outline.rings@,
                outline_colour(outline.tier),
                outline.rings@.len() as int,
            ),
        ),
{
    let rgb: Rgb = match outline.tier {
        ThreatTier::Lethal => LETHAL_OUTLINE,
        ThreatTier::Severe => SEVERE_OUTLINE,
        ThreatTier::Watch => WATCH_OUTLINE,
    };
    let ghost w = o.width;
    let ghost h = o.height;
    let mut i: usize = 0;
    assert(coats@ + ring_coats(outline.rings@, rgb, 0) =~= coats@);
    while i < outline.rings.len()
        invariant
            i <= outline.rings@.len(),
            w == old(o).width,
            h == old(o).height,
            can_outline(*outline),
            rgb == outline_colour(outline.tier),
            shows(*o, w, h, coats@ + ring_coats(outline.rings@, rgb, i as int)),
        decreases outline.rings@.len() - i,
    {
        let ghost before = *o;
        let ghost done = ring_coats(outline.rings@, rgb, i as int);
        let ghost coat = Coat { points: ring_points(outline.rings@[i as int]@), rgb };
        o.draw_ring(&outline.rings[i], rgb);
        proof {
            lemma_one_more_coat(before, *o, w, h, coats@ + done, coat);
            assert((coats@ + done).push(coat) =~= coats@ + done.push(coat));
        }
        i += 1;
    }
}

fn paint_markers(
    o: &mut PixelOverlay,
    markers: &Vec<Marker>,
    selected: Option<usize>,
    coats: Ghost<Seq<Coat>>,
)
    requires
        shows(*old(o), old(o).width, old(o).height, coats@),
        forall|k: int| 0 <= k < markers@.len() ==> can_mark((#[trigger] markers@[k]).at),
    ensures
        shows(
            *final(o),
            old(o).width,
            old(o).height,
            coats@ + marker_coats(markers@, selected, markers@.len() as int),
        ),
{
    let ghost w = o.width;
    let ghost h = o.height;
    let mut i: usize = 0;
    assert(coats@ + marker_coats(markers@, selected, 0) =~= coats@);
    while i < markers.len()
        invariant
            i <= markers@.len(),
            w == old(o).width,
            h == old(o).height,
            forall|k: int| 0 <= k < markers@.len() ==> can_mark((#[trigger] markers@[k]).at),
            shows(*o, w, h, coats@ + marker_coats(markers@, selected, i as int)),
        decreases markers@.len() - i,
    {
        let ghost before = *o;
        let ghost done = marker_coats(markers@, selected, i as int);
        let chosen: bool = match selected {
            Some(k) => k == i,
            None => false,
        };
        let rgb: Rgb = if chosen {
            HOME_MARKER
        } else {
            threat_rgb(markers[i].threat)
        };
        assert(can_mark(markers@[i as int].at));
        o.draw_cell_marker(markers[i].at, rgb, chosen);
        proof {
            let coat = marker_coats(markers@, selected, i + 1).last();
            lemma_one_more_coat(before, *o, w, h, coats@ + done, coat);
            assert((coats@ + done).push(coat) =~= coats@ + done.push(coat));
        }
        i += 1;
    }
}

/// Draws everything that lies over the picture.
pub fn build_overlay(width: usize, height: usize, scene: &Scene) -> (r: PixelOverlay)
    requires
        width * height <= usize::MAX,
        scene.wf(),
    ensures
        exists|order: Seq<usize>| #[trigger]
            is_order(outline_keys(scene.outlines@), order) && shows(
                r,
                width,
                height,
                scene.coats(order),
            ),
{
    let mut o = PixelOverlay::new(width, height);
    let ghost mut coats: Seq<Coat> = Seq::empty();
    assert(shows(o, width, height, coats));
    let ghost before = o;
    o.draw_distance_rings(&scene.ring_points, DISTANCE_RING);
    proof {
        let coat = Coat { points: listed_points(scene.ring_points@), rgb: DISTANCE_RING };
        lemma_one_more_coat(before, o, width, height, coats, coat);
        coats = coats.push(coat);
        assert(coats =~= seq![coat]);
    }
    paint_dots(&mut o, &scene.dots, Ghost(coats));
    let ghost base = coats + dot_coats(scene.dots@, scene.dots@.len() as int);
    let mut keys: Vec<(i64, i64)> = Vec::new();
    let mut i: usize = 0;
    while i < scene.outlines.len()
        invariant
            i <= scene.outlines@.len(),
            keys@ == outline_keys(scene.outlines@).take(i as int),
        decreases scene.outlines@.len() - i,
    {
        let key: i64 = match scene.outlines[i].tier {
            ThreatTier::Watch => 0,
            ThreatTier::Severe => 1,
            ThreatTier::Lethal => 2,
        };
        keys.push((key, 0));
        i += 1;
        assert(keys@ =~= outline_keys(scene.outlines@).take(i as int));
    }
    assert(keys@ =~= outline_keys(scene.outlines@));
    let order = stable_order(&keys);
    let mut k: usize = 0;
    assert(base + outline_coats(scene.outlines@, order@, 0) =~= base);
    while k < order.len()
        invariant
            k <= order@.len(),
            scene.wf(),
            is_order(outline_keys(scene.outlines@), order@),
            shows(
                o,
                width,
                height,
                base + outline_coats(scene.outlines@, order@, k as int),
            ),
        decreases order@.len() - k,
    {
        let at: usize = order[k];
        assert(order@[k as int] < outline_keys(scene.outlines@).len());
        assert(can_outline(scene.outlines@[at as int]));
        let ghost done = outline_coats(scene.outlines@, order@, k as int);
        paint_rings(&mut o, &scene.outlines[at], Ghost(base + done));
        proof {
            let out = scene.outlines@[at as int];
            let more = ring_coats(out.rings@, outline_colour(out.tier), out.rings@.len() as int);
            assert(base + done + more =~= base + (done + more));
        }
        k += 1;
    }
    let ghost marked = base + outline_coats(scene.outlines@, order@, order@.len() as int);
    let ghost markers = if scene.on_live_frame {
        marker_coats(scene.markers@, scene.selected, scene.markers@.len() as int)
    } else {
        Seq::empty()
    };
    if scene.on_live_frame {
        paint_markers(&mut o, &scene.markers, scene.selected, Ghost(marked));
    } else {
        assert(marked + markers =~= marked);
    }
    let ghost before_home = o;
    o.draw_home(scene.home, HOME_MARKER);
    proof {
        let coat = Coat { points: crosshair(scene.home), rgb: HOME_MARKER };
        lemma_one_more_coat(before_home, o, width, height, marked + markers, coat);
        assert((marked + markers).push(coat) =~= scene.coats(order@));
    }
    o
}

/// Whatever else is drawn, the arms of the crosshair at home show through it.
pub proof fn law_home_is_always_visible(scene: Scene, order: Seq<usize>, p: (int, int))
    requires
        crosshair(scene.home).contains(p),
    ensures
        colour_at(scene.coats(order), p) == Some(HOME_MARKER),
{
}

/// Whether an outline passes through a point.
pub open spec fn on_outline(o: Outline, p: (int, int)) -> bool {
    exists|r: int| 0 <= r < o.rings@.len() && ring_points((#[trigger] o.rings@[r])@).contains(p)
}

proof fn lemma_colour_of_more(a: Seq<Coat>, b: Seq<Coat>, p: (int, int))
    ensures
        colour_at(a + b, p) == (if colour_at(b, p) is Some {
            colour_at(b, p)
        } else {
            colour_at(a, p)
        }),
    decreases b.len(),
{
    if b.len() == 0 {
        assert(a + b =~= a);
    } else {
        lemma_colour_of_more(a, b.drop_last(), p);
        assert((a + b).drop_last() =~= a + b.drop_last());
        assert((a + b).last() == b.last());
    }
}

proof fn lemma_ring_colour(rings: Seq<Vec<(i64, i64)>>, rgb: Rgb, n: int, p: (int, int))
    requires
        0 <= n <= rings.len(),
    ensures
        colour_at(ring_coats(rings, rgb, n), p) == (if exists|r: int|
            0 <= r < n && ring_points((#[trigger] rings[r])@).contains(p) {
            Some(rgb)
        } else {
            None
        }),
    decreases n,
{
    if n > 0 {
        lemma_ring_colour(rings, rgb, n - 1, p);
        let coats = ring_coats(rings, rgb, n);
        assert(coats.drop_last() =~= ring_coats(rings, rgb, n - 1));
        if ring_points(rings[n - 1]@).contains(p) {
            assert(0 <= n - 1 < n);
        }
    }
}

/// Of the outlines that pass through a point, the last one drawn colours it.
proof fn lemma_outline_colour(
    outlines: Seq<Outline>,
    order: Seq<usize>,
    n: int,
    x: int,
    p: (int, int),
) -> (y: int)
    requires
        0 <= x < n <= order.len(),
        forall|i: int| 0 <= i < order.len() ==> (#[trigger] order[i]) < outlines.len(),
        on_outline(outlines[order[x] as int], p),
    ensures
        x <= y < n,
        on_outline(outlines[order[y] as int], p),
        colour_at(outline_coats(outlines, order, n), p) == Some(
            outline_colour(outlines[order[y] as int].tier),
        ),
    decreases n,
{
    let o = outlines[order[n - 1] as int];
    let rgb = outline_colour(o.tier);
    let last = ring_coats(o.rings@, rgb, o.rings@.len() as int);
    lemma_colour_of_more(outline_coats(outlines, order, n - 1), last, p);
    lemma_ring_colour(o.rings@, rgb, o.rings@.len() as int, p);
    if on_outline(o, p) {
        n - 1
    } else {
        lemma_outline_colour(outlines, order, n - 1, x, p)
    }
}

/// The outline of an alert is never buried under what it warns of: where neither home nor a
/// storm cell is marked, a point on an outline shows the colour of an outline that is as grave
/// or graver.
pub proof fn law_outline_is_not_buried(scene: Scene, order: Seq<usize>, k: usize, p: (int, int))
    requires
        is_order(outline_keys(scene.outlines@), order),
        k < scene.outlines@.len(),
        on_outline(scene.outlines@[k as int], p),
        !crosshair(scene.home).contains(p),
        scene.on_live_frame ==> colour_at(
            marker_coats(scene.markers@, scene.selected, scene.markers@.len() as int),
            p,
        ) is None,
    ensures
        exists|j: int|
            {
                &&& 0 <= j < scene.outlines@.len()
                &&& on_outline(#[trigger] scene.outlines@[j], p)
                &&& scene.outlines@[j].tier.gravity() >= scene.outlines@[k as int].tier.gravity()
                &&& colour_at(scene.coats(order), p) == Some(
                    outline_colour(scene.outlines@[j].tier),
                )
            },
{
    let outlines = scene.outlines@;
    lemma_order_is_permutation(outline_keys(outlines), order);
    assert(order.contains(k));
    let x = order.index_of(k);
    let y = lemma_outline_colour(outlines, order, order.len() as int, x, p);
    let j = order[y] as int;
    if x < y {
        assert(precedes(outline_keys(outlines), order[x] as int, order[y] as int));
        assert(outline_keys(outlines)[j].0 == outlines[j].tier.gravity());
        assert(outline_keys(outlines)[k as int].0 == outlines[k as int].tier.gravity());
    }
    let base = seq![Coat { points: listed_points(scene.ring_points@), rgb: DISTANCE_RING }]
        + dot_coats(scene.dots@, scene.dots@.len() as int);
    let middle = outline_coats(outlines, order, order.len() as int);
    let marks = if scene.on_live_frame {
        marker_coats(scene.markers@, scene.selected, scene.markers@.len() as int)
    } else {
        Seq::empty()
    };
    let home = seq![Coat { points: crosshair(scene.home), rgb: HOME_MARKER }];
    lemma_colour_of_more(base, middle, p);
    lemma_colour_of_more(base + middle, marks, p);
    lemma_colour_of_more(base + middle + marks, home, p);
    assert(home.drop_last() =~= Seq::<Coat>::empty());
    assert(colour_at(Seq::<Coat>::empty(), p) is None);
    assert(home.last().points == crosshair(scene.home));
    assert(colour_at(home, p) is None);
    assert(scene.coats(order) == base + middle + marks + home);
    assert(on_outline(outlines[j], p));
}

/// Cell markers are drawn on the live frame alone: on any other, what is drawn does not depend
/// on them.
pub proof fn law_markers_stay_off_other_frames(a: Scene, b: Scene, order: Seq<usize>)
    requires
        !a.on_live_frame,
        !b.on_live_frame,
        a.ring_points == b.ring_points,
        a.dots == b.dots,
        a.outlines == b.outlines,
        a.home == b.home,
    ensures
        a.coats(order) == b.coats(order),
{
}

/// One pixel that an augmentation paints.
#[derive(Debug)]
pub struct Spot {
    pub x: usize,
    pub y: usize,
    pub shade: Shade,
}

/// Whether an augmentation paints a pixel: within real echo, where the reading is diagnostic
/// and has a shade.
pub open spec fn augments(
    echo: DbzGrid,
    grid: DbzGrid,
    product: RadarProduct,
    map: Colormap,
    x: int,
    y: int,
) -> bool {
    &&& grid.holds(x, y)
    &&& echo.at(x, y) matches Some(dbz) && ge32(dbz, AUG_MIN_REFLECTIVITY_DBZ)
    &&& grid.at(x, y) matches Some(v) && product.notable(v) && shade_of(v, product, map) is Some
}

/// Whether a spot is at a position.
pub open spec fn spot_at(s: Spot, x: int, y: int) -> bool {
    s.x == x && s.y == y
}

/// Whether `spots` are the pixels that an augmentation paints, each with its shade.
pub open spec fn are_spots(
    echo: DbzGrid,
    grid: DbzGrid,
    product: RadarProduct,
    map: Colormap,
    spots: Seq<Spot>,
) -> bool {
    &&& forall|k: int|
        0 <= k < spots.len() ==> {
            let s = #[trigger] spots[k];
            &&& augments(echo, grid, product, map, s.x as int, s.y as int)
            &&& Some(s.shade) == shade_of(grid.at(s.x as int, s.y as int)->0, product, map)
        }
    &&& forall|x: int, y: int| #[trigger]
        augments(echo, grid, product, map, x, y) ==> exists|k: int|
            0 <= k < spots.len() && spot_at(#[trigger] spots[k], x, y)
}

/// The pixels that an augmentation paints.
pub fn augmentation_spots(
    echo: &DbzGrid,
    grid: &DbzGrid,
    product: RadarProduct,
    map: Colormap,
) -> (r: Vec<Spot>)
    requires
        echo.wf(),
        grid.wf(),
    ensures
        are_spots(*echo, *grid, product, map, r@),
{
    let mut out: Vec<Spot> = Vec::new();
    let mut y: usize = 0;
    while y < grid.height
        invariant
            y <= grid.height,
            echo.wf(),
            grid.wf(),
            forall|k: int|
                0 <= k < out@.len() ==> {
                    let s = #[trigger] out@[k];
                    &&& augments(*echo, *grid, product, map, s.x as int, s.y as int)
                    &&& Some(s.shade) == shade_of(
                        grid.at(s.x as int, s.y as int)->0,
                        product,
                        map,
                    )
                },
            forall|a: int, b: int| #[trigger]
                augments(*echo, *grid, product, map, a, b) && b < y ==> exists|k: int|
                    0 <= k < out@.len() && spot_at(#[trigger] out@[k], a, b),
        decreases grid.height - y,
    {
        let mut x: usize = 0;
        while x < grid.width
            invariant
                x <= grid.width,
                y < grid.height,
                echo.wf(),
                grid.wf(),
                forall|k: int|
                    0 <= k < out@.len() ==> {
                        let s = #[trigger] out@[k];
                        &&& augments(*echo, *grid, product, map, s.x as int, s.y as int)
                        &&& Some(s.shade) == shade_of(
                            grid.at(s.x as int, s.y as int)->0,
                            product,
                            map,
                        )
                    },
                forall|a: int, b: int| #[trigger]
                    augments(*echo, *grid, product, map, a, b) && (b < y || (b == y && a < x))
                        ==> exists|k: int|
                        0 <= k < out@.len() && spot_at(#[trigger] out@[k], a, b),
            decreases grid.width - x,
        {
            let ghost was = out@;
            let strong: bool = match echo.get(x, y) {
                Some(dbz) => at_least32(dbz, AUG_MIN_REFLECTIVITY_DBZ),
                None => false,
            };
            if strong {
                if let Some(v) = grid.get(x, y) {
                    if product.is_notable(v) {
                        if let Some(shade) = product_shade(v, product, map) {
                            assert(augments(*echo, *grid, product, map, x as int, y as int));
                            out.push(Spot { x, y, shade });
                            assert(spot_at(out@[was.len() as int], x as int, y as int));
                        }
                    }
                }
            }
            assert forall|a: int, b: int| #[trigger]
                augments(*echo, *grid, product, map, a, b) && (b < y || (b == y && a < x
                    + 1)) implies exists|k: int|
                0 <= k < out@.len() && spot_at(#[trigger] out@[k], a, b) by {
                if b == y && a == x {
                    assert(spot_at(out@[was.len() as int], a, b));
                } else {
                    let k = choose|k: int|
                        0 <= k < was.len() && spot_at(#[trigger] was[k], a, b);
                    assert(out@[k] == was[k]);
                }
            }
            x += 1;
        }
        assert forall|a: int, b: int| #[trigger]
            augments(*echo, *grid, product, map, a, b) && b < y + 1 implies exists|k: int|
            0 <= k < out@.len() && spot_at(#[trigger] out@[k], a, b) by {}
        y += 1;
    }
    out
}

/// One augmentation over a frame: its picture, or nothing where the frame cannot show it.
#[derive(Debug)]
pub struct OverlayLayer {
    pub product: RadarProduct,
    pub grid: Option<DbzGrid>,
}

/// Whether `spots` are what a layer paints: nothing where the frame cannot show it, so that the
/// base stays as it is.
pub open spec fn paints_layer(
    echo: DbzGrid,
    layer: OverlayLayer,
    map: Colormap,
    spots: Seq<Spot>,
) -> bool {
    match layer.grid {
        Some(grid) => are_spots(echo, grid, layer.product, map, spots),
        None => spots.len() == 0,
    }
}

/// The pixels that each augmentation paints, in the order of the layers: a later layer is painted
/// over the earlier ones.
pub fn paint_product_overlays(echo: &DbzGrid, layers: &Vec<OverlayLayer>, map: Colormap) -> (r: Vec<
    Vec<Spot>,
>)
    requires
        echo.wf(),
        forall|i: int|
            0 <= i < layers@.len() ==> ((#[trigger] layers@[i]).grid matches Some(g) ==> g.wf()),
    ensures
        r@.len() == layers@.len(),
        forall|i: int| 0 <= i < r@.len() ==> paints_layer(*echo, layers@[i], map, (#[trigger] r@[i])@),
{
    let mut out: Vec<Vec<Spot>> = Vec::new();
    let mut i: usize = 0;
    while i < layers.len()
        invariant
            i <= layers@.len(),
            out@.len() == i,
            echo.wf(),
            forall|k: int|
                0 <= k < layers@.len() ==> ((#[trigger] layers@[k]).grid matches Some(g) ==> g.wf()),
            forall|k: int| 0 <= k < i ==> paints_layer(*echo, layers@[k], map, (#[trigger] out@[k])@),
        decreases layers@.len() - i,
    {
        let spots: Vec<Spot> = match &layers[i].grid {
            Some(grid) => augmentation_spots(echo, grid, layers[i].product, map),
            None => Vec::new(),
        };
        out.push(spots);
        i += 1;
    }
    out
}

/// Which layer shows at a pixel: the last that paints it.
pub open spec fn layer_shown(
    echo: DbzGrid,
    layers: Seq<OverlayLayer>,
    map: Colormap,
    x: int,
    y: int,
) -> Option<int>
    decreases layers.len(),
{
    if layers.len() == 0 {
        None
    } else if layers.last().grid matches Some(grid) && augments(
        echo,
        grid,
        layers.last().product,
        map,
        x,
        y,
    ) {
        Some(layers.len() - 1)
    } else {
        layer_shown(echo, layers.drop_last(), map, x, y)
    }
}

/// Painted one after the other, each pixel shows the last augmentation that is diagnostic there,
/// and none where there is none: that layer has a spot there, and no later one has.
pub proof fn law_last_augmentation_shows(
    echo: DbzGrid,
    layers: Seq<OverlayLayer>,
    map: Colormap,
    spots: Seq<Vec<Spot>>,
    x: int,
    y: int,
)
    requires
        spots.len() == layers.len(),
        forall|i: int|
            0 <= i < spots.len() ==> paints_layer(echo, layers[i], map, (#[trigger] spots[i])@),
    ensures
        match layer_shown(echo, layers, map, x, y) {
            Some(n) => {
                &&& 0 <= n < spots.len()
                &&& exists|k: int| 0 <= k < spots[n]@.len() && spot_at(#[trigger] spots[n]@[k], x, y)
                &&& forall|i: int, k: int|
                    n < i < spots.len() && 0 <= k < spots[i]@.len() ==> !spot_at(
                        #[trigger] spots[i]@[k],
                        x,
                        y,
                    )
            },
            None => forall|i: int, k: int|
                0 <= i < spots.len() && 0 <= k < spots[i]@.len() ==> !spot_at(
                    #[trigger] spots[i]@[k],
                    x,
                    y,
                ),
        },
    decreases layers.len(),
{
    if layers.len() > 0 {
        let n = layers.len() - 1;
        let (fewer, before) = (layers.drop_last(), spots.drop_last());
        assert forall|i: int| 0 <= i < before.len() implies paints_layer(
            echo,
            fewer[i],
            map,
            (#[trigger] before[i])@,
        ) by {
            assert(before[i] == spots[i]);
        }
        law_last_augmentation_shows(echo, fewer, map, before, x, y);
        assert(paints_layer(echo, layers[n], map, spots[n]@));
        let here = layer_shown(echo, layers, map, x, y);
        if here != Some(n) {
            assert forall|i: int, k: int|
                (match here {
                    Some(m) => m < i,
                    None => 0 <= i,
                }) && i < spots.len() && 0 <= k < spots[i]@.len() implies !spot_at(
                #[trigger] spots[i]@[k],
                x,
                y,
            ) by {
                if i < n {
                    assert(before[i]@[k] == spots[i]@[k]);
                }
            }
            if let Some(m) = here {
                let k = choose|k: int|
                    0 <= k < before[m]@.len() && spot_at(#[trigger] before[m]@[k], x, y);
                assert(spot_at(spots[m]@[k], x, y));
            }
        }
    }
}

/// How many cells have something to draw.
pub open spec fn drawn_count(cells: Seq<Option<u32>>, product: RadarProduct, map: Colormap) -> nat
    decreases cells.len(),
{
    if cells.len() == 0 {
        0
    } else {
        drawn_count(cells.drop_last(), product, map) + (match cells.last() {
            Some(v) => if shade_of(v, product, map) is Some {
                1nat
            } else {
                0
            },
            None => 0,
        })
    }
}

/// How many cells of a picture have something to draw. A frame with nothing to draw and one
/// that failed to load are both black; only this number tells them apart.
pub fn drawn_cells(grid: &DbzGrid, product: RadarProduct, map: Colormap) -> (r: usize)
    ensures
        r == drawn_count(grid.cells@, product, map),
{
    let mut n: usize = 0;
    let mut i: usize = 0;
    while i < grid.cells.len()
        invariant
            i <= grid.cells@.len(),
            n <= i,
            n == drawn_count(grid.cells@.take(i as int), product, map),
        decreases grid.cells@.len() - i,
    {
        assert(grid.cells@.take(i + 1).drop_last() =~= grid.cells@.take(i as int));
        if let Some(v) = grid.cells[i] {
            if product_shade(v, product, map).is_some() {
                n += 1;
            }
        }
        i += 1;
    }
    assert(grid.cells@.take(i as int) =~= grid.cells@);
    n
}

/// Whether a picture has any reading.
pub open spec fn has_data(cells: Seq<Option<u32>>) -> bool {
    exists|i: int| 0 <= i < cells.len() && (#[trigger] cells[i]) is Some
}

/// What is said of what is in view: an empty sky is not the same as a missing frame.
pub open spec fn summary_text(cells: Seq<Option<u32>>, product: RadarProduct, map: Colormap) -> Seq<
    char,
> {
    let n = drawn_count(cells, product, map);
    if n > 0 {
        decimal(n) + " cells"@
    } else if has_data(cells) {
        "no echo in view"@
    } else {
        "no data in view"@
    }
}

pub fn echo_summary(grid: &DbzGrid, product: RadarProduct, map: Colormap) -> (r: String)
    ensures
        r@ == summary_text(grid.cells@, product, map),
{
    let n: usize = drawn_cells(grid, product, map);
    if n > 0 {
        let mut out = number(n as u64);
        out.append(" cells");
        out
    } else if grid.value_range().is_some() {
        "no echo in view".to_owned()
    } else {
        "no data in view".to_owned()
    }
}

/// Whether a reading has something to draw.
pub open spec fn is_drawn(reading: Option<u32>, product: RadarProduct, map: Colormap) -> bool {
    reading matches Some(v) && shade_of(v, product, map) is Some
}

/// Where in a sweep the nearest echo lies: the first drawn sample, unless a later one is
/// nearer. `distances` holds how far each sample is, the bit
/// pattern of a double.
pub open spec fn nearest_drawn(
    samples: Seq<Option<u32>>,
    distances: Seq<u64>,
    product: RadarProduct,
    map: Colormap,
) -> Option<int>
    decreases samples.len(),
{
    if samples.len() == 0 {
        None
    } else {
        let before = nearest_drawn(samples.drop_last(), distances, product, map);
        if is_drawn(samples.last(), product, map) && (before is None || gt64(
            distances[before->0],
            distances[samples.len() - 1],
        )) {
            Some(samples.len() - 1)
        } else {
            before
        }
    }
}

/// The position of the nearest echo in a sweep beyond the view. A blank frame thus tells where
/// the weather is rather than looking like a failure.
pub fn nearest_echo_km(
    samples: &Vec<Option<u32>>,
    distances: &Vec<u64>,
    product: RadarProduct,
    map: Colormap,
) -> (r: Option<usize>)
    requires
        distances@.len() == samples@.len(),
    ensures
        r is Some <==> nearest_drawn(samples@, distances@, product, map) is Some,
        r matches Some(i) ==> nearest_drawn(samples@, distances@, product, map) == Some(i as int),
        r is None <==> forall|j: int|
            0 <= j < samples@.len() ==> !is_drawn(#[trigger] samples@[j], product, map),
        r matches Some(i) ==> i < samples@.len() && is_drawn(samples@[i as int], product, map)
            && forall|j: int|
            0 <= j < samples@.len() && is_drawn(#[trigger] samples@[j], product, map) ==> !gt64(
                distances@[i as int],
                distances@[j],
            ),
{
    let mut best: Option<usize> = None;
    let mut k: usize = 0;
    while k < samples.len()
        invariant
            k <= samples@.len(),
            distances@.len() == samples@.len(),
            nearest_drawn(samples@.take(k as int), distances@, product, map) == (match best {
                Some(i) => Some(i as int),
                None => None,
            }),
            best is None <==> forall|j: int|
                0 <= j < k ==> !is_drawn(#[trigger] samples@[j], product, map),
            best matches Some(i) ==> i < k && is_drawn(samples@[i as int], product, map) && forall|
                j: int,
            |
                0 <= j < k && is_drawn(#[trigger] samples@[j], product, map) ==> !gt64(
                    distances@[i as int],
                    distances@[j],
                ),
        decreases samples@.len() - k,
    {
        assert(samples@.take(k + 1).drop_last() =~= samples@.take(k as int));
        assert(samples@.take(k + 1).last() == samples@[k as int]);
        let drawn: bool = match samples[k] {
            Some(v) => product_shade(v, product, map).is_some(),
            None => false,
        };
        if drawn {
            let nearer: bool = match best {
                Some(i) => above64(distances[i], distances[k]),
                None => true,
            };
            if nearer {
                best = Some(k);
            }
        }
        k += 1;
    }
    assert(samples@.take(k as int) =~= samples@);
    best
}

/// The nearest echo beyond the view: its distance in kilometres and its direction.
#[derive(Debug, Clone)]
pub struct EchoText {
    pub distance: String,
    pub direction: String,
}

/// What is written over an empty frame: that the product is not there, or where the nearest
/// echo is.
pub open spec fn banner_text(
    product: RadarProduct,
    source: Seq<char>,
    supported: bool,
    nearest: Option<EchoText>,
) -> Seq<char> {
    let name = ascii_upper(product.name());
    if !supported {
        " "@ + name + " UNAVAILABLE ON THIS FRAME \n "@ + source + " did not provide it "@
    } else {
        match nearest {
            Some(e) => " NO "@ + name + " IN VIEW \n "@ + source + " \n nearest "@ + e.distance@
                + " km "@ + e.direction@ + " \n zo zooms out \u{b7} hjkl pan "@,
            None => " NO "@ + name + " IN VIEW \n "@ + source + " \n none within 800 km "@,
        }
    }
}

pub fn banner(product: RadarProduct, source: &str, supported: bool, nearest: &Option<EchoText>) -> (r:
    String)
    ensures
        r@ == banner_text(product, source@, supported, *nearest),
{
    let name = uppercased(product.label());
    if !supported {
        let mut out = " ".to_owned();
        out.append(name.as_str());
        out.append(" UNAVAILABLE ON THIS FRAME \n ");
        out.append(source);
        out.append(" did not provide it ");
        return out;
    }
    let mut out = " NO ".to_owned();
    out.append(name.as_str());
    out.append(" IN VIEW \n ");
    out.append(source);
    match nearest {
        Some(e) => {
            out.append(" \n nearest ");
            out.append(e.distance.as_str());
            out.append(" km ");
            out.append(e.direction.as_str());
            out.append(" \n zo zooms out \u{b7} hjkl pan ");
        },
        None => out.append(" \n none within 800 km "),
    }
    out
}

/// Whether the banner is shown: on an empty frame, and never over an alert.
pub fn wants_banner(drawn: usize, active: usize, has_frame: bool) -> (r: bool)
    ensures
        r == (drawn == 0 && active == 0 && has_frame),
{
    drawn == 0 && active == 0 && has_frame
}

/// A box of a given size in the middle of an area, no larger than the area.
pub open spec fn middle(width: u16, height: u16, area: Area) -> Area {
    let w = if width < area.width {
        width
    } else {
        area.width
    };
    let h = if height < area.height {
        height
    } else {
        area.height
    };
    Area {
        x: (area.x + (area.width - w) / 2) as u16,
        y: (area.y + (area.height - h) / 2) as u16,
        width: w,
        height: h,
    }
}

pub fn centred(width: u16, height: u16, area: Area) -> (r: Area)
    requires
        area.wf(),
    ensures
        r == middle(width, height, area),
        r.width <= area.width,
        r.height <= area.height,
        area.x <= r.x,
        r.x + r.width <= area.x + area.width,
        area.y <= r.y,
        r.y + r.height <= area.y + area.height,
{
    let w: u16 = if width < area.width {
        width
    } else {
        area.width
    };
    let h: u16 = if height < area.height {
        height
    } else {
        area.height
    };
    Area {
        x: area.x + (area.width - w) / 2,
        y: area.y + (area.height - h) / 2,
        width: w,
        height: h,
    }
}

/// The length of the longest of some lines.
pub open spec fn widest(lines: Seq<Seq<char>>) -> nat
    decreases lines.len(),
{
    if lines.len() == 0 {
        0
    } else {
        let before = widest(lines.drop_last());
        if before < lines.last().len() {
            lines.last().len()
        } else {
            before
        }
    }
}

/// Where a banner stands: in the middle of the map, where it fits with room to spare.
pub fn banner_area(banner: &str, map: Area) -> (r: Option<Area>)
    requires
        map.wf(),
    ensures
        ({
            let all = text_lines(banner@);
            &&& r is Some <==> map.width > widest(all) && map.height > all.len()
            &&& r matches Some(a) ==> a == middle(widest(all) as u16, all.len() as u16, map)
        }),
{
    let all = lines(banner);
    let ghost said = text_lines(banner@);
    let mut width: usize = 0;
    let mut i: usize = 0;
    while i < all.len()
        invariant
            i <= all@.len(),
            said == texts(all@),
            width == widest(said.take(i as int)),
        decreases all@.len() - i,
    {
        assert(said.take(i + 1).drop_last() =~= said.take(i as int));
        assert(said.take(i + 1).last() == all@[i as int]@);
        let n: usize = chars_of(all[i].as_str()).len();
        if width < n {
            width = n;
        }
        i += 1;
    }
    assert(said.take(i as int) =~= said);
    if map.width as usize > width && map.height as usize > all.len() {
        Some(centred(width as u16, all.len() as u16, map))
    } else {
        None
    }
}

/// A point has the colour of the last coat that covers it, whatever lies below.
pub proof fn law_last_coat_shows(coats: Seq<Coat>, i: int, p: (int, int))
    requires
        -1 <= i < coats.len(),
        i >= 0 ==> coats[i].points.contains(p),
        forall|j: int| i < j < coats.len() ==> !(#[trigger] coats[j]).points.contains(p),
    ensures
        colour_at(coats, p) == (if i >= 0 {
            Some(coats[i].rgb)
        } else {
            None
        }),
    decreases coats.len(),
{
    if coats.len() > 0 && i < coats.len() - 1 {
        assert(!coats[coats.len() - 1].points.contains(p));
        let rest = coats.drop_last();
        assert forall|j: int| i < j < rest.len() implies !(#[trigger] rest[j]).points.contains(
            p,
        ) by {
            assert(!coats[j].points.contains(p));
        }
        law_last_coat_shows(rest, i, p);
    }
}

/// Alerts are outlined in the colours of their tiers.
pub proof fn law_outlines_have_the_colours_of_their_tiers(tier: ThreatTier)
    ensures
        tier is Lethal ==> outline_colour(tier) == (255u8, 64u8, 64u8),
        tier is Severe ==> outline_colour(tier) == (255u8, 176u8, 32u8),
        tier is Watch ==> outline_colour(tier) == (120u8, 200u8, 255u8),
{
}

/// Every storm cell has its brackets: those of the selected one are larger and white, those of any
/// other have the colour of its threat.
pub proof fn law_every_cell_is_marked(
    markers: Seq<Marker>,
    selected: Option<usize>,
    n: int,
    k: int,
)
    requires
        0 <= k < n <= markers.len(),
    ensures
        marker_coats(markers, selected, n).len() == n,
        selected == Some(k as usize) ==> {
            &&& marker_coats(markers, selected, n)[k].points == brackets(markers[k].at, 6, 3)
            &&& marker_coats(markers, selected, n)[k].rgb == (255u8, 255u8, 255u8)
        },
        selected != Some(k as usize) ==> {
            &&& marker_coats(markers, selected, n)[k].points == brackets(markers[k].at, 4, 2)
            &&& marker_coats(markers, selected, n)[k].rgb == threat_colour(markers[k].threat)
        },
    decreases n,
{
    reveal_with_fuel(marker_coats, 2);
    if k < n - 1 {
        law_every_cell_is_marked(markers, selected, n - 1, k);
    } else if n > 1 {
        law_every_cell_is_marked(markers, selected, n - 1, 0);
    }
}

/// Every dot is painted, one coat each, in its own colour at its own pixel.
pub proof fn law_every_dot_is_painted(dots: Seq<Dot>, n: int, k: int)
    requires
        0 <= k < n <= dots.len(),
    ensures
        dot_coats(dots, n).len() == n,
        dot_coats(dots, n)[k].rgb == dots[k].rgb,
        forall|p: (int, int)|
            dot_coats(dots, n)[k].points.contains(p) <==> p == (dots[k].x as int, dots[k].y as int),
    decreases n,
{
    reveal_with_fuel(dot_coats, 2);
    if k < n - 1 {
        law_every_dot_is_painted(dots, n - 1, k);
    } else if n > 1 {
        law_every_dot_is_painted(dots, n - 1, 0);
    }
}

/// Things are drawn over one another in this order: the rings of distance below all else, then the
/// augmentations, the alerts, the storm cells and home.
pub proof fn law_layers_lie_in_order(scene: Scene, order: Seq<usize>, p: (int, int))
    ensures
        ({
            let shown = colour_at(scene.coats(order), p);
            let dots = colour_at(dot_coats(scene.dots@, scene.dots@.len() as int), p);
            let alerts = colour_at(
                outline_coats(scene.outlines@, order, order.len() as int),
                p,
            );
            let cells = if scene.on_live_frame {
                colour_at(
                    marker_coats(scene.markers@, scene.selected, scene.markers@.len() as int),
                    p,
                )
            } else {
                None
            };
            let home = crosshair(scene.home).contains(p);
            &&& home ==> shown == Some((255u8, 255u8, 255u8))
            &&& !home && cells is Some ==> shown == cells
            &&& !home && cells is None && alerts is Some ==> shown == alerts
            &&& !home && cells is None && alerts is None && dots is Some ==> shown == dots
            &&& !home && cells is None && alerts is None && dots is None ==> shown == (
            if listed_points(scene.ring_points@).contains(p) {
                Some((60u8, 66u8, 78u8))
            } else {
                None
            })
        }),
{
    let rings = seq![Coat { points: listed_points(scene.ring_points@), rgb: DISTANCE_RING }];
    let dots = dot_coats(scene.dots@, scene.dots@.len() as int);
    let alerts = outline_coats(scene.outlines@, order, order.len() as int);
    let cells = if scene.on_live_frame {
        marker_coats(scene.markers@, scene.selected, scene.markers@.len() as int)
    } else {
        Seq::empty()
    };
    let home = seq![Coat { points: crosshair(scene.home), rgb: HOME_MARKER }];
    lemma_colour_of_more(rings, dots, p);
    lemma_colour_of_more(rings + dots, alerts, p);
    lemma_colour_of_more(rings + dots + alerts, cells, p);
    lemma_colour_of_more(rings + dots + alerts + cells, home, p);
    assert(scene.coats(order) =~= rings + dots + alerts + cells + home);
    law_last_coat_shows(
        home,
        if crosshair(scene.home).contains(p) {
            0
        } else {
            -1
        },
        p,
    );
    law_last_coat_shows(
        rings,
        if listed_points(scene.ring_points@).contains(p) {
            0
        } else {
            -1
        },
        p,
    );
}

/// An augmentation paints within echo of 30 dBZ or more and nowhere else, and only what is
/// diagnostic; stronger echo never keeps it from painting.
pub proof fn law_augmentations_keep_to_echo(
    echo: DbzGrid,
    more: DbzGrid,
    grid: DbzGrid,
    product: RadarProduct,
    map: Colormap,
    x: int,
    y: int,
)
    ensures
        augments(echo, grid, product, map, x, y) ==> {
            &&& echo.at(x, y) matches Some(dbz) && ge32(dbz, 0x41F0_0000)
            &&& grid.at(x, y) matches Some(v) && product.notable(v)
        },
        echo.at(x, y) is None ==> !augments(echo, grid, product, map, x, y),
        grid.at(x, y) is None ==> !augments(echo, grid, product, map, x, y),
        augments(echo, grid, product, map, x, y) && more.at(x, y) is Some && ge32(
            more.at(x, y)->0,
            echo.at(x, y)->0,
        ) ==> augments(more, grid, product, map, x, y),
        (grid.at(x, y) matches Some(v) && product.notable(v) && shade_of(v, product, map) is Some)
            && (echo.at(x, y) matches Some(dbz) && ge32(dbz, 0x41F0_0000)) ==> augments(
            echo,
            grid,
            product,
            map,
            x,
            y,
        ),
{
}

/// The drawn cells of two stretches, one after the other, are counted together: one for each
/// reading with a shade, none for another.
pub proof fn law_drawn_cells_are_counted_once(
    a: Seq<Option<u32>>,
    b: Seq<Option<u32>>,
    v: u32,
    product: RadarProduct,
    map: Colormap,
)
    ensures
        drawn_count(a + b, product, map) == drawn_count(a, product, map) + drawn_count(
            b,
            product,
            map,
        ),
        drawn_count(seq![Some(v)], product, map) == (if shade_of(v, product, map) is Some {
            1nat
        } else {
            0
        }),
        drawn_count(seq![None::<u32>], product, map) == 0,
    decreases b.len(),
{
    reveal_with_fuel(drawn_count, 2);
    assert(seq![Some(v)].drop_last() =~= Seq::<Option<u32>>::empty());
    assert(seq![None::<u32>].drop_last() =~= Seq::<Option<u32>>::empty());
    if b.len() == 0 {
        assert(a + b =~= a);
    } else {
        law_drawn_cells_are_counted_once(a, b.drop_last(), v, product, map);
        assert((a + b).drop_last() =~= a + b.drop_last());
        assert((a + b).last() == b.last());
    }
}

/// An empty sky, a missing frame and echo are told apart.
pub proof fn law_empty_sky_is_no_missing_frame(
    cells: Seq<Option<u32>>,
    product: RadarProduct,
    map: Colormap,
    i: int,
)
    ensures
        drawn_count(cells, product, map) > 0 ==> summary_text(cells, product, map) == decimal(
            drawn_count(cells, product, map),
        ) + " cells"@,
        drawn_count(cells, product, map) == 0 && 0 <= i < cells.len() && cells[i] is Some
            ==> summary_text(cells, product, map) == "no echo in view"@,
        (forall|j: int| 0 <= j < cells.len() ==> (#[trigger] cells[j]) is None) && drawn_count(
            cells,
            product,
            map,
        ) == 0 ==> summary_text(cells, product, map) == "no data in view"@,
{
}

/// A box stands in the middle: it is as large as asked for, as far as the area goes, and what is
/// left of the area is the same on both sides, or one more to the right and below.
pub proof fn law_box_stands_in_the_middle(width: u16, height: u16, area: Area)
    requires
        area.wf(),
    ensures
        ({
            let m = middle(width, height, area);
            let left = m.x - area.x;
            let right = (area.x + area.width) - (m.x + m.width);
            let above = m.y - area.y;
            let below = (area.y + area.height) - (m.y + m.height);
            &&& 0 <= right - left <= 1
            &&& 0 <= below - above <= 1
            &&& width <= area.width ==> m.width == width
            &&& width > area.width ==> m.width == area.width
            &&& height <= area.height ==> m.height == height
            &&& height > area.height ==> m.height == area.height
        }),
{
}

/// No line is wider than the widest, and one is as wide.
pub proof fn law_widest_line_is_one_of_them(lines: Seq<Seq<char>>, i: int) -> (at: int)
    requires
        0 <= i < lines.len(),
    ensures
        lines[i].len() <= widest(lines),
        0 <= at < lines.len(),
        lines[at].len() == widest(lines),
    decreases lines.len(),
{
    let rest = lines.drop_last();
    if rest.len() == 0 {
        assert(widest(rest) == 0);
        0
    } else {
        let k = law_widest_line_is_one_of_them(
            rest,
            if i < rest.len() {
                i
            } else {
                0
            },
        );
        assert(rest[k] == lines[k]);
        if i < rest.len() {
            assert(rest[i] == lines[i]);
        }
        if widest(rest) < lines.last().len() {
            lines.len() - 1
        } else {
            k
        }
    }
}

/// An empty frame is told apart from one that cannot show the product, and says where the nearest
/// echo is where there is one.
pub proof fn law_banner_says_why_nothing_shows(
    product: RadarProduct,
    source: Seq<char>,
    nearest: Option<EchoText>,
)
    ensures
        banner_text(product, source, false, nearest) == " "@ + ascii_upper(product.name())
            + " UNAVAILABLE ON THIS FRAME \n "@ + source + " did not provide it "@,
        nearest is None ==> banner_text(product, source, true, nearest) == " NO "@ + ascii_upper(
            product.name(),
        ) + " IN VIEW \n "@ + source + " \n none within 800 km "@,
        nearest matches Some(e) ==> banner_text(product, source, true, nearest) == " NO "@
            + ascii_upper(product.name()) + " IN VIEW \n "@ + source + " \n nearest "@ + e.distance@
            + " km "@ + e.direction@ + " \n zo zooms out \u{b7} hjkl pan "@,
{
}

} // verus!
