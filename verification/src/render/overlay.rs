//! The layer of lines and markers that lies over the radar picture.
//!
//! Annotations are kept apart from the picture, so that they never pass for radar returns.

use vstd::prelude::*;
#[allow(unused_imports)]
use crate::lattice::{lemma_index_apart, lemma_index_in_range};
use crate::render::Rgb;

verus! {

pub const LETHAL_OUTLINE: Rgb = (255, 64, 64);

pub const SEVERE_OUTLINE: Rgb = (255, 176, 32);

pub const WATCH_OUTLINE: Rgb = (120, 200, 255);

pub const HOME_MARKER: Rgb = (255, 255, 255);

pub const DISTANCE_RING: Rgb = (60, 66, 78);

/// A sparse picture.
#[derive(Debug)]
pub struct PixelOverlay {
    pub width: usize,
    pub height: usize,
    pub cells: Vec<Option<Rgb>>,
}

/// The distance between two coordinates.
pub open spec fn apart(a: int, b: int) -> int {
    if a < b {
        b - a
    } else {
        a - b
    }
}

/// How many steps a line takes: the greater of its two extents.
pub open spec fn line_steps(from: (i64, i64), to: (i64, i64)) -> int {
    let x = apart(from.0 as int, to.0 as int);
    let y = apart(from.1 as int, to.1 as int);
    if x < y {
        y
    } else {
        x
    }
}

/// `d * k / n`, rounded to the nearest whole number, halves up.
pub open spec fn nearest_share(d: int, k: int, n: int) -> int {
    (2 * d * k + n) / (2 * n)
}

/// `k` steps of `n` from `a` toward `b`.
pub open spec fn toward(a: int, b: int, k: int, n: int) -> int {
    if a < b {
        a + nearest_share(b - a, k, n)
    } else {
        a - nearest_share(a - b, k, n)
    }
}

/// The `k`th point of a line.
pub open spec fn line_point(from: (i64, i64), to: (i64, i64), k: int) -> (int, int) {
    let n = line_steps(from, to);
    if n == 0 {
        (from.0 as int, from.1 as int)
    } else {
        (
            toward(from.0 as int, to.0 as int, k, n),
            toward(from.1 as int, to.1 as int, k, n),
        )
    }
}

/// Whether a line passes through a point.
pub open spec fn on_line(from: (i64, i64), to: (i64, i64), p: (int, int)) -> bool {
    exists|k: int| 0 <= k <= line_steps(from, to) && #[trigger] line_point(from, to, k) == p
}

/// The points of a line.
pub open spec fn line_points(from: (i64, i64), to: (i64, i64)) -> Set<(int, int)> {
    Set::new(|p: (int, int)| on_line(from, to, p))
}

/// Whether a line is short enough for its error term to be kept in 64 bits.
pub open spec fn drawable(from: (i64, i64), to: (i64, i64)) -> bool {
    apart(from.0 as int, to.0 as int) <= i64::MAX / 3 && apart(from.1 as int, to.1 as int)
        <= i64::MAX / 3
}

/// How many of the pixels are painted.
pub open spec fn painted_count(cells: Seq<Option<Rgb>>) -> nat
    decreases cells.len(),
{
    if cells.len() == 0 {
        0
    } else {
        painted_count(cells.drop_last()) + (if cells.last() is Some {
            1nat
        } else {
            0
        })
    }
}

impl PixelOverlay {
    /// The pixels, row by row.
    pub open spec fn pixels(self) -> Seq<Option<Rgb>> {
        self.cells@
    }

    /// There is a pixel for every position.
    pub open spec fn wf(self) -> bool {
        self.pixels().len() == self.width * self.height
    }

    /// Whether a position lies on the picture.
    pub open spec fn holds(self, p: (int, int)) -> bool {
        0 <= p.0 < self.width && 0 <= p.1 < self.height
    }

    /// The colour at a position, none beyond the edges.
    pub open spec fn at(self, p: (int, int)) -> Option<Rgb> {
        if self.holds(p) {
            self.pixels()[p.1 * self.width + p.0]
        } else {
            None
        }
    }

    /// Whether this is `before` with the points of `points` painted, as far as they lie on the
    /// picture.
    pub open spec fn painted_over(
        self,
        before: PixelOverlay,
        points: Set<(int, int)>,
        rgb: Rgb,
    ) -> bool {
        &&& self.width == before.width
        &&& self.height == before.height
        &&& forall|p: (int, int)| #[trigger]
            self.at(p) == if self.holds(p) && points.contains(p) {
                Some(rgb)
            } else {
                before.at(p)
            }
    }

    /// An empty picture.
    pub fn new(width: usize, height: usize) -> (r: PixelOverlay)
        requires
            width * height <= usize::MAX,
        ensures
            r.wf(),
            r.width == width,
            r.height == height,
            forall|p: (int, int)| (#[trigger] r.at(p)) is None,
            painted_count(r.pixels()) == 0,
    {
        let n: usize = width * height;
        let mut cells: Vec<Option<Rgb>> = Vec::new();
        let mut i: usize = 0;
        while i < n
            invariant
                i <= n,
                cells@.len() == i,
                forall|k: int| 0 <= k < i ==> (#[trigger] cells@[k]) is None,
                painted_count(cells@) == 0,
            decreases n - i,
        {
            let ghost was = cells@;
            cells.push(None);
            assert(cells@.drop_last() =~= was);
            i += 1;
        }
        let r = PixelOverlay { width, height, cells };
        assert forall|p: (int, int)| (#[trigger] r.at(p)) is None by {
            if r.holds(p) {
                lemma_index_in_range(p.0, p.1, width as int, height as int);
            }
        }
        r
    }

    /// The colour at a position, none beyond the edges.
    pub fn get(&self, x: usize, y: usize) -> (r: Option<Rgb>)
        requires
            self.wf(),
        ensures
            r == self.at((x as int, y as int)),
            x < self.width && y < self.height ==> r == self.cells@[y * self.width + x],
            x >= self.width || y >= self.height ==> r is None,
    {
        if x >= self.width || y >= self.height {
            return None;
        }
        let total: usize = self.cells.len();
        proof {
            lemma_index_in_range(x as int, y as int, self.width as int, self.height as int);
            assert(y * self.width + x < total);
        }
        self.cells[y * self.width + x]
    }

    /// Paints one pixel, if it lies on the picture.
    pub fn set(&mut self, x: i64, y: i64, rgb: Rgb)
        requires
            old(self).wf(),
        ensures
            final(self).wf(),
            final(self).painted_over(*old(self), set![(x as int, y as int)], rgb),
    {
        if x < 0 || y < 0 || x as u64 >= self.width as u64 || y as u64 >= self.height as u64 {
            return;
        }
        let col: usize = x as usize;
        let row: usize = y as usize;
        let ghost w = self.width as int;
        let ghost h = self.height as int;
        let total: usize = self.cells.len();
        proof {
            lemma_index_in_range(x as int, y as int, w, h);
            assert(y * w + x < total);
        }
        let index: usize = row * self.width + col;
        self.cells[index] = Some(rgb);
        assert forall|p: (int, int)| #[trigger]
            self.at(p) == if self.holds(p) && set![(x as int, y as int)].contains(p) {
                Some(rgb)
            } else {
                old(self).at(p)
            } by {
            if self.holds(p) {
                lemma_index_in_range(p.0, p.1, w, h);
                if p.1 * w + p.0 == index {
                    lemma_index_apart(p.0, p.1, x as int, y as int, w);
                }
            }
        }
    }

    /// How many pixels are painted.
    pub fn painted(&self) -> (r: usize)
        ensures
            r == painted_count(self.pixels()),
    {
        let mut n: usize = 0;
        let mut i: usize = 0;
        while i < self.cells.len()
            invariant
                i <= self.cells@.len(),
                n <= i,
                n == painted_count(self.cells@.take(i as int)),
            decreases self.cells@.len() - i,
        {
            assert(self.cells@.take(i + 1).drop_last() =~= self.cells@.take(i as int));
            if self.cells[i].is_some() {
                n += 1;
            }
            i += 1;
        }
        assert(self.cells@.take(i as int) =~= self.cells@);
        n
    }

    /// Draws a line. Its ends may lie beyond the edges; what lies on the picture is painted.
    pub fn draw_line(&mut self, from: (i64, i64), to: (i64, i64), rgb: Rgb)
        requires
            old(self).wf(),
            drawable(from, to),
        ensures
            final(self).wf(),
            final(self).painted_over(*old(self), line_points(from, to), rgb),
    {
        let (mut x0, mut y0) = from;
        let (x1, y1) = to;
        let east: bool = x0 < x1;
        let south: bool = y0 < y1;
        let dx: i64 = if east {
            x1 - x0
        } else {
            x0 - x1
        };
        let dy: i64 = if south {
            y0 - y1
        } else {
            y1 - y0
        };
        let ghost xs = dx as int;
        let ghost ys = -(dy as int);
        let ghost n = line_steps(from, to);
        let mut err: i64 = dx + dy;
        let ghost mut k: int = 0;
        let ghost start = *self;
        proof {
            if n > 0 {
                lemma_share_facts(xs, 0, n);
                lemma_share_facts(ys, 0, n);
                lemma_share_ends(xs, n);
                lemma_share_ends(ys, n);
                assert(xs * (0 + 1) - ys * (0 + 1) == xs - ys) by (nonlinear_arith);
            }
        }
        loop
            invariant_except_break
                self.painted_over(start, line_prefix(from, to, k), rgb),
            invariant
                self.wf(),
                from == (from.0, from.1),
                to == (x1, y1),
                drawable(from, to),
                n == line_steps(from, to),
                xs == dx,
                ys == -dy,
                xs == apart(from.0 as int, to.0 as int),
                ys == apart(from.1 as int, to.1 as int),
                east == (from.0 < to.0),
                south == (from.1 < to.1),
                0 <= k <= n,
                (x0 as int, y0 as int) == line_point(from, to, k),
                n > 0 ==> err == xs * (nearest_share(ys, k, n) + 1) - ys * (nearest_share(xs, k, n)
                    + 1),
                n == 0 ==> err == 0,
                start == *old(self),
            ensures
                self.wf(),
                self.painted_over(*old(self), line_points(from, to), rgb),
            decreases n - k,
        {
            let ghost before = *self;
            self.set(x0, y0, rgb);
            assert(self.painted_over(start, line_prefix(from, to, k + 1), rgb)) by {
                assert forall|p: (int, int)| #[trigger]
                    self.at(p) == if self.holds(p) && line_prefix(from, to, k + 1).contains(p) {
                        Some(rgb)
                    } else {
                        start.at(p)
                    } by {
                    lemma_prefix_grows(from, to, k, p);
                    assert(self.holds(p) == before.holds(p));
                    assert(before.at(p) == if before.holds(p) && line_prefix(
                        from,
                        to,
                        k,
                    ).contains(p) {
                        Some(rgb)
                    } else {
                        start.at(p)
                    });
                }
            }
            if x0 == x1 && y0 == y1 {
                proof {
                    lemma_reached(from, to, k);
                    assert(line_prefix(from, to, k + 1) =~= line_points(from, to)) by {
                        assert forall|p: (int, int)|
                            line_prefix(from, to, k + 1).contains(p) <==> line_points(
                                from,
                                to,
                            ).contains(p) by {
                            if line_points(from, to).contains(p) {
                                let j = choose|j: int|
                                    0 <= j <= n && #[trigger] line_point(from, to, j) == p;
                                assert(0 <= j < k + 1);
                            }
                            if line_prefix(from, to, k + 1).contains(p) {
                                let j = choose|j: int|
                                    0 <= j < k + 1 && #[trigger] line_point(from, to, j) == p;
                                assert(0 <= j <= n);
                            }
                        }
                    }
                }
                break;
            }
            proof {
                if k == n {
                    if n > 0 {
                        lemma_share_ends(xs, n);
                        lemma_share_ends(ys, n);
                    }
                }
                assert(k < n);
                lemma_share_facts(xs, k, n);
                lemma_share_facts(ys, k, n);
                lemma_share_facts(xs, k + 1, n);
                lemma_share_facts(ys, k + 1, n);
                lemma_error_term(xs, ys, k, n, err as int);
                lemma_share_within(xs, k, n);
                lemma_share_within(ys, k, n);
                lemma_share_within(xs, k + 1, n);
                lemma_share_within(ys, k + 1, n);
            }
            let e2: i64 = err * 2;
            if e2 >= dy {
                err = err + dy;
                x0 = if east {
                    x0 + 1
                } else {
                    x0 - 1
                };
            }
            if e2 <= dx {
                err = err + dx;
                y0 = if south {
                    y0 + 1
                } else {
                    y0 - 1
                };
            }
            proof {
                k = k + 1;
            }
        }
    }
}

/// The points of the lines from each of the first `n` corners to the next.
pub open spec fn outline(corners: Seq<(i64, i64)>, n: int) -> Set<(int, int)>
    decreases n,
{
    if n <= 1 {
        Set::empty()
    } else {
        outline(corners, n - 1).union(line_points(corners[n - 2], corners[n - 1]))
    }
}

/// The points of a closed ring: nothing where there are fewer than two corners, else the
/// lines from corner to corner, and from the last back to the first where they differ.
pub open spec fn ring_points(corners: Seq<(i64, i64)>) -> Set<(int, int)> {
    let n = corners.len() as int;
    if n < 2 {
        Set::empty()
    } else if corners[0] != corners[n - 1] {
        outline(corners, n).union(line_points(corners[n - 1], corners[0]))
    } else {
        outline(corners, n)
    }
}

/// The points of the crosshair around a place: three on each arm, none at the centre.
pub open spec fn crosshair(c: (i64, i64)) -> Set<(int, int)> {
    Set::new(
        |p: (int, int)|
            (p.1 == c.1 && 1 <= apart(p.0, c.0 as int) <= 3) || (p.0 == c.0 && 1 <= apart(
                p.1,
                c.1 as int,
            ) <= 3),
    )
}

/// The points of the corner brackets around a place: in each corner of a square of half-side
/// `r`, an arm of `arm` pixels along each of the two sides.
pub open spec fn brackets(c: (i64, i64), r: int, arm: int) -> Set<(int, int)> {
    Set::new(
        |p: (int, int)|
            {
                let x = apart(p.0, c.0 as int);
                let y = apart(p.1, c.1 as int);
                (y == r && r - arm < x <= r) || (x == r && r - arm < y <= r)
            },
    )
}

/// The points in a list.
pub open spec fn listed_points(points: Seq<(i64, i64)>) -> Set<(int, int)> {
    Set::new(
        |p: (int, int)|
            exists|i: int|
                0 <= i < points.len() && (#[trigger] points[i]).0 == p.0 && points[i].1 == p.1,
    )
}

/// Painting two sets of points in one colour paints their union.
proof fn lemma_paint_twice(
    a: PixelOverlay,
    b: PixelOverlay,
    c: PixelOverlay,
    s: Set<(int, int)>,
    t: Set<(int, int)>,
    rgb: Rgb,
)
    requires
        b.painted_over(a, s, rgb),
        c.painted_over(b, t, rgb),
    ensures
        c.painted_over(a, s.union(t), rgb),
{
    assert forall|p: (int, int)| #[trigger]
        c.at(p) == if c.holds(p) && s.union(t).contains(p) {
            Some(rgb)
        } else {
            a.at(p)
        } by {
        assert(c.holds(p) == b.holds(p));
        assert(b.at(p) == if b.holds(p) && s.contains(p) {
            Some(rgb)
        } else {
            a.at(p)
        });
    }
}

impl PixelOverlay {
    /// Draws a closed ring through the given corners.
    pub fn draw_ring(&mut self, corners: &Vec<(i64, i64)>, rgb: Rgb)
        requires
            old(self).wf(),
            forall|i: int, j: int|
                0 <= i < corners@.len() && 0 <= j < corners@.len() ==> drawable(
                    #[trigger] corners@[i],
                    #[trigger] corners@[j],
                ),
        ensures
            final(self).wf(),
            final(self).painted_over(*old(self), ring_points(corners@), rgb),
    {
        if corners.len() < 2 {
            return;
        }
        let n: usize = corners.len();
        let ghost start = *self;
        let mut i: usize = 1;
        while i < n
            invariant
                1 <= i <= n,
                n == corners@.len(),
                self.wf(),
                start == *old(self),
                self.painted_over(start, outline(corners@, i as int), rgb),
                forall|a: int, b: int|
                    0 <= a < corners@.len() && 0 <= b < corners@.len() ==> drawable(
                        #[trigger] corners@[a],
                        #[trigger] corners@[b],
                    ),
            decreases n - i,
        {
            let ghost before = *self;
            assert(drawable(corners@[i - 1], corners@[i as int]));
            self.draw_line(corners[i - 1], corners[i], rgb);
            proof {
                lemma_paint_twice(
                    start,
                    before,
                    *self,
                    outline(corners@, i as int),
                    line_points(corners@[i - 1], corners@[i as int]),
                    rgb,
                );
            }
            i += 1;
        }
        let first = corners[0];
        let last = corners[n - 1];
        if first.0 != last.0 || first.1 != last.1 {
            let ghost before = *self;
            assert(drawable(corners@[n - 1], corners@[0]));
            self.draw_line(last, first, rgb);
            proof {
                lemma_paint_twice(
                    start,
                    before,
                    *self,
                    outline(corners@, n as int),
                    line_points(last, first),
                    rgb,
                );
            }
        } else {
            assert(corners@[0] == corners@[n - 1]);
        }
    }

    /// Paints every point of a list.
    pub fn draw_points(&mut self, points: &Vec<(i64, i64)>, rgb: Rgb)
        requires
            old(self).wf(),
        ensures
            final(self).wf(),
            final(self).painted_over(*old(self), listed_points(points@), rgb),
    {
        let ghost start = *self;
        let mut i: usize = 0;
        while i < points.len()
            invariant
                i <= points@.len(),
                self.wf(),
                start == *old(self),
                self.painted_over(start, listed_points(points@.take(i as int)), rgb),
            decreases points@.len() - i,
        {
            let (x, y) = points[i];
            let ghost before = *self;
            let ghost seen = points@.take(i as int);
            let ghost more = points@.take(i + 1);
            self.set(x, y, rgb);
            proof {
                lemma_paint_twice(
                    start,
                    before,
                    *self,
                    listed_points(seen),
                    set![(x as int, y as int)],
                    rgb,
                );
                assert(listed_points(seen).union(set![(x as int, y as int)]) =~= listed_points(
                    more,
                )) by {
                    assert forall|p: (int, int)|
                        listed_points(seen).union(set![(x as int, y as int)]).contains(p)
                            <==> listed_points(more).contains(p) by {
                        if listed_points(seen).contains(p) {
                            let k = choose|k: int|
                                0 <= k < seen.len() && (#[trigger] seen[k]).0 == p.0 && seen[k].1
                                    == p.1;
                            assert(more[k].0 == p.0 && more[k].1 == p.1);
                        }
                        if p == (x as int, y as int) {
                            assert(more[i as int].0 == p.0 && more[i as int].1 == p.1);
                        }
                        if listed_points(more).contains(p) {
                            let k = choose|k: int|
                                0 <= k < more.len() && (#[trigger] more[k]).0 == p.0 && more[k].1
                                    == p.1;
                            if k < i {
                                assert(seen[k].0 == p.0 && seen[k].1 == p.1);
                            }
                        }
                    }
                }
            }
            i += 1;
        }
        assert(points@.take(i as int) =~= points@);
    }

    /// Draws rings of distance, given as the points on them.
    pub fn draw_distance_rings(&mut self, points: &Vec<(i64, i64)>, rgb: Rgb)
        requires
            old(self).wf(),
        ensures
            final(self).wf(),
            final(self).painted_over(*old(self), listed_points(points@), rgb),
    {
        self.draw_points(points, rgb);
    }

    /// Draws a crosshair rather than a dot, so that the echo at its centre stays readable.
    pub fn draw_home(&mut self, at: (i64, i64), rgb: Rgb)
        requires
            old(self).wf(),
            i64::MIN + 3 <= at.0 <= i64::MAX - 3,
            i64::MIN + 3 <= at.1 <= i64::MAX - 3,
        ensures
            final(self).wf(),
            final(self).painted_over(*old(self), crosshair(at), rgb),
    {
        let (cx, cy) = at;
        let points: Vec<(i64, i64)> = vec![
            (cx - 1, cy),
            (cx + 1, cy),
            (cx, cy - 1),
            (cx, cy + 1),
            (cx - 2, cy),
            (cx + 2, cy),
            (cx, cy - 2),
            (cx, cy + 2),
            (cx - 3, cy),
            (cx + 3, cy),
            (cx, cy - 3),
            (cx, cy + 3),
        ];
        proof {
            assert forall|p: (int, int)| listed_points(points@).contains(p) <==> crosshair(
                at,
            ).contains(p) by {
                lemma_twelve(points@, p);
            }
            assert(listed_points(points@) =~= crosshair(at));
        }
        self.draw_points(&points, rgb);
    }

    /// Draws corner brackets around a storm cell, so that the marker never covers the echo it
    /// points at. Those of the selected cell are larger.
    pub fn draw_cell_marker(&mut self, at: (i64, i64), rgb: Rgb, selected: bool)
        requires
            old(self).wf(),
            i64::MIN + 6 <= at.0 <= i64::MAX - 6,
            i64::MIN + 6 <= at.1 <= i64::MAX - 6,
        ensures
            final(self).wf(),
            final(self).painted_over(
                *old(self),
                brackets(
                    at,
                    (if selected {
                        6
                    } else {
                        4
                    }),
                    (if selected {
                        3
                    } else {
                        2
                    }),
                ),
                rgb,
            ),
    {
        let (cx, cy) = at;
        let r: i64 = if selected {
            6
        } else {
            4
        };
        let arm: i64 = if selected {
            3
        } else {
            2
        };
        let mut points: Vec<(i64, i64)> = Vec::new();
        let mut d: i64 = 0;
        assert(listed_points(points@) =~= brackets(at, r as int, 0)) by {
            assert forall|p: (int, int)| !brackets(at, r as int, 0).contains(p) by {}
        }
        while d < arm
            invariant
                0 <= d <= arm,
                arm < r <= 6,
                at == (cx, cy),
                i64::MIN + 6 <= cx <= i64::MAX - 6,
                i64::MIN + 6 <= cy <= i64::MAX - 6,
                listed_points(points@) == brackets(at, r as int, d as int),
            decreases arm - d,
        {
            let ghost before = points@;
            points.push((cx - r + d, cy - r));
            points.push((cx - r, cy - r + d));
            points.push((cx + r - d, cy - r));
            points.push((cx + r, cy - r + d));
            points.push((cx - r + d, cy + r));
            points.push((cx - r, cy + r - d));
            points.push((cx + r - d, cy + r));
            points.push((cx + r, cy + r - d));
            proof {
                assert forall|p: (int, int)| listed_points(points@).contains(p) <==> brackets(
                    at,
                    r as int,
                    d + 1,
                ).contains(p) by {
                    lemma_eight_more(before, points@, p);
                    assert(listed_points(before).contains(p) == brackets(
                        at,
                        r as int,
                        d as int,
                    ).contains(p));
                }
                assert(listed_points(points@) =~= brackets(at, r as int, d + 1));
            }
            d += 1;
        }
        self.draw_points(&points, rgb);
    }
}

/// Whether `q` has the coordinates of `p`.
spec fn is_at(q: (i64, i64), p: (int, int)) -> bool {
    q.0 == p.0 && q.1 == p.1
}

proof fn lemma_twelve(points: Seq<(i64, i64)>, p: (int, int))
    requires
        points.len() == 12,
    ensures
        listed_points(points).contains(p) <==> (is_at(points[0], p) || is_at(points[1], p) || is_at(
            points[2],
            p,
        ) || is_at(points[3], p) || is_at(points[4], p) || is_at(points[5], p) || is_at(
            points[6],
            p,
        ) || is_at(points[7], p) || is_at(points[8], p) || is_at(points[9], p) || is_at(
            points[10],
            p,
        ) || is_at(points[11], p)),
{
}

proof fn lemma_eight_more(before: Seq<(i64, i64)>, points: Seq<(i64, i64)>, p: (int, int))
    requires
        points.len() == before.len() + 8,
        forall|i: int| 0 <= i < before.len() ==> #[trigger] points[i] == before[i],
    ensures
        listed_points(points).contains(p) <==> (listed_points(before).contains(p) || is_at(
            points[before.len() as int],
            p,
        ) || is_at(points[before.len() as int + 1], p) || is_at(points[before.len() as int + 2], p) || is_at(
            points[before.len() as int + 3],
            p,
        ) || is_at(points[before.len() as int + 4], p) || is_at(points[before.len() as int + 5], p) || is_at(
            points[before.len() as int + 6],
            p,
        ) || is_at(points[before.len() as int + 7], p)),
{
    if listed_points(before).contains(p) {
        let k = choose|k: int|
            0 <= k < before.len() && (#[trigger] before[k]).0 == p.0 && before[k].1 == p.1;
        assert(points[k].0 == p.0 && points[k].1 == p.1);
    }
    if listed_points(points).contains(p) {
        let k = choose|k: int|
            0 <= k < points.len() && (#[trigger] points[k]).0 == p.0 && points[k].1 == p.1;
        if k < before.len() {
            assert(before[k].0 == p.0 && before[k].1 == p.1);
        }
    }
}

/// A line reaches both of its ends.
pub proof fn law_line_reaches_its_ends(from: (i64, i64), to: (i64, i64))
    ensures
        on_line(from, to, (from.0 as int, from.1 as int)),
        on_line(from, to, (to.0 as int, to.1 as int)),
{
    let n = line_steps(from, to);
    if n > 0 {
        lemma_share_ends(apart(from.0 as int, to.0 as int), n);
        lemma_share_ends(apart(from.1 as int, to.1 as int), n);
    }
    assert(line_point(from, to, 0) == (from.0 as int, from.1 as int));
    assert(line_point(from, to, n) == (to.0 as int, to.1 as int));
}

/// A line has no gaps: from each point to the next, neither coordinate moves by more than
/// one, and one of them moves.
pub proof fn law_line_is_continuous(from: (i64, i64), to: (i64, i64), k: int)
    requires
        0 <= k < line_steps(from, to),
    ensures
        apart(line_point(from, to, k).0, line_point(from, to, k + 1).0) <= 1,
        apart(line_point(from, to, k).1, line_point(from, to, k + 1).1) <= 1,
        line_point(from, to, k) != line_point(from, to, k + 1),
{
    let n = line_steps(from, to);
    let x = apart(from.0 as int, to.0 as int);
    let y = apart(from.1 as int, to.1 as int);
    lemma_error_term(
        x,
        y,
        k,
        n,
        x * (nearest_share(y, k, n) + 1) - y * (nearest_share(x, k, n) + 1),
    );
    lemma_full_share(k, n);
    lemma_full_share(k + 1, n);
}

/// A line stays within the box that its ends span, so one that lies beyond an edge of the
/// picture paints nothing.
pub proof fn law_line_stays_in_its_box(from: (i64, i64), to: (i64, i64), p: (int, int))
    requires
        on_line(from, to, p),
    ensures
        (from.0 <= p.0 <= to.0) || (to.0 <= p.0 <= from.0),
        (from.1 <= p.1 <= to.1) || (to.1 <= p.1 <= from.1),
{
    let n = line_steps(from, to);
    let k = choose|k: int| 0 <= k <= n && #[trigger] line_point(from, to, k) == p;
    if n > 0 {
        lemma_share_within(apart(from.0 as int, to.0 as int), k, n);
        lemma_share_within(apart(from.1 as int, to.1 as int), k, n);
    }
}

/// The first `k` points of a line.
spec fn line_prefix(from: (i64, i64), to: (i64, i64), k: int) -> Set<(int, int)> {
    Set::new(
        |p: (int, int)| exists|j: int| 0 <= j < k && #[trigger] line_point(from, to, j) == p,
    )
}

proof fn lemma_prefix_grows(from: (i64, i64), to: (i64, i64), k: int, p: (int, int))
    requires
        k >= 0,
    ensures
        line_prefix(from, to, k + 1).contains(p) <==> line_prefix(from, to, k).contains(p) || p
            == line_point(from, to, k),
{
    if line_prefix(from, to, k + 1).contains(p) {
        let j = choose|j: int| 0 <= j < k + 1 && #[trigger] line_point(from, to, j) == p;
        assert(j < k || j == k);
    }
    if line_prefix(from, to, k).contains(p) {
        let j = choose|j: int| 0 <= j < k && #[trigger] line_point(from, to, j) == p;
        assert(0 <= j < k + 1);
    }
    if p == line_point(from, to, k) {
        assert(0 <= k < k + 1);
    }
}

/// The rounded share lies within half a unit of the exact one.
proof fn lemma_share_facts(d: int, k: int, n: int)
    requires
        n > 0,
    ensures
        2 * n * nearest_share(d, k, n) <= 2 * d * k + n,
        2 * d * k + n < 2 * n * nearest_share(d, k, n) + 2 * n,
{
    let a = 2 * d * k + n;
    let b = 2 * n;
    vstd::arithmetic::div_mod::lemma_fundamental_div_mod(a, b);
    vstd::arithmetic::div_mod::lemma_mod_bound(a, b);
}

proof fn lemma_share_ends(d: int, n: int)
    requires
        n > 0,
    ensures
        nearest_share(d, 0, n) == 0,
        nearest_share(d, n, n) == d,
{
    lemma_share_facts(d, 0, n);
    lemma_share_facts(d, n, n);
    let a = nearest_share(d, 0, n);
    let b = nearest_share(d, n, n);
    assert(2 * d * 0 == 0);
    assert(a == 0) by (nonlinear_arith)
        requires
            n > 0,
            2 * n * a <= n,
            n < 2 * n * a + 2 * n,
    ;
    assert(b == d) by (nonlinear_arith)
        requires
            n > 0,
            2 * n * b <= 2 * d * n + n,
            2 * d * n + n < 2 * n * b + 2 * n,
    ;
}

proof fn lemma_share_within(d: int, k: int, n: int)
    requires
        n > 0,
        0 <= d <= n,
        0 <= k <= n,
    ensures
        0 <= nearest_share(d, k, n) <= d,
{
    lemma_share_facts(d, k, n);
    let s = nearest_share(d, k, n);
    assert(0 <= s <= d) by (nonlinear_arith)
        requires
            n > 0,
            0 <= d <= n,
            0 <= k <= n,
            2 * n * s <= 2 * d * k + n,
            2 * d * k + n < 2 * n * s + 2 * n,
    {
        assert(0 <= 2 * d * k <= 2 * d * n);
    }
}

/// The test on the error term tells whether a coordinate moves in the next step.
proof fn lemma_error_term(x: int, y: int, k: int, n: int, err: int)
    requires
        0 <= x <= n,
        0 <= y <= n,
        n == x || n == y,
        n > 0,
        0 <= k < n,
        err == x * (nearest_share(y, k, n) + 1) - y * (nearest_share(x, k, n) + 1),
    ensures
        nearest_share(x, k + 1, n) == nearest_share(x, k, n) + (if 2 * err >= -y {
            1int
        } else {
            0
        }),
        nearest_share(y, k + 1, n) == nearest_share(y, k, n) + (if 2 * err <= x {
            1int
        } else {
            0
        }),
        -3 * n <= 2 * err <= 3 * n,
        err + (if 2 * err >= -y {
            -y
        } else {
            0
        }) + (if 2 * err <= x {
            x
        } else {
            0
        }) == x * (nearest_share(y, k + 1, n) + 1) - y * (nearest_share(x, k + 1, n) + 1),
{
    let i = nearest_share(x, k, n);
    let j = nearest_share(y, k, n);
    let i2 = nearest_share(x, k + 1, n);
    let j2 = nearest_share(y, k + 1, n);
    lemma_share_facts(x, k, n);
    lemma_share_facts(y, k, n);
    lemma_share_facts(x, k + 1, n);
    lemma_share_facts(y, k + 1, n);
    assert(2 * x * (k + 1) == 2 * x * k + 2 * x) by (nonlinear_arith);
    assert(2 * y * (k + 1) == 2 * y * k + 2 * y) by (nonlinear_arith);
    if n == x {
        lemma_full_share(k, n);
        lemma_full_share(k + 1, n);
        assert(i == k && i2 == k + 1);
        assert(x * (j + 1) == n * j + n) by (nonlinear_arith)
            requires
                n == x,
        ;
        assert(y * (i + 1) == y * k + y) by (nonlinear_arith)
            requires
                i == k,
        ;
        assert(2 * n * j == 2 * (n * j)) by (nonlinear_arith);
        assert(2 * y * k == 2 * (y * k)) by (nonlinear_arith);
        assert(2 * n * j2 == 2 * (n * j2)) by (nonlinear_arith);
        assert(j2 == j || j2 == j + 1) by (nonlinear_arith)
            requires
                n > 0,
                0 <= y <= n,
                2 * n * j <= 2 * y * k + n,
                2 * y * k + n < 2 * n * j + 2 * n,
                2 * n * j2 <= 2 * y * k + 2 * y + n,
                2 * y * k + 2 * y + n < 2 * n * j2 + 2 * n,
        ;
        assert(n * (j + 1) == n * j + n) by (nonlinear_arith);
        assert(x * (j2 + 1) == n * j2 + n) by (nonlinear_arith)
            requires
                n == x,
        ;
        assert(y * (i2 + 1) == y * k + 2 * y) by (nonlinear_arith)
            requires
                i2 == k + 1,
        ;
    } else {
        lemma_full_share(k, n);
        lemma_full_share(k + 1, n);
        assert(j == k && j2 == k + 1);
        assert(y * (i + 1) == n * i + n) by (nonlinear_arith)
            requires
                n == y,
        ;
        assert(x * (j + 1) == x * k + x) by (nonlinear_arith)
            requires
                j == k,
        ;
        assert(2 * n * i == 2 * (n * i)) by (nonlinear_arith);
        assert(2 * x * k == 2 * (x * k)) by (nonlinear_arith);
        assert(2 * n * i2 == 2 * (n * i2)) by (nonlinear_arith);
        assert(i2 == i || i2 == i + 1) by (nonlinear_arith)
            requires
                n > 0,
                0 <= x <= n,
                2 * n * i <= 2 * x * k + n,
                2 * x * k + n < 2 * n * i + 2 * n,
                2 * n * i2 <= 2 * x * k + 2 * x + n,
                2 * x * k + 2 * x + n < 2 * n * i2 + 2 * n,
        ;
        assert(n * (i + 1) == n * i + n) by (nonlinear_arith);
        assert(y * (i2 + 1) == n * i2 + n) by (nonlinear_arith)
            requires
                n == y,
        ;
        assert(x * (j2 + 1) == x * k + 2 * x) by (nonlinear_arith)
            requires
                j2 == k + 1,
        ;
    }
}

proof fn lemma_full_share(k: int, n: int)
    requires
        n > 0,
    ensures
        nearest_share(n, k, n) == k,
{
    lemma_share_facts(n, k, n);
    let s = nearest_share(n, k, n);
    assert(s == k) by (nonlinear_arith)
        requires
            n > 0,
            2 * n * s <= 2 * n * k + n,
            2 * n * k + n < 2 * n * s + 2 * n,
    ;
}

/// The end of a line is its last point and no earlier one.
proof fn lemma_reached(from: (i64, i64), to: (i64, i64), k: int)
    requires
        0 <= k <= line_steps(from, to),
        line_point(from, to, k) == (to.0 as int, to.1 as int),
    ensures
        k == line_steps(from, to),
{
    let n = line_steps(from, to);
    if n > 0 {
        lemma_full_share(k, n);
    }
}

/// No point of a line lies further than half a pixel, either way, from where the straight line
/// between its ends is after the same share of its steps.
pub proof fn law_line_keeps_to_the_straight_line(from: (i64, i64), to: (i64, i64), k: int)
    requires
        0 <= k <= line_steps(from, to),
        line_steps(from, to) > 0,
    ensures
        ({
            let n = line_steps(from, to);
            let p = line_point(from, to, k);
            &&& apart(2 * n * (p.0 - from.0), 2 * k * (to.0 - from.0)) <= n
            &&& apart(2 * n * (p.1 - from.1), 2 * k * (to.1 - from.1)) <= n
        }),
{
    let n = line_steps(from, to);
    lemma_toward_is_near(from.0 as int, to.0 as int, k, n);
    lemma_toward_is_near(from.1 as int, to.1 as int, k, n);
}

proof fn lemma_toward_is_near(a: int, b: int, k: int, n: int)
    requires
        n > 0,
    ensures
        apart(2 * n * (toward(a, b, k, n) - a), 2 * k * (b - a)) <= n,
{
    if a < b {
        let d = b - a;
        let s = nearest_share(d, k, n);
        lemma_share_facts(d, k, n);
        assert(2 * d * k == 2 * k * d) by (nonlinear_arith);
        assert(toward(a, b, k, n) - a == s);
    } else {
        let d = a - b;
        let s = nearest_share(d, k, n);
        lemma_share_facts(d, k, n);
        assert(2 * k * (b - a) == -(2 * d * k)) by (nonlinear_arith)
            requires
                d == a - b,
        ;
        assert(toward(a, b, k, n) - a == -s);
        assert(2 * n * (-s) == -(2 * n * s)) by (nonlinear_arith);
    }
}

proof fn lemma_outline_edges(corners: Seq<(i64, i64)>, n: int, p: (int, int))
    requires
        n <= corners.len(),
    ensures
        outline(corners, n).contains(p) <==> exists|i: int|
            0 <= i < n - 1 && #[trigger] on_edge(corners, i, p),
    decreases n,
{
    if n > 1 {
        lemma_outline_edges(corners, n - 1, p);
        if outline(corners, n - 1).contains(p) {
            let i = choose|i: int| 0 <= i < n - 2 && #[trigger] on_edge(corners, i, p);
            assert(on_edge(corners, i, p));
        }
        if line_points(corners[n - 2], corners[n - 1]).contains(p) {
            assert(on_edge(corners, n - 2, p));
        }
        if exists|i: int| 0 <= i < n - 1 && #[trigger] on_edge(corners, i, p) {
            let i = choose|i: int| 0 <= i < n - 1 && #[trigger] on_edge(corners, i, p);
            if i == n - 2 {
                assert(line_points(corners[n - 2], corners[n - 1]).contains(p));
            }
        }
    }
}

/// Whether a point lies on the edge from a corner to the next, going round.
pub open spec fn on_edge(corners: Seq<(i64, i64)>, i: int, p: (int, int)) -> bool {
    on_line(
        corners[i],
        corners[if i + 1 < corners.len() {
            i + 1
        } else {
            0
        }],
        p,
    )
}

/// A ring is closed: its points are those of the edges from each corner to the next and from the
/// last to the first, all of them and no others.
pub proof fn law_ring_is_closed(corners: Seq<(i64, i64)>, p: (int, int))
    requires
        corners.len() >= 2,
    ensures
        ring_points(corners).contains(p) <==> exists|i: int|
            0 <= i < corners.len() && #[trigger] on_edge(corners, i, p),
{
    let n = corners.len() as int;
    lemma_outline_edges(corners, n, p);
    if ring_points(corners).contains(p) {
        if !outline(corners, n).contains(p) {
            assert(on_edge(corners, n - 1, p));
        }
    }
    if exists|i: int| 0 <= i < n && #[trigger] on_edge(corners, i, p) {
        let i = choose|i: int| 0 <= i < n && #[trigger] on_edge(corners, i, p);
        if i == n - 1 {
            if corners[0] == corners[n - 1] {
                let c = corners[0];
                assert(line_steps(c, c) == 0);
                assert(p == (c.0 as int, c.1 as int));
                law_line_reaches_its_ends(corners[0], corners[1]);
                assert(on_edge(corners, 0, p));
            } else {
                assert(line_points(corners[n - 1], corners[0]).contains(p));
            }
        }
    }
}

/// The crosshair has four arms of three pixels, along the row and the column of its place, and
/// leaves the place itself and everything beside the two free.
pub proof fn law_crosshair_leaves_its_centre_free(c: (i64, i64), dx: int, dy: int)
    ensures
        crosshair(c).contains((c.0 + dx, c.1 + dy)) <==> {
            ||| dy == 0 && (dx == 1 || dx == 2 || dx == 3 || dx == -1 || dx == -2 || dx == -3)
            ||| dx == 0 && (dy == 1 || dy == 2 || dy == 3 || dy == -1 || dy == -2 || dy == -3)
        },
        !crosshair(c).contains((c.0 as int, c.1 as int)),
{
}

/// Brackets stand in the four corners and look alike in all of them: they take in the corner, go
/// from it along both sides for the length of an arm, and leave the rest, the echo in their middle
/// first of all, free.
pub proof fn law_brackets_leave_the_echo_free(c: (i64, i64), r: int, arm: int, j: int)
    requires
        1 <= arm <= r,
        0 <= j <= r,
    ensures
        ({
            let at = |dx: int, dy: int| brackets(c, r, arm).contains((c.0 + dx, c.1 + dy));
            &&& at(r - j, r) <==> j < arm
            &&& at(r, r - j) <==> j < arm
            &&& at(-(r - j), r) <==> j < arm
            &&& at(r, -(r - j)) <==> j < arm
            &&& at(-(r - j), -r) <==> j < arm
            &&& at(-r, -(r - j)) <==> j < arm
            &&& at(r - j, -r) <==> j < arm
            &&& at(-r, r - j) <==> j < arm
            &&& !at(0, 0)
            &&& forall|dx: int, dy: int|
                -r < dx < r && -r < dy < r ==> !(#[trigger] brackets(c, r, arm).contains(
                    (c.0 + dx, c.1 + dy),
                ))
        }),
{
}

/// The painted pixels of two stretches, one after the other, are counted together, each once.
pub proof fn law_painted_pixels_are_counted_once(
    a: Seq<Option<Rgb>>,
    b: Seq<Option<Rgb>>,
    rgb: Rgb,
)
    ensures
        painted_count(a + b) == painted_count(a) + painted_count(b),
        painted_count(seq![Some(rgb)]) == 1,
        painted_count(seq![None::<Rgb>]) == 0,
    decreases b.len(),
{
    reveal_with_fuel(painted_count, 2);
    assert(seq![Some(rgb)].drop_last() =~= Seq::<Option<Rgb>>::empty());
    assert(seq![None::<Rgb>].drop_last() =~= Seq::<Option<Rgb>>::empty());
    if b.len() == 0 {
        assert(a + b =~= a);
    } else {
        law_painted_pixels_are_counted_once(a, b.drop_last(), rgb);
        assert((a + b).drop_last() =~= a + b.drop_last());
        assert((a + b).last() == b.last());
    }
}

} // verus!
