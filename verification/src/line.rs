//! One authored boundary edge, the rigid transform producing its
//! corresponding partner edge, and point/segment hit-testing.

use crate::num::{abs_i, isqrt, isqrt_s, SCALE};
use crate::point::{Point, COORD_LIMIT, STORE_LIMIT};
use crate::transform::{Rotation, Transform, APPLY_OUTPUT_LIMIT, NORM_MAX};
use vstd::prelude::*;

verus! {

/// Hit-test arguments may lie anywhere a transformed in-range point can
/// land, with room to spare.
pub const HIT_INPUT_LIMIT: i64 = 50_000_000_000;

/// The address of one editable point: owning line, position within the
/// line, and whether the address was taken in the corresponding frame.
#[derive(Clone, Copy, Debug, PartialEq, Eq, Structural)]
pub struct PointIndexPath {
    pub line_index: usize,
    pub point_index: usize,
    pub corrp: bool,
}

/// A coordinate-wise box test: both offsets strictly inside the half-width.
pub open spec fn hit_s(p1: Point, p2: Point, tol: int) -> bool {
    let dx = p1.x as int - p2.x as int;
    let dy = p1.y as int - p2.y as int;
    -tol < dx < tol && -tol < dy < tol
}

/// Check whether two points coincide within a box of half-width `rectsize`.
pub fn hit(p1: Point, p2: Point, rectsize: i64) -> (r: bool)
    requires
        p1.within(HIT_INPUT_LIMIT as int),
        p2.within(HIT_INPUT_LIMIT as int),
        abs_i(rectsize as int) <= COORD_LIMIT as int,
    ensures
        r == hit_s(p1, p2, rectsize as int),
{
    let dx = p1.x - p2.x;
    let dy = p1.y - p2.y;
    dx < rectsize && dx > -rectsize && dy < rectsize && dy > -rectsize
}

/// The distance between the origin and `p`, rounded down to whole units.
pub fn distance(p: Point) -> (r: i64)
    requires
        p.within(HIT_INPUT_LIMIT as int),
    ensures
        r >= 0,
        r as int == isqrt_s((p.x as int) * (p.x as int) + (p.y as int) * (p.y as int)),
{
    let x: i128 = p.x as i128;
    let y: i128 = p.y as i128;
    proof {
        lemma_square_sum_range(p.x as int, p.y as int, HIT_INPUT_LIMIT as int);
    }
    let n: i128 = x * x + y * y;
    let r: u64 = isqrt(n as u128);
    proof {
        let rr = r as int;
        assert(rr >= 0 && rr * rr <= 80_000_000_000_000_000_000_000int ==> rr
            <= 300_000_000_000int) by (nonlinear_arith);
    }
    r as i64
}

/// Squares and their sum for bounded inputs stay comfortably inside
/// 128-bit arithmetic.
pub proof fn lemma_square_sum_range(x: int, y: int, m: int)
    requires
        abs_i(x) <= m,
        abs_i(y) <= m,
        0 <= m <= 200_000_000_000,
    ensures
        0 <= x * x <= 40_000_000_000_000_000_000_000,
        0 <= y * y <= 40_000_000_000_000_000_000_000,
        0 <= x * x + y * y <= 80_000_000_000_000_000_000_000,
{
    assert(0 <= x * x <= 40_000_000_000_000_000_000_000 && 0 <= y * y
        <= 40_000_000_000_000_000_000_000) by (nonlinear_arith)
        requires
            abs_i(x) <= m,
            abs_i(y) <= m,
            0 <= m <= 200_000_000_000,
    ;
}

/// The segment hit test, mathematically: the squared segment length is
/// positive, the candidate's perpendicular offset from the segment's
/// carrier is strictly within the tolerance (measured against the integer
/// square root of the squared length), and the candidate is strictly
/// closer than one segment length to both endpoints.
pub open spec fn breakline_s(p1: Point, p2: Point, c: Point, tol: int) -> bool {
    let dx = p1.x as int - p2.x as int;
    let dy = p1.y as int - p2.y as int;
    let r2 = dx * dx + dy * dy;
    let cross = (c.x as int) * dy - (c.y as int) * dx + dx * (p2.y as int) - dy * (p2.x as int);
    let d1 = ((c.x as int) - (p1.x as int)) * ((c.x as int) - (p1.x as int)) + ((c.y as int) - (
    p1.y as int)) * ((c.y as int) - (p1.y as int));
    let d2 = ((c.x as int) - (p2.x as int)) * ((c.x as int) - (p2.x as int)) + ((c.y as int) - (
    p2.y as int)) * ((c.y as int) - (p2.y as int));
    r2 > 0 && abs_i(cross) < tol * isqrt_s(r2) && d1 < r2 && d2 < r2
}

/// Check whether `current` falls on the segment from `p1` to `p2`, within
/// perpendicular tolerance `rectsize` and strictly inside the segment
/// bounds.  Degenerate segments never hit.
pub fn breakline(p1: Point, p2: Point, current: Point, rectsize: i64) -> (res: bool)
    requires
        p1.within(HIT_INPUT_LIMIT as int),
        p2.within(HIT_INPUT_LIMIT as int),
        current.within(HIT_INPUT_LIMIT as int),
        abs_i(rectsize as int) <= COORD_LIMIT as int,
    ensures
        res == breakline_s(p1, p2, current, rectsize as int),
{
    let dx: i128 = p1.x as i128 - p2.x as i128;
    let dy: i128 = p1.y as i128 - p2.y as i128;
    proof {
        lemma_square_sum_range(dx as int, dy as int, 100_000_000_000);
    }
    let r2: i128 = dx * dx + dy * dy;
    if r2 > 0 {
        let r: u64 = isqrt(r2 as u128);
        proof {
            let rr = r as int;
            assert(rr >= 0 && rr * rr <= 80_000_000_000_000_000_000_000int ==> rr
                <= 300_000_000_000int) by (nonlinear_arith);
            lemma_cross_terms_range(p1, p2, current);
        }
        let cross: i128 = (current.x as i128) * dy - (current.y as i128) * dx + dx * (p2.y
            as i128) - dy * (p2.x as i128);
        let across: i128 = if cross < 0 {
            -cross
        } else {
            cross
        };
        let e1x: i128 = current.x as i128 - p1.x as i128;
        let e1y: i128 = current.y as i128 - p1.y as i128;
        let e2x: i128 = current.x as i128 - p2.x as i128;
        let e2y: i128 = current.y as i128 - p2.y as i128;
        proof {
            lemma_square_sum_range(e1x as int, e1y as int, 100_000_000_000);
            lemma_square_sum_range(e2x as int, e2y as int, 100_000_000_000);
            assert((rectsize as int) * (r as int) <= 300_000_000_000_000_000_000_000int
                && (rectsize as int) * (r as int) >= -300_000_000_000_000_000_000_000int)
                by (nonlinear_arith)
                requires
                    abs_i(rectsize as int) <= 1_000_000_000,
                    0 <= r as int <= 300_000_000_000,
            ;
        }
        let d1: i128 = e1x * e1x + e1y * e1y;
        let d2: i128 = e2x * e2x + e2y * e2y;
        across < (rectsize as i128) * (r as i128) && d1 < r2 && d2 < r2
    } else {
        false
    }
}

/// The four products inside the segment cross term stay inside 128-bit
/// arithmetic for bounded inputs.
proof fn lemma_cross_terms_range(p1: Point, p2: Point, c: Point)
    requires
        p1.within(HIT_INPUT_LIMIT as int),
        p2.within(HIT_INPUT_LIMIT as int),
        c.within(HIT_INPUT_LIMIT as int),
    ensures
        abs_i((c.x as int) * ((p1.y as int) - (p2.y as int))) <= 10_000_000_000_000_000_000_000,
        abs_i((c.y as int) * ((p1.x as int) - (p2.x as int))) <= 10_000_000_000_000_000_000_000,
        abs_i(((p1.x as int) - (p2.x as int)) * (p2.y as int)) <= 10_000_000_000_000_000_000_000,
        abs_i(((p1.y as int) - (p2.y as int)) * (p2.x as int)) <= 10_000_000_000_000_000_000_000,
{
    assert(abs_i((c.x as int) * ((p1.y as int) - (p2.y as int))) <= 10_000_000_000_000_000_000_000
        && abs_i((c.y as int) * ((p1.x as int) - (p2.x as int))) <= 10_000_000_000_000_000_000_000
        && abs_i(((p1.x as int) - (p2.x as int)) * (p2.y as int)) <= 10_000_000_000_000_000_000_000
        && abs_i(((p1.y as int) - (p2.y as int)) * (p2.x as int))
        <= 10_000_000_000_000_000_000_000) by (nonlinear_arith)
        requires
            abs_i(p1.x as int) <= 50_000_000_000,
            abs_i(p1.y as int) <= 50_000_000_000,
            abs_i(p2.x as int) <= 50_000_000_000,
            abs_i(p2.y as int) <= 50_000_000_000,
            abs_i(c.x as int) <= 50_000_000_000,
            abs_i(c.y as int) <= 50_000_000_000,
    ;
}

/// One authored boundary edge: its point list (the single source of truth),
/// the rigid transform to the corresponding partner edge, and the derived
/// inverse transform.
#[derive(Debug)]
#[verifier::ext_equal]
pub struct TessellationLine {
    pub points: Vec<Point>,
    pub transform: Transform,
    pub ci: Transform,
}

/// First interior point at or after `i` matching `p` directly or `q` in the
/// corresponding frame; the direct frame wins at each index.
pub open spec fn hitpoint_from(pts: Seq<Point>, p: Point, q: Point, tol: int, i: int) -> Option<
    PointIndexPath,
>
    decreases pts.len() - i,
{
    if i < 1 || i + 1 >= pts.len() {
        None
    } else if hit_s(p, pts[i], tol) {
        Some(PointIndexPath { line_index: 0, point_index: i as usize, corrp: false })
    } else if hit_s(q, pts[i], tol) {
        Some(PointIndexPath { line_index: 0, point_index: i as usize, corrp: true })
    } else {
        hitpoint_from(pts, p, q, tol, i + 1)
    }
}

/// First segment at or after `i` hit by `p` directly or by `q` in the
/// corresponding frame; the direct frame wins at each index.
pub open spec fn hitline_from(pts: Seq<Point>, p: Point, q: Point, tol: int, i: int) -> Option<
    PointIndexPath,
>
    decreases pts.len() - i,
{
    if i < 0 || i + 1 >= pts.len() {
        None
    } else if breakline_s(pts[i], pts[i + 1], p, tol) {
        Some(PointIndexPath { line_index: 0, point_index: i as usize, corrp: false })
    } else if breakline_s(pts[i], pts[i + 1], q, tol) {
        Some(PointIndexPath { line_index: 0, point_index: i as usize, corrp: true })
    } else {
        hitline_from(pts, p, q, tol, i + 1)
    }
}

impl TessellationLine {
    /// All stored points lie within the storage range.
    pub open spec fn points_in_range(self) -> bool {
        forall|i: int|
            0 <= i < self.points@.len() ==> #[trigger] self.points@[i].within(STORE_LIMIT as int)
    }

    /// Well-formedness: an authored near-unit transform, the stored inverse
    /// derived from it, and in-range points.
    pub open spec fn wf(self) -> bool {
        &&& self.transform.authored()
        &&& self.transform.wf()
        &&& self.ci == self.transform.inverse_s()
        &&& self.ci.wf()
        &&& self.points_in_range()
    }

    /// The authored points, as a sequence.
    pub open spec fn dpoints_s(self) -> Seq<Point> {
        self.points@
    }

    /// The authored points mapped through the transform, in authored order.
    pub open spec fn cpoints_s(self) -> Seq<Point> {
        Seq::new(self.points@.len(), |i: int| self.transform.map_s(self.points@[i]))
    }

    /// The authored points mapped through the transform, in reverse
    /// authored order.
    pub open spec fn crpoints_s(self) -> Seq<Point> {
        self.cpoints_s().reverse()
    }

    /// A position in the corresponding frame, carried back into the
    /// authored frame through the inverse transform.
    pub open spec fn cpoint_s(self, p: Point) -> Point {
        self.ci.map_s(p)
    }

    /// The point-hit scan for this line.
    pub open spec fn hitpoint_s(self, p: Point, tol: int) -> Option<PointIndexPath> {
        hitpoint_from(self.points@, p, self.cpoint_s(p), tol, 1)
    }

    /// The segment-hit scan for this line.
    pub open spec fn hitline_s(self, p: Point, tol: int) -> Option<PointIndexPath> {
        hitline_from(self.points@, p, self.cpoint_s(p), tol, 0)
    }

    /// Build a line with no points yet: rotate by `rot`, then translate by
    /// `(tx, ty)`; the inverse transform is derived at once.  The rotation
    /// must be near-unit, which makes the transform invertible.
    pub fn new(tx: i64, ty: i64, rot: Rotation) -> (line: TessellationLine)
        requires
            rot.invertible(),
            abs_i(tx as int) <= COORD_LIMIT as int,
            abs_i(ty as int) <= COORD_LIMIT as int,
        ensures
            line.wf(),
            line.points@ == Seq::<Point>::empty(),
            line.transform == (Transform { a: rot.a, b: rot.b, tx, ty }),
    {
        let transform = Transform { a: rot.a, b: rot.b, tx, ty };
        proof {
            assert(abs_i(rot.a as int) <= 1_100_000 && abs_i(rot.b as int) <= 1_100_000)
                by (nonlinear_arith)
                requires
                    (rot.a as int) * (rot.a as int) + (rot.b as int) * (rot.b as int)
                        <= NORM_MAX as int,
                    NORM_MAX == 1_210_000_000_000i64,
            ;
        }
        let ci = transform.inverse();
        TessellationLine { points: Vec::new(), transform, ci }
    }

    /// Append `p` to the back of the authored points.
    pub fn append(&mut self, p: Point)
        requires
            old(self).wf(),
            p.within(STORE_LIMIT as int),
        ensures
            final(self).wf(),
            final(self).points@ == old(self).points@.push(p),
            final(self).transform == old(self).transform,
            final(self).ci == old(self).ci,
    {
        self.points.push(p);
    }

    /// Remove the authored point at `index` and shift down the following
    /// points.
    pub fn remove(&mut self, index: usize)
        requires
            old(self).wf(),
            index < old(self).points@.len(),
        ensures
            final(self).wf(),
            final(self).points@ == old(self).points@.remove(index as int),
            final(self).transform == old(self).transform,
            final(self).ci == old(self).ci,
    {
        self.points.remove(index);
    }

    /// Insert `point` at `index` among the authored points.
    pub fn insert(&mut self, index: usize, point: Point)
        requires
            old(self).wf(),
            index <= old(self).points@.len(),
            point.within(STORE_LIMIT as int),
        ensures
            final(self).wf(),
            final(self).points@ == old(self).points@.insert(index as int, point),
            final(self).transform == old(self).transform,
            final(self).ci == old(self).ci,
    {
        self.points.insert(index, point);
    }

    /// Overwrite the authored point at `index`.
    pub fn update(&mut self, index: usize, point: Point)
        requires
            old(self).wf(),
            index < old(self).points@.len(),
            point.within(STORE_LIMIT as int),
        ensures
            final(self).wf(),
            final(self).points@ == old(self).points@.update(index as int, point),
            final(self).transform == old(self).transform,
            final(self).ci == old(self).ci,
    {
        self.points[index] = point;
    }

    /// The authored points, unchanged and in authored order.
    pub fn dpoints(&self) -> (r: Vec<Point>)
        ensures
            r@ == self.dpoints_s(),
    {
        let mut out: Vec<Point> = Vec::new();
        let mut i: usize = 0;
        while i < self.points.len()
            invariant
                i <= self.points@.len(),
                out@ == self.points@.take(i as int),
            decreases self.points@.len() - i,
    {
            out.push(self.points[i]);
            proof {
                assert(self.points@.take(i + 1int) == self.points@.take(i as int).push(
                    self.points@[i as int]));
            }
            i = i + 1;
        }
        proof {
            assert(self.points@.take(self.points@.len() as int) == self.points@);
        }
        out
    }

    /// The corresponding partner edge: authored points mapped through the
    /// transform, in authored order.
    pub fn cpoints(&self) -> (r: Vec<Point>)
        requires
            self.wf(),
        ensures
            r@ == self.cpoints_s(),
    {
        let mut out: Vec<Point> = Vec::new();
        let mut i: usize = 0;
        while i < self.points.len()
            invariant
                self.wf(),
                i <= self.points@.len(),
                out@ == self.cpoints_s().take(i as int),
            decreases self.points@.len() - i,
    {
            proof {
                assert(self.points@[i as int].within(STORE_LIMIT as int));
            }
            let m = self.transform.map_point(self.points[i]);
            out.push(m);
            proof {
                assert(self.cpoints_s().take(i + 1int) == self.cpoints_s().take(i as int).push(
                    self.cpoints_s()[i as int]));
            }
            i = i + 1;
        }
        proof {
            assert(self.cpoints_s().take(self.points@.len() as int) == self.cpoints_s());
        }
        out
    }

    /// The corresponding partner edge in reverse authored order.
    pub fn crpoints(&self) -> (r: Vec<Point>)
        requires
            self.wf(),
        ensures
            r@ == self.crpoints_s(),
    {
        let mut out: Vec<Point> = Vec::new();
        let mut i: usize = self.points.len();
        while i > 0
            invariant
                i <= self.points@.len(),
                self.wf(),
                out@ == self.crpoints_s().take(self.points@.len() - i),
            decreases i,
    {
            i = i - 1;
            proof {
                assert(self.points@[i as int].within(STORE_LIMIT as int));
            }
            let m = self.transform.map_point(self.points[i]);
            out.push(m);
            proof {
                let n = self.points@.len() as int;
                assert(self.crpoints_s()[n - i - 1] == self.cpoints_s()[i as int]);
                assert(self.crpoints_s().take(n - i) == self.crpoints_s().take(n - i - 1).push(
                    self.crpoints_s()[n - i - 1]));
            }
        }
        proof {
            assert(self.crpoints_s().take(self.points@.len() as int) == self.crpoints_s());
        }
        out
    }

    /// Carry a position expressed in the corresponding frame back into the
    /// authored frame.
    pub fn cpoint(&self, point: Point) -> (r: Point)
        requires
            self.wf(),
            point.within(COORD_LIMIT as int),
        ensures
            r == self.cpoint_s(point),
            r.within(APPLY_OUTPUT_LIMIT as int),
    {
        self.ci.map_point(point)
    }

    /// Scan the interior authored points (the two shared anchors are
    /// excluded) for a box hit against `p1` directly, then against `p1`
    /// carried into the authored frame; the first match wins.
    pub fn hitpoint(&self, p1: Point, rectsize: i64) -> (r: Option<PointIndexPath>)
        requires
            self.wf(),
            self.points@.len() >= 2,
            p1.within(COORD_LIMIT as int),
            abs_i(rectsize as int) <= COORD_LIMIT as int,
        ensures
            r == self.hitpoint_s(p1, rectsize as int),
    {
        let p2 = self.ci.map_point(p1);
        let n: usize = self.points.len();
        let mut i: usize = 1;
        while i < n - 1
            invariant
                self.wf(),
                n == self.points@.len(),
                n >= 2,
                1 <= i,
                i <= n - 1,
                p1.within(COORD_LIMIT as int),
                p2 == self.cpoint_s(p1),
                p2.within(APPLY_OUTPUT_LIMIT as int),
                abs_i(rectsize as int) <= COORD_LIMIT as int,
                self.hitpoint_s(p1, rectsize as int) == hitpoint_from(
                    self.points@,
                    p1,
                    p2,
                    rectsize as int,
                    i as int,
                ),
            decreases self.points@.len() - i,
    {
            let cand = self.points[i];
            proof {
                assert(self.points@[i as int].within(STORE_LIMIT as int));
            }
            if hit(p1, cand, rectsize) {
                return Some(PointIndexPath { line_index: 0, point_index: i, corrp: false });
            }
            if hit(p2, cand, rectsize) {
                return Some(PointIndexPath { line_index: 0, point_index: i, corrp: true });
            }
            i = i + 1;
        }
        None
    }

    /// Scan consecutive authored-point pairs for a segment hit against `p1`
    /// directly, then against `p1` carried into the authored frame; the
    /// first match wins.
    pub fn hitline(&self, p1: Point, rectsize: i64) -> (r: Option<PointIndexPath>)
        requires
            self.wf(),
            p1.within(COORD_LIMIT as int),
            abs_i(rectsize as int) <= COORD_LIMIT as int,
        ensures
            r == self.hitline_s(p1, rectsize as int),
    {
        let p2 = self.ci.map_point(p1);
        let n: usize = self.points.len();
        if n == 0 {
            return None;
        }
        let mut i: usize = 0;
        while i < n - 1
            invariant
                self.wf(),
                n == self.points@.len(),
                n >= 1,
                i <= n - 1,
                p1.within(COORD_LIMIT as int),
                p2 == self.cpoint_s(p1),
                p2.within(APPLY_OUTPUT_LIMIT as int),
                abs_i(rectsize as int) <= COORD_LIMIT as int,
                self.hitline_s(p1, rectsize as int) == hitline_from(
                    self.points@,
                    p1,
                    p2,
                    rectsize as int,
                    i as int,
                ),
            decreases self.points@.len() - i,
    {
            let s1 = self.points[i];
            let s2 = self.points[i + 1];
            proof {
                assert(self.points@[i as int].within(STORE_LIMIT as int));
                assert(self.points@[i + 1int].within(STORE_LIMIT as int));
            }
            if breakline(s1, s2, p1, rectsize) {
                return Some(PointIndexPath { line_index: 0, point_index: i, corrp: false });
            }
            if breakline(s1, s2, p2, rectsize) {
                return Some(PointIndexPath { line_index: 0, point_index: i, corrp: true });
            }
            i = i + 1;
        }
        None
    }
}

/// A segment scan that answers points at an existing segment at or after
/// the scan start.
pub proof fn lemma_hitline_scan_bounds(
    pts: Seq<Point>,
    p: Point,
    q: Point,
    tol: int,
    i: int,
    x: PointIndexPath,
)
    requires
        hitline_from(pts, p, q, tol, i) == Some(x),
        0 <= i,
        pts.len() <= usize::MAX,
    ensures
        i <= x.point_index as int,
        x.point_index + 1 < pts.len(),
    decreases pts.len() - i,
{
    if i < 0 || i + 1 >= pts.len() {
    } else if breakline_s(pts[i], pts[i + 1], p, tol) {
    } else if breakline_s(pts[i], pts[i + 1], q, tol) {
    } else {
        lemma_hitline_scan_bounds(pts, p, q, tol, i + 1, x);
    }
}

/// An interior-point scan that answers points at an existing interior
/// point at or after the scan start.
pub proof fn lemma_hitpoint_scan_bounds(
    pts: Seq<Point>,
    p: Point,
    q: Point,
    tol: int,
    i: int,
    x: PointIndexPath,
)
    requires
        hitpoint_from(pts, p, q, tol, i) == Some(x),
        1 <= i,
        pts.len() <= usize::MAX,
    ensures
        i <= x.point_index as int,
        x.point_index + 1 < pts.len(),
        1 <= x.point_index,
    decreases pts.len() - i,
{
    if i < 1 || i + 1 >= pts.len() {
    } else if hit_s(p, pts[i], tol) {
    } else if hit_s(q, pts[i], tol) {
    } else {
        lemma_hitpoint_scan_bounds(pts, p, q, tol, i + 1, x);
    }
}

/// Carrying an in-range position into the authored frame through a
/// well-formed line's inverse transform lands within the storage range.
pub proof fn lemma_cpoint_in_range(l: TessellationLine, p: Point)
    requires
        l.wf(),
        p.within(COORD_LIMIT as int),
    ensures
        l.cpoint_s(p).within(STORE_LIMIT as int),
        l.cpoint_s(p).x as int == l.ci.map_x(p),
        l.cpoint_s(p).y as int == l.ci.map_y(p),
{
    crate::transform::lemma_inverse_in_range(l.transform);
    let ai = l.ci.a as int;
    let bi = l.ci.b as int;
    let px = p.x as int;
    let py = p.y as int;
    assert(abs_i(ai * px) <= 1_500_000_000_000_000 && abs_i(bi * py) <= 1_500_000_000_000_000
        && abs_i(bi * px) <= 1_500_000_000_000_000 && abs_i(ai * py) <= 1_500_000_000_000_000)
        by (nonlinear_arith)
        requires
            abs_i(ai) <= 1_500_000,
            abs_i(bi) <= 1_500_000,
            abs_i(px) <= 1_000_000_000,
            abs_i(py) <= 1_000_000_000,
    ;
    crate::num::lemma_div_trunc_bound(ai * px - bi * py, SCALE as int, 3_000_000_000_000_000);
    crate::num::lemma_div_trunc_bound(bi * px + ai * py, SCALE as int, 3_000_000_000_000_000);
    assert(3_000_000_000_000_000int / 1_000_000int == 3_000_000_000int);
}

impl Default for TessellationLine {
    /// An empty line under the identity transform.
    fn default() -> (line: TessellationLine)
        ensures
            line.wf(),
            line.points@ == Seq::<Point>::empty(),
            line.transform == (Transform { a: SCALE, b: 0i64, tx: 0i64, ty: 0i64 }),
    {
        let transform = Transform::identity();
        let ci = transform.inverse();
        TessellationLine { points: Vec::new(), transform, ci }
    }
}

} // verus!
