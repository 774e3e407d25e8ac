//! One closed tile boundary: an ordered set of authored edges plus the
//! lattice parameters, composing the full boundary and routing edits and
//! hit-tests to the owning edge.

use crate::line::{PointIndexPath, TessellationLine};
use crate::num::abs_i;
use crate::point::{Point, COORD_LIMIT, STORE_LIMIT};
use crate::shape::TessellationShape;
use vstd::prelude::*;

verus! {

/// One closed tile boundary and its lattice parameters.
#[derive(Debug)]
#[verifier::ext_equal]
pub struct TessellationFigure {
    pub lines: Vec<TessellationLine>,
    pub gridincx: i64,
    pub gridincy: i64,
    pub shiftx: i64,
    pub shifty: i64,
    pub rotdiv: u32,
    pub is_reversed: bool,
    pub shape: TessellationShape,
}

/// The authored points of every line, in line order.
pub open spec fn concat_d(ls: Seq<TessellationLine>) -> Seq<Point>
    decreases ls.len(),
{
    if ls.len() == 0 {
        Seq::empty()
    } else {
        concat_d(ls.drop_last()) + ls.last().dpoints_s()
    }
}

/// The corresponding points of every line in reverse authored order,
/// visiting the lines in forward order.
pub open spec fn concat_cr_fwd(ls: Seq<TessellationLine>) -> Seq<Point>
    decreases ls.len(),
{
    if ls.len() == 0 {
        Seq::empty()
    } else {
        concat_cr_fwd(ls.drop_last()) + ls.last().crpoints_s()
    }
}

/// The corresponding points of every line in reverse authored order,
/// visiting the lines in reverse order.
pub open spec fn concat_cr_rev(ls: Seq<TessellationLine>) -> Seq<Point>
    decreases ls.len(),
{
    if ls.len() == 0 {
        Seq::empty()
    } else {
        concat_cr_rev(ls.drop_first()) + ls.first().crpoints_s()
    }
}

/// First line at or after `i` whose segment scan hits, retagged with the
/// owning line's index.
pub open spec fn fig_hitline_from(
    ls: Seq<TessellationLine>,
    p: Point,
    tol: int,
    i: int,
) -> Option<PointIndexPath>
    decreases ls.len() - i,
{
    if i < 0 || i >= ls.len() {
        None
    } else {
        match ls[i].hitline_s(p, tol) {
            Some(x) => Some(
                PointIndexPath {
                    line_index: i as usize,
                    point_index: x.point_index,
                    corrp: x.corrp,
                },
            ),
            None => fig_hitline_from(ls, p, tol, i + 1),
        }
    }
}

/// First line at or after `i` whose interior-point scan hits, retagged
/// with the owning line's index.
pub open spec fn fig_hitpoint_from(
    ls: Seq<TessellationLine>,
    p: Point,
    tol: int,
    i: int,
) -> Option<PointIndexPath>
    decreases ls.len() - i,
{
    if i < 0 || i >= ls.len() {
        None
    } else {
        match ls[i].hitpoint_s(p, tol) {
            Some(x) => Some(
                PointIndexPath {
                    line_index: i as usize,
                    point_index: x.point_index,
                    corrp: x.corrp,
                },
            ),
            None => fig_hitpoint_from(ls, p, tol, i + 1),
        }
    }
}

/// The two line sequences agree on every model component: point lists,
/// transforms and derived inverses.
pub open spec fn lines_match(a: Seq<TessellationLine>, b: Seq<TessellationLine>) -> bool {
    &&& a.len() == b.len()
    &&& forall|j: int|
        0 <= j < a.len() ==> (#[trigger] a[j]).points@ == b[j].points@ && a[j].transform
            == b[j].transform && a[j].ci == b[j].ci
}

/// Matching line sequences compose the same forward pass.
pub proof fn lemma_concat_d_congruent(a: Seq<TessellationLine>, b: Seq<TessellationLine>)
    requires
        lines_match(a, b),
    ensures
        concat_d(a) == concat_d(b),
    decreases a.len(),
{
    if a.len() == 0 {
        assert(concat_d(a) =~= concat_d(b));
    } else {
        assert(lines_match(a.drop_last(), b.drop_last()));
        lemma_concat_d_congruent(a.drop_last(), b.drop_last());
        assert(a.last().dpoints_s() == b.last().dpoints_s());
    }
}

/// Matching line sequences compose the same forward-order partner pass.
pub proof fn lemma_concat_cr_fwd_congruent(a: Seq<TessellationLine>, b: Seq<TessellationLine>)
    requires
        lines_match(a, b),
    ensures
        concat_cr_fwd(a) == concat_cr_fwd(b),
    decreases a.len(),
{
    if a.len() == 0 {
        assert(concat_cr_fwd(a) =~= concat_cr_fwd(b));
    } else {
        assert(lines_match(a.drop_last(), b.drop_last()));
        lemma_concat_cr_fwd_congruent(a.drop_last(), b.drop_last());
        assert(a.last().cpoints_s() =~= b.last().cpoints_s());
        assert(a.last().crpoints_s() =~= b.last().crpoints_s());
    }
}

/// Matching line sequences compose the same reverse-order partner pass.
pub proof fn lemma_concat_cr_rev_congruent(a: Seq<TessellationLine>, b: Seq<TessellationLine>)
    requires
        lines_match(a, b),
    ensures
        concat_cr_rev(a) == concat_cr_rev(b),
    decreases a.len(),
{
    if a.len() == 0 {
        assert(concat_cr_rev(a) =~= concat_cr_rev(b));
    } else {
        assert(lines_match(a.drop_first(), b.drop_first()));
        lemma_concat_cr_rev_congruent(a.drop_first(), b.drop_first());
        assert(a.first().cpoints_s() =~= b.first().cpoints_s());
        assert(a.first().crpoints_s() =~= b.first().crpoints_s());
    }
}

/// The two figures agree on every lattice parameter and on the tag.
pub open spec fn fig_scalars_eq(a: TessellationFigure, b: TessellationFigure) -> bool {
    &&& a.gridincx == b.gridincx
    &&& a.gridincy == b.gridincy
    &&& a.shiftx == b.shiftx
    &&& a.shifty == b.shifty
    &&& a.rotdiv == b.rotdiv
    &&& a.is_reversed == b.is_reversed
    &&& a.shape == b.shape
}

/// `post` is `pre` with one point inserted just after the position `path`
/// addresses, in the owning line's authored frame; nothing else changed.
pub open spec fn fig_inserted(
    pre: TessellationFigure,
    post: TessellationFigure,
    path: PointIndexPath,
    p: Point,
) -> bool {
    let li = path.line_index as int;
    &&& post.lines@.len() == pre.lines@.len()
    &&& post.lines@[li].points@ == pre.lines@[li].points@.insert(
        path.point_index + 1,
        pre.write_target(path, p),
    )
    &&& post.lines@[li].transform == pre.lines@[li].transform
    &&& post.lines@[li].ci == pre.lines@[li].ci
    &&& forall|j: int| 0 <= j < pre.lines@.len() && j != li ==> post.lines@[j] == pre.lines@[j]
    &&& fig_scalars_eq(pre, post)
}

/// `post` is `pre` with the point `path` addresses overwritten, in the
/// owning line's authored frame; nothing else changed.
pub open spec fn fig_updated(
    pre: TessellationFigure,
    post: TessellationFigure,
    path: PointIndexPath,
    p: Point,
) -> bool {
    let li = path.line_index as int;
    &&& post.lines@.len() == pre.lines@.len()
    &&& post.lines@[li].points@ == pre.lines@[li].points@.update(
        path.point_index as int,
        pre.write_target(path, p),
    )
    &&& post.lines@[li].transform == pre.lines@[li].transform
    &&& post.lines@[li].ci == pre.lines@[li].ci
    &&& forall|j: int| 0 <= j < pre.lines@.len() && j != li ==> post.lines@[j] == pre.lines@[j]
    &&& fig_scalars_eq(pre, post)
}

/// Sequence views of vectors never outgrow the machine's index range.
pub proof fn lemma_fig_lens(f: TessellationFigure)
    ensures
        f.lines@.len() <= usize::MAX,
        forall|k: int|
            0 <= k < f.lines@.len() ==> (#[trigger] f.lines@[k]).points@.len() <= usize::MAX,
{
    assert(f.lines.len() == f.lines@.len());
    assert forall|k: int| 0 <= k < f.lines@.len() implies (#[trigger] f.lines@[
        k
    ]).points@.len() <= usize::MAX by {
        assert(f.lines@[k].points.len() == f.lines@[k].points@.len());
    }
}

/// A segment scan that answers carries in-bounds indices: the owning line
/// exists and the segment's two endpoints exist on it.
pub proof fn lemma_fig_hitline_bounds(
    ls: Seq<TessellationLine>,
    p: Point,
    tol: int,
    i: int,
    x: PointIndexPath,
)
    requires
        fig_hitline_from(ls, p, tol, i) == Some(x),
        ls.len() <= usize::MAX,
        forall|k: int| 0 <= k < ls.len() ==> (#[trigger] ls[k]).points@.len() <= usize::MAX,
    ensures
        (x.line_index as int) < ls.len(),
        x.point_index + 1 < ls[x.line_index as int].points@.len(),
    decreases ls.len() - i,
{
    if i < 0 || i >= ls.len() {
    } else {
        match ls[i].hitline_s(p, tol) {
            Some(y) => {
                crate::line::lemma_hitline_scan_bounds(
                    ls[i].points@,
                    p,
                    ls[i].cpoint_s(p),
                    tol,
                    0,
                    y,
                );
            },
            None => {
                lemma_fig_hitline_bounds(ls, p, tol, i + 1, x);
            },
        }
    }
}

/// An interior-point scan that answers carries in-bounds indices: the
/// owning line exists and the matched point is interior on it.
pub proof fn lemma_fig_hitpoint_bounds(
    ls: Seq<TessellationLine>,
    p: Point,
    tol: int,
    i: int,
    x: PointIndexPath,
)
    requires
        fig_hitpoint_from(ls, p, tol, i) == Some(x),
        ls.len() <= usize::MAX,
        forall|k: int| 0 <= k < ls.len() ==> (#[trigger] ls[k]).points@.len() <= usize::MAX,
    ensures
        (x.line_index as int) < ls.len(),
        1 <= x.point_index,
        x.point_index + 1 < ls[x.line_index as int].points@.len(),
    decreases ls.len() - i,
{
    if i < 0 || i >= ls.len() {
    } else {
        match ls[i].hitpoint_s(p, tol) {
            Some(y) => {
                crate::line::lemma_hitpoint_scan_bounds(
                    ls[i].points@,
                    p,
                    ls[i].cpoint_s(p),
                    tol,
                    1,
                    y,
                );
            },
            None => {
                lemma_fig_hitpoint_bounds(ls, p, tol, i + 1, x);
            },
        }
    }
}

impl TessellationFigure {
    /// Well-formedness: every line is well-formed with at least its two
    /// shared anchor points, and the lattice parameters are in range.
    pub open spec fn wf(self) -> bool {
        &&& forall|i: int| 0 <= i < self.lines@.len() ==> (#[trigger] self.lines@[i]).wf()
        &&& forall|i: int|
            0 <= i < self.lines@.len() ==> (#[trigger] self.lines@[i]).points@.len() >= 2
        &&& abs_i(self.gridincx as int) <= COORD_LIMIT as int
        &&& abs_i(self.gridincy as int) <= COORD_LIMIT as int
        &&& abs_i(self.shiftx as int) <= COORD_LIMIT as int
        &&& abs_i(self.shifty as int) <= COORD_LIMIT as int
    }

    /// The full closed boundary: the authored points of every line in
    /// order, then the corresponding points of every line in reverse
    /// authored order, visiting the lines in reverse order exactly when
    /// `is_reversed` is set.
    pub open spec fn points_s(self) -> Seq<Point> {
        concat_d(self.lines@) + if self.is_reversed {
            concat_cr_rev(self.lines@)
        } else {
            concat_cr_fwd(self.lines@)
        }
    }

    /// The figure-wide segment scan.
    pub open spec fn hitline_s(self, p: Point, tol: int) -> Option<PointIndexPath> {
        fig_hitline_from(self.lines@, p, tol, 0)
    }

    /// The figure-wide interior-point scan.
    pub open spec fn hitpoints_s(self, p: Point, tol: int) -> Option<PointIndexPath> {
        fig_hitpoint_from(self.lines@, p, tol, 0)
    }

    /// A path addresses an existing point of this figure.
    pub open spec fn path_in_bounds(self, path: PointIndexPath) -> bool {
        &&& (path.line_index as int) < self.lines@.len()
        &&& (path.point_index as int) < self.lines@[path.line_index as int].points@.len()
    }

    /// The position a mutation through `path` will write: the given point,
    /// carried into the authored frame first when the path was taken in
    /// the corresponding frame.
    pub open spec fn write_target(self, path: PointIndexPath, p: Point) -> Point {
        if path.corrp {
            self.lines@[path.line_index as int].cpoint_s(p)
        } else {
            p
        }
    }

    /// A figure with no lines and zeroed lattice parameters.
    pub fn new() -> (f: TessellationFigure)
        ensures
            f.wf(),
            f.lines@ == Seq::<TessellationLine>::empty(),
            f.gridincx == 0 && f.gridincy == 0 && f.shiftx == 0 && f.shifty == 0,
            f.rotdiv == 0,
            !f.is_reversed,
            f.shape == TessellationShape::S,
    {
        TessellationFigure {
            lines: Vec::new(),
            gridincx: 0,
            gridincy: 0,
            shiftx: 0,
            shifty: 0,
            rotdiv: 0,
            is_reversed: false,
            shape: TessellationShape::S,
        }
    }

    /// Append an authored edge to the boundary, in declaration order.
    pub fn append(&mut self, line: TessellationLine)
        requires
            old(self).wf(),
            line.wf(),
            line.points@.len() >= 2,
        ensures
            final(self).wf(),
            final(self).lines@ == old(self).lines@.push(line),
            final(self).gridincx == old(self).gridincx,
            final(self).gridincy == old(self).gridincy,
            final(self).shiftx == old(self).shiftx,
            final(self).shifty == old(self).shifty,
            final(self).rotdiv == old(self).rotdiv,
            final(self).is_reversed == old(self).is_reversed,
            final(self).shape == old(self).shape,
    {
        self.lines.push(line);
    }

    /// Compose the full closed boundary.
    pub fn points(&self) -> (r: Vec<Point>)
        requires
            self.wf(),
        ensures
            r@ == self.points_s(),
    {
        let n: usize = self.lines.len();
        let mut out: Vec<Point> = Vec::new();
        let mut i: usize = 0;
        while i < n
            invariant
                self.wf(),
                n == self.lines@.len(),
                i <= n,
                out@ == concat_d(self.lines@.take(i as int)),
            decreases n - i,
        {
            proof {
                assert(self.lines@[i as int].wf());
            }
            let mut d: Vec<Point> = self.lines[i].dpoints();
            out.append(&mut d);
            proof {
                let taken = self.lines@.take(i + 1int);
                assert(taken.drop_last() == self.lines@.take(i as int));
                assert(taken.last() == self.lines@[i as int]);
            }
            i = i + 1;
        }
        proof {
            assert(self.lines@.take(n as int) == self.lines@);
        }
        if self.is_reversed {
            let mut i: usize = n;
            while i > 0
                invariant
                    self.wf(),
                    n == self.lines@.len(),
                    i <= n,
                    out@ == concat_d(self.lines@) + concat_cr_rev(self.lines@.skip(i as int)),
                decreases i,
            {
                i = i - 1;
                proof {
                    assert(self.lines@[i as int].wf());
                }
                let mut c: Vec<Point> = self.lines[i].crpoints();
                out.append(&mut c);
                proof {
                    let sk = self.lines@.skip(i as int);
                    assert(sk.drop_first() == self.lines@.skip(i + 1int));
                    assert(sk.first() == self.lines@[i as int]);
                }
            }
            proof {
                assert(self.lines@.skip(0) == self.lines@);
            }
        } else {
            let mut i: usize = 0;
            while i < n
                invariant
                    self.wf(),
                    n == self.lines@.len(),
                    i <= n,
                    out@ == concat_d(self.lines@) + concat_cr_fwd(self.lines@.take(i as int)),
                decreases n - i,
            {
                proof {
                    assert(self.lines@[i as int].wf());
                }
                let mut c: Vec<Point> = self.lines[i].crpoints();
                out.append(&mut c);
                proof {
                    let taken = self.lines@.take(i + 1int);
                    assert(taken.drop_last() == self.lines@.take(i as int));
                    assert(taken.last() == self.lines@[i as int]);
                }
                i = i + 1;
            }
            proof {
                assert(self.lines@.take(n as int) == self.lines@);
            }
        }
        out
    }

    /// Scan every line in declaration order for a segment hit; the first
    /// match wins, tagged with the owning line's index.
    pub fn hitline(&self, point: Point, rectsize: i64) -> (r: Option<PointIndexPath>)
        requires
            self.wf(),
            point.within(COORD_LIMIT as int),
            abs_i(rectsize as int) <= COORD_LIMIT as int,
        ensures
            r == self.hitline_s(point, rectsize as int),
    {
        let n: usize = self.lines.len();
        let mut i: usize = 0;
        while i < n
            invariant
                self.wf(),
                n == self.lines@.len(),
                i <= n,
                point.within(COORD_LIMIT as int),
                abs_i(rectsize as int) <= COORD_LIMIT as int,
                self.hitline_s(point, rectsize as int) == fig_hitline_from(
                    self.lines@,
                    point,
                    rectsize as int,
                    i as int,
                ),
            decreases n - i,
        {
            proof {
                assert(self.lines@[i as int].wf());
            }
            if let Some(x) = self.lines[i].hitline(point, rectsize) {
                return Some(
                    PointIndexPath {
                        line_index: i,
                        point_index: x.point_index,
                        corrp: x.corrp,
                    },
                );
            }
            i = i + 1;
        }
        None
    }

    /// Scan every line in declaration order for an interior-point hit; the
    /// first match wins, tagged with the owning line's index.
    pub fn hitpoints(&self, point: Point, rectsize: i64) -> (r: Option<PointIndexPath>)
        requires
            self.wf(),
            point.within(COORD_LIMIT as int),
            abs_i(rectsize as int) <= COORD_LIMIT as int,
        ensures
            r == self.hitpoints_s(point, rectsize as int),
    {
        let n: usize = self.lines.len();
        let mut i: usize = 0;
        while i < n
            invariant
                self.wf(),
                n == self.lines@.len(),
                i <= n,
                point.within(COORD_LIMIT as int),
                abs_i(rectsize as int) <= COORD_LIMIT as int,
                self.hitpoints_s(point, rectsize as int) == fig_hitpoint_from(
                    self.lines@,
                    point,
                    rectsize as int,
                    i as int,
                ),
            decreases n - i,
        {
            proof {
                assert(self.lines@[i as int].wf());
                assert(self.lines@[i as int].points@.len() >= 2);
            }
            if let Some(x) = self.lines[i].hitpoint(point, rectsize) {
                return Some(
                    PointIndexPath {
                        line_index: i,
                        point_index: x.point_index,
                        corrp: x.corrp,
                    },
                );
            }
            i = i + 1;
        }
        None
    }

    /// Insert `point` just after the position `path` addresses, carrying
    /// it into the owning line's authored frame first when the path was
    /// taken in the corresponding frame.
    pub fn insert(&mut self, point_index_path: PointIndexPath, point: Point)
        requires
            old(self).wf(),
            old(self).path_in_bounds(point_index_path),
            point.within(COORD_LIMIT as int),
        ensures
            final(self).wf(),
            fig_inserted(*old(self), *final(self), point_index_path, point),
    {
        let li: usize = point_index_path.line_index;
        proof {
            assert(self.lines@[li as int].wf());
            crate::line::lemma_cpoint_in_range(self.lines@[li as int], point);
        }
        let p1: Point = if point_index_path.corrp {
            self.lines[li].cpoint(point)
        } else {
            point
        };
        let n: usize = self.lines[li].points.len();
        proof {
            // the addressed position exists, so the successor index fits
            assert(point_index_path.point_index < n);
        }
        let line = &mut self.lines[li];
        line.insert(point_index_path.point_index + 1, p1);
    }

    /// Overwrite the point `path` addresses, carrying the new position
    /// into the owning line's authored frame first when the path was taken
    /// in the corresponding frame.
    pub fn update(&mut self, point_index_path: PointIndexPath, point: Point)
        requires
            old(self).wf(),
            old(self).path_in_bounds(point_index_path),
            point.within(COORD_LIMIT as int),
        ensures
            final(self).wf(),
            fig_updated(*old(self), *final(self), point_index_path, point),
    {
        let li: usize = point_index_path.line_index;
        proof {
            assert(self.lines@[li as int].wf());
            crate::line::lemma_cpoint_in_range(self.lines@[li as int], point);
        }
        let p1: Point = if point_index_path.corrp {
            self.lines[li].cpoint(point)
        } else {
            point
        };
        let line = &mut self.lines[li];
        line.update(point_index_path.point_index, p1);
    }
}

} // verus!
