//! Crate-wide laws: properties that relate several operations, stated and
//! proved over the same models the operations' own contracts use.

use crate::figure::{
    concat_cr_fwd, concat_cr_rev, concat_d, fig_hitpoint_from, fig_inserted, fig_updated,
    lemma_concat_cr_fwd_congruent, lemma_concat_cr_rev_congruent, lemma_concat_d_congruent,
    lemma_fig_hitline_bounds, lemma_fig_lens, lines_match, TessellationFigure,
};
use crate::line::{
    hit_s, hitpoint_from, PointIndexPath, TessellationLine,
};
use crate::point::{Point, COORD_LIMIT};
use vstd::prelude::*;
use vstd::multiset::Multiset;
use vstd::seq_lib::lemma_multiset_commutative;

verus! {

/// An interior-point scan starting at or before a matching interior index
/// always answers.
proof fn lemma_hitpoint_scan_finds(
    pts: Seq<Point>,
    p: Point,
    q: Point,
    tol: int,
    i: int,
    j: int,
)
    requires
        1 <= i <= j,
        j + 1 < pts.len(),
        hit_s(p, pts[j], tol) || hit_s(q, pts[j], tol),
    ensures
        hitpoint_from(pts, p, q, tol, i) is Some,
    decreases j - i,
{
    if i == j {
    } else {
        lemma_hitpoint_scan_finds(pts, p, q, tol, i + 1, j);
    }
}

/// A figure-wide interior-point scan starting at or before a line whose
/// own scan answers always answers.
proof fn lemma_fig_hitpoint_finds(
    ls: Seq<TessellationLine>,
    p: Point,
    tol: int,
    i: int,
    li: int,
)
    requires
        0 <= i <= li < ls.len(),
        ls[li].hitpoint_s(p, tol) is Some,
    ensures
        fig_hitpoint_from(ls, p, tol, i) is Some,
    decreases li - i,
{
    if i == li {
    } else {
        match ls[i].hitpoint_s(p, tol) {
            Some(_) => {},
            None => {
                lemma_fig_hitpoint_finds(ls, p, tol, i + 1, li);
            },
        }
    }
}

/// Insert/hit inverse: breaking a segment at `p` through the path the
/// segment scan returned makes `p`'s position an addressable interior
/// point, so any later interior-point scan for `p` with a positive
/// tolerance answers.  The stored point is exactly the scanned position,
/// written in the frame the path was taken in.
pub proof fn lemma_insert_then_hitpoint(
    f: TessellationFigure,
    g: TessellationFigure,
    p: Point,
    tol1: int,
    tol2: int,
    h: PointIndexPath,
)
    requires
        f.wf(),
        p.within(COORD_LIMIT as int),
        f.hitline_s(p, tol1) == Some(h),
        fig_inserted(f, g, h, p),
        tol2 > 0,
    ensures
        g.hitpoints_s(p, tol2) is Some,
        g.lines@[h.line_index as int].points@[h.point_index + 1] == f.write_target(h, p),
{
    let li = h.line_index as int;
    lemma_fig_lens(f);
    lemma_fig_hitline_bounds(f.lines@, p, tol1, 0, h);
    let old_pts = f.lines@[li].points@;
    let w = f.write_target(h, p);
    let new_pts = g.lines@[li].points@;
    assert(new_pts == old_pts.insert(h.point_index + 1, w));
    let j = h.point_index + 1;
    assert(new_pts[j] == w);
    assert(g.lines@[li].cpoint_s(p) == f.lines@[li].cpoint_s(p));
    let q = g.lines@[li].cpoint_s(p);
    if h.corrp {
        assert(w == q);
        assert(hit_s(q, new_pts[j], tol2));
    } else {
        assert(w == p);
        assert(hit_s(p, new_pts[j], tol2));
    }
    lemma_hitpoint_scan_finds(new_pts, p, q, tol2, 1, j);
    assert(g.lines@[li].hitpoint_s(p, tol2) is Some);
    lemma_fig_hitpoint_finds(g.lines@, p, tol2, 0, li);
}

/// Frame-conversion idempotence: overwriting a corresponding-frame point
/// with the world position it currently shows leaves the figure
/// unchanged, exactly, whenever the owning edge's rotation is an exact
/// quarter turn.
pub proof fn lemma_corrp_update_identity(
    f: TessellationFigure,
    g: TessellationFigure,
    path: PointIndexPath,
    w: Point,
)
    requires
        f.wf(),
        f.path_in_bounds(path),
        path.corrp,
        f.lines@[path.line_index as int].transform.quarter(),
        w == f.lines@[path.line_index as int].transform.map_s(
            f.lines@[path.line_index as int].points@[path.point_index as int],
        ),
        fig_updated(f, g, path, w),
    ensures
        lines_match(g.lines@, f.lines@),
        g.points_s() == f.points_s(),
{
    let li = path.line_index as int;
    let pi = path.point_index as int;
    let l = f.lines@[li];
    assert(l.wf());
    assert(l.points@[pi].within(crate::point::STORE_LIMIT as int));
    crate::transform::lemma_quarter_roundtrip(l.transform, l.points@[pi]);
    assert(f.write_target(path, w) == l.cpoint_s(w));
    assert(l.cpoint_s(w) == l.points@[pi]);
    assert(g.lines@[li].points@ == l.points@.update(pi, l.points@[pi]));
    assert(l.points@.update(pi, l.points@[pi]) =~= l.points@);
    assert(lines_match(g.lines@, f.lines@));
    lemma_concat_d_congruent(g.lines@, f.lines@);
    lemma_concat_cr_fwd_congruent(g.lines@, f.lines@);
    lemma_concat_cr_rev_congruent(g.lines@, f.lines@);
}

/// The per-line multisets of corresponding points, summed in line order.
spec fn cr_multiset(ls: Seq<TessellationLine>) -> Multiset<Point>
    decreases ls.len(),
{
    if ls.len() == 0 {
        Multiset::empty()
    } else {
        cr_multiset(ls.drop_last()).add(ls.last().crpoints_s().to_multiset())
    }
}

/// The forward-order concatenation carries exactly the summed multiset.
proof fn lemma_cr_fwd_multiset(ls: Seq<TessellationLine>)
    ensures
        concat_cr_fwd(ls).to_multiset() == cr_multiset(ls),
    decreases ls.len(),
{
    broadcast use vstd::seq_lib::group_to_multiset_ensures;
    broadcast use vstd::multiset::group_multiset_axioms;

    if ls.len() == 0 {
        assert(concat_cr_fwd(ls).to_multiset().len() == 0);
        assert(concat_cr_fwd(ls).to_multiset() =~= Multiset::empty());
    } else {
        lemma_cr_fwd_multiset(ls.drop_last());
        lemma_multiset_commutative(concat_cr_fwd(ls.drop_last()), ls.last().crpoints_s());
    }
}

/// The summed multiset may equally be peeled from the front.
proof fn lemma_cr_multiset_first(ls: Seq<TessellationLine>)
    requires
        ls.len() > 0,
    ensures
        cr_multiset(ls) == cr_multiset(ls.drop_first()).add(
            ls.first().crpoints_s().to_multiset(),
        ),
    decreases ls.len(),
{
    broadcast use vstd::multiset::group_multiset_axioms;

    if ls.len() == 1 {
        assert(ls.drop_first().len() == 0);
        assert(ls.drop_last().len() == 0);
        assert(ls.first() == ls.last());
        let m = ls.last().crpoints_s().to_multiset();
        assert(cr_multiset(ls.drop_last()) == Multiset::<Point>::empty());
        assert(cr_multiset(ls.drop_first()) == Multiset::<Point>::empty());
        assert(cr_multiset(ls) == Multiset::<Point>::empty().add(m));
        assert(cr_multiset(ls.drop_first()).add(ls.first().crpoints_s().to_multiset())
            == Multiset::<Point>::empty().add(m));
    } else {
        lemma_cr_multiset_first(ls.drop_last());
        assert(ls.drop_last().drop_first() =~= ls.drop_first().drop_last());
        assert(ls.drop_last().first() == ls.first());
        assert(ls.drop_first().last() == ls.last());
        let inner = cr_multiset(ls.drop_last().drop_first());
        let mfirst = ls.first().crpoints_s().to_multiset();
        let mlast = ls.last().crpoints_s().to_multiset();
        assert(cr_multiset(ls.drop_last()) == inner.add(mfirst));
        assert(cr_multiset(ls) == inner.add(mfirst).add(mlast));
        assert(cr_multiset(ls.drop_first()) == inner.add(mlast));
        assert(inner.add(mfirst).add(mlast) =~= inner.add(mlast).add(mfirst));
    }
}

/// The reverse-order concatenation carries the same summed multiset.
proof fn lemma_cr_rev_multiset(ls: Seq<TessellationLine>)
    ensures
        concat_cr_rev(ls).to_multiset() == cr_multiset(ls),
    decreases ls.len(),
{
    broadcast use vstd::seq_lib::group_to_multiset_ensures;
    broadcast use vstd::multiset::group_multiset_axioms;

    if ls.len() == 0 {
        assert(concat_cr_rev(ls).to_multiset().len() == 0);
        assert(concat_cr_rev(ls).to_multiset() =~= Multiset::empty());
    } else {
        lemma_cr_rev_multiset(ls.drop_first());
        lemma_multiset_commutative(concat_cr_rev(ls.drop_first()), ls.first().crpoints_s());
        lemma_cr_multiset_first(ls);
        assert(cr_multiset(ls.drop_first()).add(ls.first().crpoints_s().to_multiset())
            =~= cr_multiset(ls));
    }
}

/// Reversal invariance: toggling `is_reversed` changes only the order in
/// which the boundary is traversed, never the multiset of emitted points.
pub proof fn lemma_reversal_keeps_point_multiset(f: TessellationFigure, g: TessellationFigure)
    requires
        lines_match(g.lines@, f.lines@),
    ensures
        g.points_s().to_multiset() == f.points_s().to_multiset(),
{
    broadcast use vstd::multiset::group_multiset_axioms;

    let ls = f.lines@;
    lemma_concat_d_congruent(g.lines@, ls);
    lemma_concat_cr_fwd_congruent(g.lines@, ls);
    lemma_concat_cr_rev_congruent(g.lines@, ls);
    lemma_cr_fwd_multiset(ls);
    lemma_cr_rev_multiset(ls);
    lemma_multiset_commutative(concat_d(ls), concat_cr_fwd(ls));
    lemma_multiset_commutative(concat_d(ls), concat_cr_rev(ls));
    assert(f.points_s().to_multiset() =~= concat_d(ls).to_multiset().add(cr_multiset(ls)));
    assert(g.points_s().to_multiset() =~= concat_d(ls).to_multiset().add(cr_multiset(ls)));
}


/// A figure restored from persisted state with the same line models and
/// the same traversal selector composes the identical boundary.
pub proof fn lemma_same_model_same_boundary(f: TessellationFigure, g: TessellationFigure)
    requires
        lines_match(g.lines@, f.lines@),
        g.is_reversed == f.is_reversed,
    ensures
        g.points_s() == f.points_s(),
{
    lemma_concat_d_congruent(g.lines@, f.lines@);
    lemma_concat_cr_fwd_congruent(g.lines@, f.lines@);
    lemma_concat_cr_rev_congruent(g.lines@, f.lines@);
}

} // verus!
