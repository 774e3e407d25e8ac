//! Closure of the preset boundaries: for every preset figure the composed
//! boundary is a closed loop, shown by computing the exact point sequence
//! and checking every line-to-line junction.

use crate::figure::{concat_cr_fwd, concat_cr_rev, concat_d, TessellationFigure};
use crate::line::TessellationLine;
use crate::num::{abs_i, div_trunc};
use crate::point::Point;
use crate::transform::Transform;
use vstd::prelude::*;

verus! {

/// The two points agree coordinate-wise within `tol` units.
pub open spec fn near(a: Point, b: Point, tol: int) -> bool {
    abs_i(a.x as int - b.x as int) <= tol && abs_i(a.y as int - b.y as int) <= tol
}

/// A boundary built from two-point edges is a closed loop within `tol`:
/// the sequence pairs off into segments, consecutive segments meet
/// endpoint-to-endpoint, and the last segment returns to the first point.
pub open spec fn is_closed_loop(ps: Seq<Point>, tol: int) -> bool {
    &&& ps.len() >= 2
    &&& ps.len() % 2 == 0
    &&& forall|j: int|
        0 <= j < ps.len() && j % 2 == 1 ==> near(
            #[trigger] ps[j],
            ps[(j + 1) % (ps.len() as int)],
            tol,
        )
}

/// Every junction of the presets meets within one unit (one millionth of
/// a world unit); the axis-aligned presets close exactly.
pub const CLOSURE_TOL: i64 = 1;

/// Closure of the square preset: its boundary is a closed loop.
pub proof fn lemma_square_closure(f: TessellationFigure)
    requires
        f.wf(),
        f.lines@.len() == 2,
        !f.is_reversed,
        f.lines@[0].points@ == seq![Point { x: 0i64, y: 0i64 }, Point { x: 0i64, y: 1000000i64 }],
        f.lines@[0].transform == (Transform { a: 1000000i64, b: 0i64, tx: 1000000i64, ty: 0i64 }),
        f.lines@[1].points@ == seq![Point { x: 0i64, y: 1000000i64 }, Point { x: 1000000i64, y: 1000000i64 }],
        f.lines@[1].transform == (Transform { a: 1000000i64, b: 0i64, tx: 0i64, ty: -1000000i64 }),
    ensures
        f.points_s() == seq![
        Point { x: 0i64, y: 0i64 },
        Point { x: 0i64, y: 1000000i64 },
        Point { x: 0i64, y: 1000000i64 },
        Point { x: 1000000i64, y: 1000000i64 },
        Point { x: 1000000i64, y: 1000000i64 },
        Point { x: 1000000i64, y: 0i64 },
        Point { x: 1000000i64, y: 0i64 },
        Point { x: 0i64, y: 0i64 },
        ],
        is_closed_loop(f.points_s(), CLOSURE_TOL as int),
{
    let ls = f.lines@;
    let t0 = ls[0].transform;
    assert(ls[0].cpoints_s().len() == 2);
    assert(ls[0].cpoints_s()[0] == Point { x: 1000000i64, y: 0i64 }) by {
        assert((t0.a as int) * (0int) == 0int && (t0.b as int) * (0int)
            == 0int && (t0.b as int) * (0int) == 0int && (t0.a as int)
            * (0int) == 0int) by (nonlinear_arith)
            requires
                t0.a == 1000000i64,
                t0.b == 0i64,
        ;
        assert(div_trunc(0int, 1_000_000int) == 0int);
        assert(div_trunc(0int, 1_000_000int) == 0int);
        assert(t0.map_x(ls[0].points@[0]) == 1000000int);
        assert(t0.map_y(ls[0].points@[0]) == 0int);
    }
    assert(ls[0].cpoints_s()[1] == Point { x: 1000000i64, y: 1000000i64 }) by {
        assert((t0.a as int) * (0int) == 0int && (t0.b as int) * (1000000int)
            == 0int && (t0.b as int) * (0int) == 0int && (t0.a as int)
            * (1000000int) == 1000000000000int) by (nonlinear_arith)
            requires
                t0.a == 1000000i64,
                t0.b == 0i64,
        ;
        assert(div_trunc(0int, 1_000_000int) == 0int);
        assert(div_trunc(1000000000000int, 1_000_000int) == 1000000int);
        assert(t0.map_x(ls[0].points@[1]) == 1000000int);
        assert(t0.map_y(ls[0].points@[1]) == 1000000int);
    }
    assert(ls[0].crpoints_s() =~= seq![Point { x: 1000000i64, y: 1000000i64 }, Point { x: 1000000i64, y: 0i64 }]);
    let t1 = ls[1].transform;
    assert(ls[1].cpoints_s().len() == 2);
    assert(ls[1].cpoints_s()[0] == Point { x: 0i64, y: 0i64 }) by {
        assert((t1.a as int) * (0int) == 0int && (t1.b as int) * (1000000int)
            == 0int && (t1.b as int) * (0int) == 0int && (t1.a as int)
            * (1000000int) == 1000000000000int) by (nonlinear_arith)
            requires
                t1.a == 1000000i64,
                t1.b == 0i64,
        ;
        assert(div_trunc(0int, 1_000_000int) == 0int);
        assert(div_trunc(1000000000000int, 1_000_000int) == 1000000int);
        assert(t1.map_x(ls[1].points@[0]) == 0int);
        assert(t1.map_y(ls[1].points@[0]) == 0int);
    }
    assert(ls[1].cpoints_s()[1] == Point { x: 1000000i64, y: 0i64 }) by {
        assert((t1.a as int) * (1000000int) == 1000000000000int && (t1.b as int) * (1000000int)
            == 0int && (t1.b as int) * (1000000int) == 0int && (t1.a as int)
            * (1000000int) == 1000000000000int) by (nonlinear_arith)
            requires
                t1.a == 1000000i64,
                t1.b == 0i64,
        ;
        assert(div_trunc(1000000000000int, 1_000_000int) == 1000000int);
        assert(div_trunc(1000000000000int, 1_000_000int) == 1000000int);
        assert(t1.map_x(ls[1].points@[1]) == 1000000int);
        assert(t1.map_y(ls[1].points@[1]) == 0int);
    }
    assert(ls[1].crpoints_s() =~= seq![Point { x: 1000000i64, y: 0i64 }, Point { x: 0i64, y: 0i64 }]);
    assert(concat_d(ls.drop_last().drop_last()) =~= Seq::<Point>::empty());
    assert(concat_d(ls.drop_last()) =~= ls[0].points@);
    assert(concat_d(ls) =~= ls[0].points@ + ls[1].points@);
    assert(concat_cr_fwd(ls.drop_last().drop_last()) =~= Seq::<Point>::empty());
    assert(concat_cr_fwd(ls.drop_last()) =~= ls[0].crpoints_s());
    assert(concat_cr_fwd(ls) =~= ls[0].crpoints_s() + ls[1].crpoints_s());
    assert(f.points_s() =~= seq![
        Point { x: 0i64, y: 0i64 },
        Point { x: 0i64, y: 1000000i64 },
        Point { x: 0i64, y: 1000000i64 },
        Point { x: 1000000i64, y: 1000000i64 },
        Point { x: 1000000i64, y: 1000000i64 },
        Point { x: 1000000i64, y: 0i64 },
        Point { x: 1000000i64, y: 0i64 },
        Point { x: 0i64, y: 0i64 },
    ]);
    let ps = f.points_s();
    assert forall|j: int| 0 <= j < ps.len() && j % 2 == 1 implies near(
        #[trigger] ps[j],
        ps[(j + 1) % (ps.len() as int)],
        CLOSURE_TOL as int,
    ) by {
        if j == 1 {
            assert(near(ps[1], ps[2], CLOSURE_TOL as int));
        }
        if j == 3 {
            assert(near(ps[3], ps[4], CLOSURE_TOL as int));
        }
        if j == 5 {
            assert(near(ps[5], ps[6], CLOSURE_TOL as int));
        }
        if j == 7 {
            assert(near(ps[7], ps[0], CLOSURE_TOL as int));
        }
    }
}

/// Closure of the square90 preset: its boundary is a closed loop.
pub proof fn lemma_square90_closure(f: TessellationFigure)
    requires
        f.wf(),
        f.lines@.len() == 2,
        f.is_reversed,
        f.lines@[0].points@ == seq![Point { x: 0i64, y: 0i64 }, Point { x: 0i64, y: 1000000i64 }],
        f.lines@[0].transform == (Transform { a: 0i64, b: -1000000i64, tx: 0i64, ty: 0i64 }),
        f.lines@[1].points@ == seq![Point { x: 0i64, y: 1000000i64 }, Point { x: 1000000i64, y: 1000000i64 }],
        f.lines@[1].transform == (Transform { a: 0i64, b: 1000000i64, tx: 2000000i64, ty: 0i64 }),
    ensures
        f.points_s() == seq![
        Point { x: 0i64, y: 0i64 },
        Point { x: 0i64, y: 1000000i64 },
        Point { x: 0i64, y: 1000000i64 },
        Point { x: 1000000i64, y: 1000000i64 },
        Point { x: 1000000i64, y: 1000000i64 },
        Point { x: 1000000i64, y: 0i64 },
        Point { x: 1000000i64, y: 0i64 },
        Point { x: 0i64, y: 0i64 },
        ],
        is_closed_loop(f.points_s(), CLOSURE_TOL as int),
{
    let ls = f.lines@;
    let t0 = ls[0].transform;
    assert(ls[0].cpoints_s().len() == 2);
    assert(ls[0].cpoints_s()[0] == Point { x: 0i64, y: 0i64 }) by {
        assert((t0.a as int) * (0int) == 0int && (t0.b as int) * (0int)
            == 0int && (t0.b as int) * (0int) == 0int && (t0.a as int)
            * (0int) == 0int) by (nonlinear_arith)
            requires
                t0.a == 0i64,
                t0.b == -1000000i64,
        ;
        assert(div_trunc(0int, 1_000_000int) == 0int);
        assert(div_trunc(0int, 1_000_000int) == 0int);
        assert(t0.map_x(ls[0].points@[0]) == 0int);
        assert(t0.map_y(ls[0].points@[0]) == 0int);
    }
    assert(ls[0].cpoints_s()[1] == Point { x: 1000000i64, y: 0i64 }) by {
        assert((t0.a as int) * (0int) == 0int && (t0.b as int) * (1000000int)
            == -1000000000000int && (t0.b as int) * (0int) == 0int && (t0.a as int)
            * (1000000int) == 0int) by (nonlinear_arith)
            requires
                t0.a == 0i64,
                t0.b == -1000000i64,
        ;
        assert(div_trunc(1000000000000int, 1_000_000int) == 1000000int);
        assert(div_trunc(0int, 1_000_000int) == 0int);
        assert(t0.map_x(ls[0].points@[1]) == 1000000int);
        assert(t0.map_y(ls[0].points@[1]) == 0int);
    }
    assert(ls[0].crpoints_s() =~= seq![Point { x: 1000000i64, y: 0i64 }, Point { x: 0i64, y: 0i64 }]);
    let t1 = ls[1].transform;
    assert(ls[1].cpoints_s().len() == 2);
    assert(ls[1].cpoints_s()[0] == Point { x: 1000000i64, y: 0i64 }) by {
        assert((t1.a as int) * (0int) == 0int && (t1.b as int) * (1000000int)
            == 1000000000000int && (t1.b as int) * (0int) == 0int && (t1.a as int)
            * (1000000int) == 0int) by (nonlinear_arith)
            requires
                t1.a == 0i64,
                t1.b == 1000000i64,
        ;
        assert(div_trunc(-1000000000000int, 1_000_000int) == -1000000int);
        assert(div_trunc(0int, 1_000_000int) == 0int);
        assert(t1.map_x(ls[1].points@[0]) == 1000000int);
        assert(t1.map_y(ls[1].points@[0]) == 0int);
    }
    assert(ls[1].cpoints_s()[1] == Point { x: 1000000i64, y: 1000000i64 }) by {
        assert((t1.a as int) * (1000000int) == 0int && (t1.b as int) * (1000000int)
            == 1000000000000int && (t1.b as int) * (1000000int) == 1000000000000int && (t1.a as int)
            * (1000000int) == 0int) by (nonlinear_arith)
            requires
                t1.a == 0i64,
                t1.b == 1000000i64,
        ;
        assert(div_trunc(-1000000000000int, 1_000_000int) == -1000000int);
        assert(div_trunc(1000000000000int, 1_000_000int) == 1000000int);
        assert(t1.map_x(ls[1].points@[1]) == 1000000int);
        assert(t1.map_y(ls[1].points@[1]) == 1000000int);
    }
    assert(ls[1].crpoints_s() =~= seq![Point { x: 1000000i64, y: 1000000i64 }, Point { x: 1000000i64, y: 0i64 }]);
    assert(concat_d(ls.drop_last().drop_last()) =~= Seq::<Point>::empty());
    assert(concat_d(ls.drop_last()) =~= ls[0].points@);
    assert(concat_d(ls) =~= ls[0].points@ + ls[1].points@);
    assert(concat_cr_rev(ls.drop_first().drop_first()) =~= Seq::<Point>::empty());
    assert(concat_cr_rev(ls.drop_first()) =~= ls[1].crpoints_s());
    assert(concat_cr_rev(ls) =~= ls[1].crpoints_s() + ls[0].crpoints_s());
    assert(f.points_s() =~= seq![
        Point { x: 0i64, y: 0i64 },
        Point { x: 0i64, y: 1000000i64 },
        Point { x: 0i64, y: 1000000i64 },
        Point { x: 1000000i64, y: 1000000i64 },
        Point { x: 1000000i64, y: 1000000i64 },
        Point { x: 1000000i64, y: 0i64 },
        Point { x: 1000000i64, y: 0i64 },
        Point { x: 0i64, y: 0i64 },
    ]);
    let ps = f.points_s();
    assert forall|j: int| 0 <= j < ps.len() && j % 2 == 1 implies near(
        #[trigger] ps[j],
        ps[(j + 1) % (ps.len() as int)],
        CLOSURE_TOL as int,
    ) by {
        if j == 1 {
            assert(near(ps[1], ps[2], CLOSURE_TOL as int));
        }
        if j == 3 {
            assert(near(ps[3], ps[4], CLOSURE_TOL as int));
        }
        if j == 5 {
            assert(near(ps[5], ps[6], CLOSURE_TOL as int));
        }
        if j == 7 {
            assert(near(ps[7], ps[0], CLOSURE_TOL as int));
        }
    }
}

/// Closure of the diamond preset: its boundary is a closed loop.
pub proof fn lemma_diamond_closure(f: TessellationFigure)
    requires
        f.wf(),
        f.lines@.len() == 2,
        f.is_reversed,
        f.lines@[0].points@ == seq![Point { x: 0i64, y: 0i64 }, Point { x: 0i64, y: 1000000i64 }],
        f.lines@[0].transform == (Transform { a: -500000i64, b: -866025i64, tx: 0i64, ty: 0i64 }),
        f.lines@[1].points@ == seq![Point { x: 0i64, y: 1000000i64 }, Point { x: 866025i64, y: 500000i64 }],
        f.lines@[1].transform == (Transform { a: -500000i64, b: 866025i64, tx: 1732050i64, ty: 0i64 }),
    ensures
        f.points_s() == seq![
        Point { x: 0i64, y: 0i64 },
        Point { x: 0i64, y: 1000000i64 },
        Point { x: 0i64, y: 1000000i64 },
        Point { x: 866025i64, y: 500000i64 },
        Point { x: 866025i64, y: 499999i64 },
        Point { x: 866025i64, y: -500000i64 },
        Point { x: 866025i64, y: -500000i64 },
        Point { x: 0i64, y: 0i64 },
        ],
        is_closed_loop(f.points_s(), CLOSURE_TOL as int),
{
    let ls = f.lines@;
    let t0 = ls[0].transform;
    assert(ls[0].cpoints_s().len() == 2);
    assert(ls[0].cpoints_s()[0] == Point { x: 0i64, y: 0i64 }) by {
        assert((t0.a as int) * (0int) == 0int && (t0.b as int) * (0int)
            == 0int && (t0.b as int) * (0int) == 0int && (t0.a as int)
            * (0int) == 0int) by (nonlinear_arith)
            requires
                t0.a == -500000i64,
                t0.b == -866025i64,
        ;
        assert(div_trunc(0int, 1_000_000int) == 0int);
        assert(div_trunc(0int, 1_000_000int) == 0int);
        assert(t0.map_x(ls[0].points@[0]) == 0int);
        assert(t0.map_y(ls[0].points@[0]) == 0int);
    }
    assert(ls[0].cpoints_s()[1] == Point { x: 866025i64, y: -500000i64 }) by {
        assert((t0.a as int) * (0int) == 0int && (t0.b as int) * (1000000int)
            == -866025000000int && (t0.b as int) * (0int) == 0int && (t0.a as int)
            * (1000000int) == -500000000000int) by (nonlinear_arith)
            requires
                t0.a == -500000i64,
                t0.b == -866025i64,
        ;
        assert(div_trunc(866025000000int, 1_000_000int) == 866025int);
        assert(div_trunc(-500000000000int, 1_000_000int) == -500000int);
        assert(t0.map_x(ls[0].points@[1]) == 866025int);
        assert(t0.map_y(ls[0].points@[1]) == -500000int);
    }
    assert(ls[0].crpoints_s() =~= seq![Point { x: 866025i64, y: -500000i64 }, Point { x: 0i64, y: 0i64 }]);
    let t1 = ls[1].transform;
    assert(ls[1].cpoints_s().len() == 2);
    assert(ls[1].cpoints_s()[0] == Point { x: 866025i64, y: -500000i64 }) by {
        assert((t1.a as int) * (0int) == 0int && (t1.b as int) * (1000000int)
            == 866025000000int && (t1.b as int) * (0int) == 0int && (t1.a as int)
            * (1000000int) == -500000000000int) by (nonlinear_arith)
            requires
                t1.a == -500000i64,
                t1.b == 866025i64,
        ;
        assert(div_trunc(-866025000000int, 1_000_000int) == -866025int);
        assert(div_trunc(-500000000000int, 1_000_000int) == -500000int);
        assert(t1.map_x(ls[1].points@[0]) == 866025int);
        assert(t1.map_y(ls[1].points@[0]) == -500000int);
    }
    assert(ls[1].cpoints_s()[1] == Point { x: 866025i64, y: 499999i64 }) by {
        assert((t1.a as int) * (866025int) == -433012500000int && (t1.b as int) * (500000int)
            == 433012500000int && (t1.b as int) * (866025int) == 749999300625int && (t1.a as int)
            * (500000int) == -250000000000int) by (nonlinear_arith)
            requires
                t1.a == -500000i64,
                t1.b == 866025i64,
        ;
        assert(div_trunc(-866025000000int, 1_000_000int) == -866025int);
        assert(div_trunc(499999300625int, 1_000_000int) == 499999int);
        assert(t1.map_x(ls[1].points@[1]) == 866025int);
        assert(t1.map_y(ls[1].points@[1]) == 499999int);
    }
    assert(ls[1].crpoints_s() =~= seq![Point { x: 866025i64, y: 499999i64 }, Point { x: 866025i64, y: -500000i64 }]);
    assert(concat_d(ls.drop_last().drop_last()) =~= Seq::<Point>::empty());
    assert(concat_d(ls.drop_last()) =~= ls[0].points@);
    assert(concat_d(ls) =~= ls[0].points@ + ls[1].points@);
    assert(concat_cr_rev(ls.drop_first().drop_first()) =~= Seq::<Point>::empty());
    assert(concat_cr_rev(ls.drop_first()) =~= ls[1].crpoints_s());
    assert(concat_cr_rev(ls) =~= ls[1].crpoints_s() + ls[0].crpoints_s());
    assert(f.points_s() =~= seq![
        Point { x: 0i64, y: 0i64 },
        Point { x: 0i64, y: 1000000i64 },
        Point { x: 0i64, y: 1000000i64 },
        Point { x: 866025i64, y: 500000i64 },
        Point { x: 866025i64, y: 499999i64 },
        Point { x: 866025i64, y: -500000i64 },
        Point { x: 866025i64, y: -500000i64 },
        Point { x: 0i64, y: 0i64 },
    ]);
    let ps = f.points_s();
    assert forall|j: int| 0 <= j < ps.len() && j % 2 == 1 implies near(
        #[trigger] ps[j],
        ps[(j + 1) % (ps.len() as int)],
        CLOSURE_TOL as int,
    ) by {
        if j == 1 {
            assert(near(ps[1], ps[2], CLOSURE_TOL as int));
        }
        if j == 3 {
            assert(near(ps[3], ps[4], CLOSURE_TOL as int));
        }
        if j == 5 {
            assert(near(ps[5], ps[6], CLOSURE_TOL as int));
        }
        if j == 7 {
            assert(near(ps[7], ps[0], CLOSURE_TOL as int));
        }
    }
}

/// Closure of the triangle preset: its boundary is a closed loop.
pub proof fn lemma_triangle_closure(f: TessellationFigure)
    requires
        f.wf(),
        f.lines@.len() == 2,
        f.is_reversed,
        f.lines@[0].points@ == seq![Point { x: 0i64, y: 0i64 }, Point { x: -500000i64, y: 866025i64 }],
        f.lines@[0].transform == (Transform { a: 500000i64, b: -866025i64, tx: 0i64, ty: 0i64 }),
        f.lines@[1].points@ == seq![Point { x: -500000i64, y: 866025i64 }, Point { x: 0i64, y: 866025i64 }],
        f.lines@[1].transform == (Transform { a: -1000000i64, b: 0i64, tx: 0i64, ty: 1732050i64 }),
    ensures
        f.points_s() == seq![
        Point { x: 0i64, y: 0i64 },
        Point { x: -500000i64, y: 866025i64 },
        Point { x: -500000i64, y: 866025i64 },
        Point { x: 0i64, y: 866025i64 },
        Point { x: 0i64, y: 866025i64 },
        Point { x: 500000i64, y: 866025i64 },
        Point { x: 499999i64, y: 866025i64 },
        Point { x: 0i64, y: 0i64 },
        ],
        is_closed_loop(f.points_s(), CLOSURE_TOL as int),
{
    let ls = f.lines@;
    let t0 = ls[0].transform;
    assert(ls[0].cpoints_s().len() == 2);
    assert(ls[0].cpoints_s()[0] == Point { x: 0i64, y: 0i64 }) by {
        assert((t0.a as int) * (0int) == 0int && (t0.b as int) * (0int)
            == 0int && (t0.b as int) * (0int) == 0int && (t0.a as int)
            * (0int) == 0int) by (nonlinear_arith)
            requires
                t0.a == 500000i64,
                t0.b == -866025i64,
        ;
        assert(div_trunc(0int, 1_000_000int) == 0int);
        assert(div_trunc(0int, 1_000_000int) == 0int);
        assert(t0.map_x(ls[0].points@[0]) == 0int);
        assert(t0.map_y(ls[0].points@[0]) == 0int);
    }
    assert(ls[0].cpoints_s()[1] == Point { x: 499999i64, y: 866025i64 }) by {
        assert((t0.a as int) * (-500000int) == -250000000000int && (t0.b as int) * (866025int)
            == -749999300625int && (t0.b as int) * (-500000int) == 433012500000int && (t0.a as int)
            * (866025int) == 433012500000int) by (nonlinear_arith)
            requires
                t0.a == 500000i64,
                t0.b == -866025i64,
        ;
        assert(div_trunc(499999300625int, 1_000_000int) == 499999int);
        assert(div_trunc(866025000000int, 1_000_000int) == 866025int);
        assert(t0.map_x(ls[0].points@[1]) == 499999int);
        assert(t0.map_y(ls[0].points@[1]) == 866025int);
    }
    assert(ls[0].crpoints_s() =~= seq![Point { x: 499999i64, y: 866025i64 }, Point { x: 0i64, y: 0i64 }]);
    let t1 = ls[1].transform;
    assert(ls[1].cpoints_s().len() == 2);
    assert(ls[1].cpoints_s()[0] == Point { x: 500000i64, y: 866025i64 }) by {
        assert((t1.a as int) * (-500000int) == 500000000000int && (t1.b as int) * (866025int)
            == 0int && (t1.b as int) * (-500000int) == 0int && (t1.a as int)
            * (866025int) == -866025000000int) by (nonlinear_arith)
            requires
                t1.a == -1000000i64,
                t1.b == 0i64,
        ;
        assert(div_trunc(500000000000int, 1_000_000int) == 500000int);
        assert(div_trunc(-866025000000int, 1_000_000int) == -866025int);
        assert(t1.map_x(ls[1].points@[0]) == 500000int);
        assert(t1.map_y(ls[1].points@[0]) == 866025int);
    }
    assert(ls[1].cpoints_s()[1] == Point { x: 0i64, y: 866025i64 }) by {
        assert((t1.a as int) * (0int) == 0int && (t1.b as int) * (866025int)
            == 0int && (t1.b as int) * (0int) == 0int && (t1.a as int)
            * (866025int) == -866025000000int) by (nonlinear_arith)
            requires
                t1.a == -1000000i64,
                t1.b == 0i64,
        ;
        assert(div_trunc(0int, 1_000_000int) == 0int);
        assert(div_trunc(-866025000000int, 1_000_000int) == -866025int);
        assert(t1.map_x(ls[1].points@[1]) == 0int);
        assert(t1.map_y(ls[1].points@[1]) == 866025int);
    }
    assert(ls[1].crpoints_s() =~= seq![Point { x: 0i64, y: 866025i64 }, Point { x: 500000i64, y: 866025i64 }]);
    assert(concat_d(ls.drop_last().drop_last()) =~= Seq::<Point>::empty());
    assert(concat_d(ls.drop_last()) =~= ls[0].points@);
    assert(concat_d(ls) =~= ls[0].points@ + ls[1].points@);
    assert(concat_cr_rev(ls.drop_first().drop_first()) =~= Seq::<Point>::empty());
    assert(concat_cr_rev(ls.drop_first()) =~= ls[1].crpoints_s());
    assert(concat_cr_rev(ls) =~= ls[1].crpoints_s() + ls[0].crpoints_s());
    assert(f.points_s() =~= seq![
        Point { x: 0i64, y: 0i64 },
        Point { x: -500000i64, y: 866025i64 },
        Point { x: -500000i64, y: 866025i64 },
        Point { x: 0i64, y: 866025i64 },
        Point { x: 0i64, y: 866025i64 },
        Point { x: 500000i64, y: 866025i64 },
        Point { x: 499999i64, y: 866025i64 },
        Point { x: 0i64, y: 0i64 },
    ]);
    let ps = f.points_s();
    assert forall|j: int| 0 <= j < ps.len() && j % 2 == 1 implies near(
        #[trigger] ps[j],
        ps[(j + 1) % (ps.len() as int)],
        CLOSURE_TOL as int,
    ) by {
        if j == 1 {
            assert(near(ps[1], ps[2], CLOSURE_TOL as int));
        }
        if j == 3 {
            assert(near(ps[3], ps[4], CLOSURE_TOL as int));
        }
        if j == 5 {
            assert(near(ps[5], ps[6], CLOSURE_TOL as int));
        }
        if j == 7 {
            assert(near(ps[7], ps[0], CLOSURE_TOL as int));
        }
    }
}

/// Closure of the hexagon preset: its boundary is a closed loop.
pub proof fn lemma_hexagon_closure(f: TessellationFigure)
    requires
        f.wf(),
        f.lines@.len() == 3,
        !f.is_reversed,
        f.lines@[0].points@ == seq![Point { x: 0i64, y: 0i64 }, Point { x: 1000000i64, y: 0i64 }],
        f.lines@[0].transform == (Transform { a: 1000000i64, b: 0i64, tx: 0i64, ty: 1732050i64 }),
        f.lines@[1].points@ == seq![Point { x: 1000000i64, y: 0i64 }, Point { x: 1866025i64, y: 866025i64 }],
        f.lines@[1].transform == (Transform { a: 1000000i64, b: 0i64, tx: -1866025i64, ty: 866025i64 }),
        f.lines@[2].points@ == seq![Point { x: 1866025i64, y: 866025i64 }, Point { x: 1000000i64, y: 1732050i64 }],
        f.lines@[2].transform == (Transform { a: 1000000i64, b: 0i64, tx: -1866025i64, ty: -866025i64 }),
    ensures
        f.points_s() == seq![
        Point { x: 0i64, y: 0i64 },
        Point { x: 1000000i64, y: 0i64 },
        Point { x: 1000000i64, y: 0i64 },
        Point { x: 1866025i64, y: 866025i64 },
        Point { x: 1866025i64, y: 866025i64 },
        Point { x: 1000000i64, y: 1732050i64 },
        Point { x: 1000000i64, y: 1732050i64 },
        Point { x: 0i64, y: 1732050i64 },
        Point { x: 0i64, y: 1732050i64 },
        Point { x: -866025i64, y: 866025i64 },
        Point { x: -866025i64, y: 866025i64 },
        Point { x: 0i64, y: 0i64 },
        ],
        is_closed_loop(f.points_s(), CLOSURE_TOL as int),
{
    let ls = f.lines@;
    let t0 = ls[0].transform;
    assert(ls[0].cpoints_s().len() == 2);
    assert(ls[0].cpoints_s()[0] == Point { x: 0i64, y: 1732050i64 }) by {
        assert((t0.a as int) * (0int) == 0int && (t0.b as int) * (0int)
            == 0int && (t0.b as int) * (0int) == 0int && (t0.a as int)
            * (0int) == 0int) by (nonlinear_arith)
            requires
                t0.a == 1000000i64,
                t0.b == 0i64,
        ;
        assert(div_trunc(0int, 1_000_000int) == 0int);
        assert(div_trunc(0int, 1_000_000int) == 0int);
        assert(t0.map_x(ls[0].points@[0]) == 0int);
        assert(t0.map_y(ls[0].points@[0]) == 1732050int);
    }
    assert(ls[0].cpoints_s()[1] == Point { x: 1000000i64, y: 1732050i64 }) by {
        assert((t0.a as int) * (1000000int) == 1000000000000int && (t0.b as int) * (0int)
            == 0int && (t0.b as int) * (1000000int) == 0int && (t0.a as int)
            * (0int) == 0int) by (nonlinear_arith)
            requires
                t0.a == 1000000i64,
                t0.b == 0i64,
        ;
        assert(div_trunc(1000000000000int, 1_000_000int) == 1000000int);
        assert(div_trunc(0int, 1_000_000int) == 0int);
        assert(t0.map_x(ls[0].points@[1]) == 1000000int);
        assert(t0.map_y(ls[0].points@[1]) == 1732050int);
    }
    assert(ls[0].crpoints_s() =~= seq![Point { x: 1000000i64, y: 1732050i64 }, Point { x: 0i64, y: 1732050i64 }]);
    let t1 = ls[1].transform;
    assert(ls[1].cpoints_s().len() == 2);
    assert(ls[1].cpoints_s()[0] == Point { x: -866025i64, y: 866025i64 }) by {
        assert((t1.a as int) * (1000000int) == 1000000000000int && (t1.b as int) * (0int)
            == 0int && (t1.b as int) * (1000000int) == 0int && (t1.a as int)
            * (0int) == 0int) by (nonlinear_arith)
            requires
                t1.a == 1000000i64,
                t1.b == 0i64,
        ;
        assert(div_trunc(1000000000000int, 1_000_000int) == 1000000int);
        assert(div_trunc(0int, 1_000_000int) == 0int);
        assert(t1.map_x(ls[1].points@[0]) == -866025int);
        assert(t1.map_y(ls[1].points@[0]) == 866025int);
    }
    assert(ls[1].cpoints_s()[1] == Point { x: 0i64, y: 1732050i64 }) by {
        assert((t1.a as int) * (1866025int) == 1866025000000int && (t1.b as int) * (866025int)
            == 0int && (t1.b as int) * (1866025int) == 0int && (t1.a as int)
            * (866025int) == 866025000000int) by (nonlinear_arith)
            requires
                t1.a == 1000000i64,
                t1.b == 0i64,
        ;
        assert(div_trunc(1866025000000int, 1_000_000int) == 1866025int);
        assert(div_trunc(866025000000int, 1_000_000int) == 866025int);
        assert(t1.map_x(ls[1].points@[1]) == 0int);
        assert(t1.map_y(ls[1].points@[1]) == 1732050int);
    }
    assert(ls[1].crpoints_s() =~= seq![Point { x: 0i64, y: 1732050i64 }, Point { x: -866025i64, y: 866025i64 }]);
    let t2 = ls[2].transform;
    assert(ls[2].cpoints_s().len() == 2);
    assert(ls[2].cpoints_s()[0] == Point { x: 0i64, y: 0i64 }) by {
        assert((t2.a as int) * (1866025int) == 1866025000000int && (t2.b as int) * (866025int)
            == 0int && (t2.b as int) * (1866025int) == 0int && (t2.a as int)
            * (866025int) == 866025000000int) by (nonlinear_arith)
            requires
                t2.a == 1000000i64,
                t2.b == 0i64,
        ;
        assert(div_trunc(1866025000000int, 1_000_000int) == 1866025int);
        assert(div_trunc(866025000000int, 1_000_000int) == 866025int);
        assert(t2.map_x(ls[2].points@[0]) == 0int);
        assert(t2.map_y(ls[2].points@[0]) == 0int);
    }
    assert(ls[2].cpoints_s()[1] == Point { x: -866025i64, y: 866025i64 }) by {
        assert((t2.a as int) * (1000000int) == 1000000000000int && (t2.b as int) * (1732050int)
            == 0int && (t2.b as int) * (1000000int) == 0int && (t2.a as int)
            * (1732050int) == 1732050000000int) by (nonlinear_arith)
            requires
                t2.a == 1000000i64,
                t2.b == 0i64,
        ;
        assert(div_trunc(1000000000000int, 1_000_000int) == 1000000int);
        assert(div_trunc(1732050000000int, 1_000_000int) == 1732050int);
        assert(t2.map_x(ls[2].points@[1]) == -866025int);
        assert(t2.map_y(ls[2].points@[1]) == 866025int);
    }
    assert(ls[2].crpoints_s() =~= seq![Point { x: -866025i64, y: 866025i64 }, Point { x: 0i64, y: 0i64 }]);
    assert(concat_d(ls.drop_last().drop_last().drop_last()) =~= Seq::<Point>::empty());
    assert(concat_d(ls.drop_last().drop_last()) =~= ls[0].points@);
    assert(concat_d(ls.drop_last()) =~= ls[0].points@ + ls[1].points@);
    assert(concat_d(ls) =~= ls[0].points@ + ls[1].points@ + ls[2].points@);
    assert(concat_cr_fwd(ls.drop_last().drop_last().drop_last()) =~= Seq::<Point>::empty());
    assert(concat_cr_fwd(ls.drop_last().drop_last()) =~= ls[0].crpoints_s());
    assert(concat_cr_fwd(ls.drop_last()) =~= ls[0].crpoints_s() + ls[1].crpoints_s());
    assert(concat_cr_fwd(ls) =~= ls[0].crpoints_s() + ls[1].crpoints_s() + ls[2].crpoints_s());
    assert(f.points_s() =~= seq![
        Point { x: 0i64, y: 0i64 },
        Point { x: 1000000i64, y: 0i64 },
        Point { x: 1000000i64, y: 0i64 },
        Point { x: 1866025i64, y: 866025i64 },
        Point { x: 1866025i64, y: 866025i64 },
        Point { x: 1000000i64, y: 1732050i64 },
        Point { x: 1000000i64, y: 1732050i64 },
        Point { x: 0i64, y: 1732050i64 },
        Point { x: 0i64, y: 1732050i64 },
        Point { x: -866025i64, y: 866025i64 },
        Point { x: -866025i64, y: 866025i64 },
        Point { x: 0i64, y: 0i64 },
    ]);
    let ps = f.points_s();
    assert forall|j: int| 0 <= j < ps.len() && j % 2 == 1 implies near(
        #[trigger] ps[j],
        ps[(j + 1) % (ps.len() as int)],
        CLOSURE_TOL as int,
    ) by {
        if j == 1 {
            assert(near(ps[1], ps[2], CLOSURE_TOL as int));
        }
        if j == 3 {
            assert(near(ps[3], ps[4], CLOSURE_TOL as int));
        }
        if j == 5 {
            assert(near(ps[5], ps[6], CLOSURE_TOL as int));
        }
        if j == 7 {
            assert(near(ps[7], ps[8], CLOSURE_TOL as int));
        }
        if j == 9 {
            assert(near(ps[9], ps[10], CLOSURE_TOL as int));
        }
        if j == 11 {
            assert(near(ps[11], ps[0], CLOSURE_TOL as int));
        }
    }
}

/// Closure of the brick preset: its boundary is a closed loop.
pub proof fn lemma_brick_closure(f: TessellationFigure)
    requires
        f.wf(),
        f.lines@.len() == 3,
        !f.is_reversed,
        f.lines@[0].points@ == seq![Point { x: 0i64, y: 1000000i64 }, Point { x: 0i64, y: 0i64 }],
        f.lines@[0].transform == (Transform { a: 1000000i64, b: 0i64, tx: 1000000i64, ty: 0i64 }),
        f.lines@[1].points@ == seq![Point { x: 0i64, y: 0i64 }, Point { x: 500000i64, y: 0i64 }],
        f.lines@[1].transform == (Transform { a: 1000000i64, b: 0i64, tx: 500000i64, ty: 1000000i64 }),
        f.lines@[2].points@ == seq![Point { x: 500000i64, y: 0i64 }, Point { x: 1000000i64, y: 0i64 }],
        f.lines@[2].transform == (Transform { a: 1000000i64, b: 0i64, tx: -500000i64, ty: 1000000i64 }),
    ensures
        f.points_s() == seq![
        Point { x: 0i64, y: 1000000i64 },
        Point { x: 0i64, y: 0i64 },
        Point { x: 0i64, y: 0i64 },
        Point { x: 500000i64, y: 0i64 },
        Point { x: 500000i64, y: 0i64 },
        Point { x: 1000000i64, y: 0i64 },
        Point { x: 1000000i64, y: 0i64 },
        Point { x: 1000000i64, y: 1000000i64 },
        Point { x: 1000000i64, y: 1000000i64 },
        Point { x: 500000i64, y: 1000000i64 },
        Point { x: 500000i64, y: 1000000i64 },
        Point { x: 0i64, y: 1000000i64 },
        ],
        is_closed_loop(f.points_s(), CLOSURE_TOL as int),
{
    let ls = f.lines@;
    let t0 = ls[0].transform;
    assert(ls[0].cpoints_s().len() == 2);
    assert(ls[0].cpoints_s()[0] == Point { x: 1000000i64, y: 1000000i64 }) by {
        assert((t0.a as int) * (0int) == 0int && (t0.b as int) * (1000000int)
            == 0int && (t0.b as int) * (0int) == 0int && (t0.a as int)
            * (1000000int) == 1000000000000int) by (nonlinear_arith)
            requires
                t0.a == 1000000i64,
                t0.b == 0i64,
        ;
        assert(div_trunc(0int, 1_000_000int) == 0int);
        assert(div_trunc(1000000000000int, 1_000_000int) == 1000000int);
        assert(t0.map_x(ls[0].points@[0]) == 1000000int);
        assert(t0.map_y(ls[0].points@[0]) == 1000000int);
    }
    assert(ls[0].cpoints_s()[1] == Point { x: 1000000i64, y: 0i64 }) by {
        assert((t0.a as int) * (0int) == 0int && (t0.b as int) * (0int)
            == 0int && (t0.b as int) * (0int) == 0int && (t0.a as int)
            * (0int) == 0int) by (nonlinear_arith)
            requires
                t0.a == 1000000i64,
                t0.b == 0i64,
        ;
        assert(div_trunc(0int, 1_000_000int) == 0int);
        assert(div_trunc(0int, 1_000_000int) == 0int);
        assert(t0.map_x(ls[0].points@[1]) == 1000000int);
        assert(t0.map_y(ls[0].points@[1]) == 0int);
    }
    assert(ls[0].crpoints_s() =~= seq![Point { x: 1000000i64, y: 0i64 }, Point { x: 1000000i64, y: 1000000i64 }]);
    let t1 = ls[1].transform;
    assert(ls[1].cpoints_s().len() == 2);
    assert(ls[1].cpoints_s()[0] == Point { x: 500000i64, y: 1000000i64 }) by {
        assert((t1.a as int) * (0int) == 0int && (t1.b as int) * (0int)
            == 0int && (t1.b as int) * (0int) == 0int && (t1.a as int)
            * (0int) == 0int) by (nonlinear_arith)
            requires
                t1.a == 1000000i64,
                t1.b == 0i64,
        ;
        assert(div_trunc(0int, 1_000_000int) == 0int);
        assert(div_trunc(0int, 1_000_000int) == 0int);
        assert(t1.map_x(ls[1].points@[0]) == 500000int);
        assert(t1.map_y(ls[1].points@[0]) == 1000000int);
    }
    assert(ls[1].cpoints_s()[1] == Point { x: 1000000i64, y: 1000000i64 }) by {
        assert((t1.a as int) * (500000int) == 500000000000int && (t1.b as int) * (0int)
            == 0int && (t1.b as int) * (500000int) == 0int && (t1.a as int)
            * (0int) == 0int) by (nonlinear_arith)
            requires
                t1.a == 1000000i64,
                t1.b == 0i64,
        ;
        assert(div_trunc(500000000000int, 1_000_000int) == 500000int);
        assert(div_trunc(0int, 1_000_000int) == 0int);
        assert(t1.map_x(ls[1].points@[1]) == 1000000int);
        assert(t1.map_y(ls[1].points@[1]) == 1000000int);
    }
    assert(ls[1].crpoints_s() =~= seq![Point { x: 1000000i64, y: 1000000i64 }, Point { x: 500000i64, y: 1000000i64 }]);
    let t2 = ls[2].transform;
    assert(ls[2].cpoints_s().len() == 2);
    assert(ls[2].cpoints_s()[0] == Point { x: 0i64, y: 1000000i64 }) by {
        assert((t2.a as int) * (500000int) == 500000000000int && (t2.b as int) * (0int)
            == 0int && (t2.b as int) * (500000int) == 0int && (t2.a as int)
            * (0int) == 0int) by (nonlinear_arith)
            requires
                t2.a == 1000000i64,
                t2.b == 0i64,
        ;
        assert(div_trunc(500000000000int, 1_000_000int) == 500000int);
        assert(div_trunc(0int, 1_000_000int) == 0int);
        assert(t2.map_x(ls[2].points@[0]) == 0int);
        assert(t2.map_y(ls[2].points@[0]) == 1000000int);
    }
    assert(ls[2].cpoints_s()[1] == Point { x: 500000i64, y: 1000000i64 }) by {
        assert((t2.a as int) * (1000000int) == 1000000000000int && (t2.b as int) * (0int)
            == 0int && (t2.b as int) * (1000000int) == 0int && (t2.a as int)
            * (0int) == 0int) by (nonlinear_arith)
            requires
                t2.a == 1000000i64,
                t2.b == 0i64,
        ;
        assert(div_trunc(1000000000000int, 1_000_000int) == 1000000int);
        assert(div_trunc(0int, 1_000_000int) == 0int);
        assert(t2.map_x(ls[2].points@[1]) == 500000int);
        assert(t2.map_y(ls[2].points@[1]) == 1000000int);
    }
    assert(ls[2].crpoints_s() =~= seq![Point { x: 500000i64, y: 1000000i64 }, Point { x: 0i64, y: 1000000i64 }]);
    assert(concat_d(ls.drop_last().drop_last().drop_last()) =~= Seq::<Point>::empty());
    assert(concat_d(ls.drop_last().drop_last()) =~= ls[0].points@);
    assert(concat_d(ls.drop_last()) =~= ls[0].points@ + ls[1].points@);
    assert(concat_d(ls) =~= ls[0].points@ + ls[1].points@ + ls[2].points@);
    assert(concat_cr_fwd(ls.drop_last().drop_last().drop_last()) =~= Seq::<Point>::empty());
    assert(concat_cr_fwd(ls.drop_last().drop_last()) =~= ls[0].crpoints_s());
    assert(concat_cr_fwd(ls.drop_last()) =~= ls[0].crpoints_s() + ls[1].crpoints_s());
    assert(concat_cr_fwd(ls) =~= ls[0].crpoints_s() + ls[1].crpoints_s() + ls[2].crpoints_s());
    assert(f.points_s() =~= seq![
        Point { x: 0i64, y: 1000000i64 },
        Point { x: 0i64, y: 0i64 },
        Point { x: 0i64, y: 0i64 },
        Point { x: 500000i64, y: 0i64 },
        Point { x: 500000i64, y: 0i64 },
        Point { x: 1000000i64, y: 0i64 },
        Point { x: 1000000i64, y: 0i64 },
        Point { x: 1000000i64, y: 1000000i64 },
        Point { x: 1000000i64, y: 1000000i64 },
        Point { x: 500000i64, y: 1000000i64 },
        Point { x: 500000i64, y: 1000000i64 },
        Point { x: 0i64, y: 1000000i64 },
    ]);
    let ps = f.points_s();
    assert forall|j: int| 0 <= j < ps.len() && j % 2 == 1 implies near(
        #[trigger] ps[j],
        ps[(j + 1) % (ps.len() as int)],
        CLOSURE_TOL as int,
    ) by {
        if j == 1 {
            assert(near(ps[1], ps[2], CLOSURE_TOL as int));
        }
        if j == 3 {
            assert(near(ps[3], ps[4], CLOSURE_TOL as int));
        }
        if j == 5 {
            assert(near(ps[5], ps[6], CLOSURE_TOL as int));
        }
        if j == 7 {
            assert(near(ps[7], ps[8], CLOSURE_TOL as int));
        }
        if j == 9 {
            assert(near(ps[9], ps[10], CLOSURE_TOL as int));
        }
        if j == 11 {
            assert(near(ps[11], ps[0], CLOSURE_TOL as int));
        }
    }
}

} // verus!
