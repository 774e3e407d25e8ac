//! Preset figure templates: each sets the lattice parameters and appends
//! its edges with literal transforms and authored points, encoding one
//! classical interlocking template.  The rotation entries are the
//! fixed-point cosine and sine of each template's edge-matching angle.

use crate::figure::TessellationFigure;
use crate::line::TessellationLine;
use crate::point::Point;
use crate::shape::TessellationShape;
use crate::transform::{Rotation, Transform};
use vstd::prelude::*;

verus! {

/// Negation squares away.
proof fn lemma_neg_sq(x: int)
    ensures
        (-x) * (-x) == x * x,
{
    assert((-x) * (-x) == x * x) by (nonlinear_arith);
}

/// Every rotation a preset uses is within the near-unit band.
proof fn lemma_preset_rotations()
    ensures
        (Rotation { a: 1_000_000i64, b: 0i64 }).invertible(),
        (Rotation { a: -1_000_000i64, b: 0i64 }).invertible(),
        (Rotation { a: 0i64, b: 1_000_000i64 }).invertible(),
        (Rotation { a: 0i64, b: -1_000_000i64 }).invertible(),
        (Rotation { a: -500_000i64, b: -866_025i64 }).invertible(),
        (Rotation { a: -500_000i64, b: 866_025i64 }).invertible(),
        (Rotation { a: 500_000i64, b: -866_025i64 }).invertible(),
{
    let r1 = Rotation { a: 1_000_000i64, b: 0i64 };
    assert(r1.norm2() == 1_000_000_000_000int) by (nonlinear_arith)
        requires
            r1.a == 1_000_000i64,
            r1.b == 0i64,
    ;
    let r2 = Rotation { a: -1_000_000i64, b: 0i64 };
    assert(r2.norm2() == 1_000_000_000_000int) by (nonlinear_arith)
        requires
            r2.a == -1_000_000i64,
            r2.b == 0i64,
    ;
    let r3 = Rotation { a: 0i64, b: 1_000_000i64 };
    assert(r3.norm2() == 1_000_000_000_000int) by (nonlinear_arith)
        requires
            r3.a == 0i64,
            r3.b == 1_000_000i64,
    ;
    let r4 = Rotation { a: 0i64, b: -1_000_000i64 };
    assert(r4.norm2() == 1_000_000_000_000int) by (nonlinear_arith)
        requires
            r4.a == 0i64,
            r4.b == -1_000_000i64,
    ;
    lemma_neg_sq(500_000int);
    lemma_neg_sq(866_025int);
    assert((500_000int) * (500_000int) == 250_000_000_000int);
    assert((866_025int) * (866_025int) == 749_999_300_625int);
    let r5 = Rotation { a: -500_000i64, b: -866_025i64 };
    assert(r5.norm2() == 999_999_300_625int);
    let r6 = Rotation { a: -500_000i64, b: 866_025i64 };
    assert(r6.norm2() == 999_999_300_625int);
    let r7 = Rotation { a: 500_000i64, b: -866_025i64 };
    assert(r7.norm2() == 999_999_300_625int);
}

/// A two-point edge under the given transform.
fn edge2(tx: i64, ty: i64, rot: Rotation, q1: Point, q2: Point) -> (l: TessellationLine)
    requires
        rot.invertible(),
        crate::num::abs_i(tx as int) <= crate::point::COORD_LIMIT as int,
        crate::num::abs_i(ty as int) <= crate::point::COORD_LIMIT as int,
        q1.within(crate::point::STORE_LIMIT as int),
        q2.within(crate::point::STORE_LIMIT as int),
    ensures
        l.wf(),
        l.points@ == seq![q1, q2],
        l.points@.len() == 2,
        l.transform == (Transform { a: rot.a, b: rot.b, tx, ty }),
{
    let mut l = TessellationLine::new(tx, ty, rot);
    l.append(q1);
    l.append(q2);
    proof {
        assert(l.points@ =~= seq![q1, q2]);
    }
    l
}

impl TessellationFigure {
    /// The plain unit square: four trivial edges from two authored ones.
    pub fn square() -> (f: TessellationFigure)
        ensures
            f.wf(),
            f.gridincx == 1_000_000 && f.gridincy == 1_000_000,
            f.shiftx == 0 && f.shifty == 1_000_000,
            f.rotdiv == 1,
            !f.is_reversed,
            f.shape == TessellationShape::S,
            f.lines@.len() == 2,
            f.lines@[0].points@ == seq![
                Point { x: 0i64, y: 0i64 },
                Point { x: 0i64, y: 1_000_000i64 },
            ],
            f.lines@[0].transform == (Transform {
                a: 1_000_000i64,
                b: 0i64,
                tx: 1_000_000i64,
                ty: 0i64,
            }),
            f.lines@[1].points@ == seq![
                Point { x: 0i64, y: 1_000_000i64 },
                Point { x: 1_000_000i64, y: 1_000_000i64 },
            ],
            f.lines@[1].transform == (Transform {
                a: 1_000_000i64,
                b: 0i64,
                tx: 0i64,
                ty: -1_000_000i64,
            }),
    {
        proof {
            lemma_preset_rotations();
        }
        let mut f = TessellationFigure::new();
        f.gridincx = 1_000_000;
        f.gridincy = 1_000_000;
        f.rotdiv = 1;
        f.is_reversed = false;
        f.shiftx = 0;
        f.shifty = 1_000_000;
        f.shape = TessellationShape::S;
        let l1 = edge2(
            1_000_000,
            0,
            Rotation { a: 1_000_000, b: 0 },
            Point { x: 0, y: 0 },
            Point { x: 0, y: 1_000_000 },
        );
        f.append(l1);
        let l2 = edge2(
            0,
            -1_000_000,
            Rotation { a: 1_000_000, b: 0 },
            Point { x: 0, y: 1_000_000 },
            Point { x: 1_000_000, y: 1_000_000 },
        );
        f.append(l2);
        f
    }

    /// The unit square with quarter-turn edge matching.
    pub fn square90() -> (f: TessellationFigure)
        ensures
            f.wf(),
            f.gridincx == 2_000_000 && f.gridincy == 2_000_000,
            f.shiftx == 0 && f.shifty == 0,
            f.rotdiv == 4,
            f.is_reversed,
            f.shape == TessellationShape::S,
            f.lines@.len() == 2,
            f.lines@[0].points@ == seq![
                Point { x: 0i64, y: 0i64 },
                Point { x: 0i64, y: 1_000_000i64 },
            ],
            f.lines@[0].transform == (Transform {
                a: 0i64,
                b: -1_000_000i64,
                tx: 0i64,
                ty: 0i64,
            }),
            f.lines@[1].points@ == seq![
                Point { x: 0i64, y: 1_000_000i64 },
                Point { x: 1_000_000i64, y: 1_000_000i64 },
            ],
            f.lines@[1].transform == (Transform {
                a: 0i64,
                b: 1_000_000i64,
                tx: 2_000_000i64,
                ty: 0i64,
            }),
    {
        proof {
            lemma_preset_rotations();
        }
        let mut f = TessellationFigure::new();
        f.gridincx = 2_000_000;
        f.gridincy = 2_000_000;
        f.rotdiv = 4;
        f.is_reversed = true;
        f.shiftx = 0;
        f.shifty = 0;
        f.shape = TessellationShape::S;
        let l1 = edge2(
            0,
            0,
            Rotation { a: 0, b: -1_000_000 },
            Point { x: 0, y: 0 },
            Point { x: 0, y: 1_000_000 },
        );
        f.append(l1);
        let l2 = edge2(
            2_000_000,
            0,
            Rotation { a: 0, b: 1_000_000 },
            Point { x: 0, y: 1_000_000 },
            Point { x: 1_000_000, y: 1_000_000 },
        );
        f.append(l2);
        f
    }

    /// The rhombus with third-turn edge matching.
    pub fn diamond() -> (f: TessellationFigure)
        ensures
            f.wf(),
            f.gridincx == 1_732_050 && f.gridincy == 1_500_000,
            f.shiftx == 866_025 && f.shifty == 0,
            f.rotdiv == 3,
            f.is_reversed,
            f.shape == TessellationShape::S,
            f.lines@.len() == 2,
            f.lines@[0].points@ == seq![
                Point { x: 0i64, y: 0i64 },
                Point { x: 0i64, y: 1_000_000i64 },
            ],
            f.lines@[0].transform == (Transform {
                a: -500_000i64,
                b: -866_025i64,
                tx: 0i64,
                ty: 0i64,
            }),
            f.lines@[1].points@ == seq![
                Point { x: 0i64, y: 1_000_000i64 },
                Point { x: 866_025i64, y: 500_000i64 },
            ],
            f.lines@[1].transform == (Transform {
                a: -500_000i64,
                b: 866_025i64,
                tx: 1_732_050i64,
                ty: 0i64,
            }),
    {
        proof {
            lemma_preset_rotations();
        }
        let mut f = TessellationFigure::new();
        f.gridincx = 1_732_050;
        f.gridincy = 1_500_000;
        f.rotdiv = 3;
        f.is_reversed = true;
        f.shiftx = 866_025;
        f.shifty = 0;
        f.shape = TessellationShape::S;
        let l1 = edge2(
            0,
            0,
            Rotation { a: -500_000, b: -866_025 },
            Point { x: 0, y: 0 },
            Point { x: 0, y: 1_000_000 },
        );
        f.append(l1);
        let l2 = edge2(
            1_732_050,
            0,
            Rotation { a: -500_000, b: 866_025 },
            Point { x: 0, y: 1_000_000 },
            Point { x: 866_025, y: 500_000 },
        );
        f.append(l2);
        f
    }

    /// The equilateral triangle with sixth-turn edge matching.
    pub fn triangle() -> (f: TessellationFigure)
        ensures
            f.wf(),
            f.gridincx == 3_000_000 && f.gridincy == 866_025,
            f.shiftx == 1_500_000 && f.shifty == 0,
            f.rotdiv == 6,
            f.is_reversed,
            f.shape == TessellationShape::S,
            f.lines@.len() == 2,
            f.lines@[0].points@ == seq![
                Point { x: 0i64, y: 0i64 },
                Point { x: -500_000i64, y: 866_025i64 },
            ],
            f.lines@[0].transform == (Transform {
                a: 500_000i64,
                b: -866_025i64,
                tx: 0i64,
                ty: 0i64,
            }),
            f.lines@[1].points@ == seq![
                Point { x: -500_000i64, y: 866_025i64 },
                Point { x: 0i64, y: 866_025i64 },
            ],
            f.lines@[1].transform == (Transform {
                a: -1_000_000i64,
                b: 0i64,
                tx: 0i64,
                ty: 1_732_050i64,
            }),
    {
        proof {
            lemma_preset_rotations();
        }
        let mut f = TessellationFigure::new();
        f.gridincx = 3_000_000;
        f.gridincy = 866_025;
        f.rotdiv = 6;
        f.is_reversed = true;
        f.shiftx = 1_500_000;
        f.shifty = 0;
        f.shape = TessellationShape::S;
        let l1 = edge2(
            0,
            0,
            Rotation { a: 500_000, b: -866_025 },
            Point { x: 0, y: 0 },
            Point { x: -500_000, y: 866_025 },
        );
        f.append(l1);
        let l2 = edge2(
            0,
            1_732_050,
            Rotation { a: -1_000_000, b: 0 },
            Point { x: -500_000, y: 866_025 },
            Point { x: 0, y: 866_025 },
        );
        f.append(l2);
        f
    }

    /// The regular hexagon from three translated edges.
    pub fn hexagon() -> (f: TessellationFigure)
        ensures
            f.wf(),
            f.gridincx == 3_732_050 && f.gridincy == 866_025,
            f.shiftx == 1_866_025 && f.shifty == 0,
            f.rotdiv == 1,
            !f.is_reversed,
            f.shape == TessellationShape::S,
            f.lines@.len() == 3,
            f.lines@[0].points@ == seq![
                Point { x: 0i64, y: 0i64 },
                Point { x: 1_000_000i64, y: 0i64 },
            ],
            f.lines@[0].transform == (Transform {
                a: 1_000_000i64,
                b: 0i64,
                tx: 0i64,
                ty: 1_732_050i64,
            }),
            f.lines@[1].points@ == seq![
                Point { x: 1_000_000i64, y: 0i64 },
                Point { x: 1_866_025i64, y: 866_025i64 },
            ],
            f.lines@[1].transform == (Transform {
                a: 1_000_000i64,
                b: 0i64,
                tx: -1_866_025i64,
                ty: 866_025i64,
            }),
            f.lines@[2].points@ == seq![
                Point { x: 1_866_025i64, y: 866_025i64 },
                Point { x: 1_000_000i64, y: 1_732_050i64 },
            ],
            f.lines@[2].transform == (Transform {
                a: 1_000_000i64,
                b: 0i64,
                tx: -1_866_025i64,
                ty: -866_025i64,
            }),
    {
        proof {
            lemma_preset_rotations();
        }
        let mut f = TessellationFigure::new();
        f.gridincx = 3_732_050;
        f.gridincy = 866_025;
        f.rotdiv = 1;
        f.is_reversed = false;
        f.shiftx = 1_866_025;
        f.shifty = 0;
        f.shape = TessellationShape::S;
        let l1 = edge2(
            0,
            1_732_050,
            Rotation { a: 1_000_000, b: 0 },
            Point { x: 0, y: 0 },
            Point { x: 1_000_000, y: 0 },
        );
        f.append(l1);
        let l2 = edge2(
            -1_866_025,
            866_025,
            Rotation { a: 1_000_000, b: 0 },
            Point { x: 1_000_000, y: 0 },
            Point { x: 1_866_025, y: 866_025 },
        );
        f.append(l2);
        let l3 = edge2(
            -1_866_025,
            -866_025,
            Rotation { a: 1_000_000, b: 0 },
            Point { x: 1_866_025, y: 866_025 },
            Point { x: 1_000_000, y: 1_732_050 },
        );
        f.append(l3);
        f
    }

    /// The running-bond brick: three translated edges with a half-period
    /// row stagger.
    pub fn brick() -> (f: TessellationFigure)
        ensures
            f.wf(),
            f.gridincx == 1_000_000 && f.gridincy == 1_000_000,
            f.shiftx == 500_000 && f.shifty == 0,
            f.rotdiv == 1,
            !f.is_reversed,
            f.shape == TessellationShape::S,
            f.lines@.len() == 3,
            f.lines@[0].points@ == seq![
                Point { x: 0i64, y: 1_000_000i64 },
                Point { x: 0i64, y: 0i64 },
            ],
            f.lines@[0].transform == (Transform {
                a: 1_000_000i64,
                b: 0i64,
                tx: 1_000_000i64,
                ty: 0i64,
            }),
            f.lines@[1].points@ == seq![
                Point { x: 0i64, y: 0i64 },
                Point { x: 500_000i64, y: 0i64 },
            ],
            f.lines@[1].transform == (Transform {
                a: 1_000_000i64,
                b: 0i64,
                tx: 500_000i64,
                ty: 1_000_000i64,
            }),
            f.lines@[2].points@ == seq![
                Point { x: 500_000i64, y: 0i64 },
                Point { x: 1_000_000i64, y: 0i64 },
            ],
            f.lines@[2].transform == (Transform {
                a: 1_000_000i64,
                b: 0i64,
                tx: -500_000i64,
                ty: 1_000_000i64,
            }),
    {
        proof {
            lemma_preset_rotations();
        }
        let mut f = TessellationFigure::new();
        f.gridincx = 1_000_000;
        f.gridincy = 1_000_000;
        f.rotdiv = 1;
        f.is_reversed = false;
        f.shiftx = 500_000;
        f.shifty = 0;
        f.shape = TessellationShape::S;
        let l1 = edge2(
            1_000_000,
            0,
            Rotation { a: 1_000_000, b: 0 },
            Point { x: 0, y: 1_000_000 },
            Point { x: 0, y: 0 },
        );
        f.append(l1);
        let l2 = edge2(
            500_000,
            1_000_000,
            Rotation { a: 1_000_000, b: 0 },
            Point { x: 0, y: 0 },
            Point { x: 500_000, y: 0 },
        );
        f.append(l2);
        let l3 = edge2(
            -500_000,
            1_000_000,
            Rotation { a: 1_000_000, b: 0 },
            Point { x: 500_000, y: 0 },
            Point { x: 1_000_000, y: 0 },
        );
        f.append(l3);
        f
    }
}

} // verus!
