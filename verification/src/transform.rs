//! Rigid 2D transforms in fixed point: a rotation given by its two matrix
//! entries at `SCALE`, followed by a translation.  The inverse transform is
//! derived exactly from the entries, never stored independently of them.

use crate::num::{
    abs_i, div_exec, div_trunc, lemma_div_trunc_bound, lemma_div_trunc_bound_denom,
    lemma_div_trunc_exact, SCALE,
};
use crate::point::{Point, COORD_LIMIT, STORE_LIMIT};
use vstd::prelude::*;

verus! {

/// Bound on the magnitude of a stored rotation entry (1.5 in world terms);
/// both authored rotations and their derived inverses stay below it.
pub const ENTRY_LIMIT: i64 = 1_500_000;

/// Bound on the magnitude of a stored translation component; derived
/// inverse translations stay below it.
pub const TRANS_LIMIT: i64 = 4_000_000_000;

/// A transform accepts input coordinates up to this magnitude.
pub const APPLY_INPUT_LIMIT: i64 = 10_000_000_000;

/// Applying a well-formed transform to an input within
/// `APPLY_INPUT_LIMIT` yields coordinates within this magnitude.
pub const APPLY_OUTPUT_LIMIT: i64 = 34_000_000_000;

/// Lower bound on the squared norm of an authored rotation: the rotation
/// entries of a rigid motion represent a unit vector, so their fixed-point
/// squared norm sits within ten percent of `SCALE` squared.
pub const NORM_MIN: i64 = 810_000_000_000;

/// Upper bound on the squared norm of an authored rotation.
pub const NORM_MAX: i64 = 1_210_000_000_000;

/// The rotation entries of a clockwise or counter-clockwise rotation, in
/// fixed point: `a` stands for the cosine and `b` for the sine of the
/// rotation angle, both multiplied by `SCALE`.
#[derive(Clone, Copy, Debug, PartialEq, Eq, Structural)]
pub struct Rotation {
    pub a: i64,
    pub b: i64,
}

/// A rigid motion: rotate by the matrix `[[a, -b], [b, a]] / SCALE`, then
/// translate by `(tx, ty)`.
#[derive(Clone, Copy, Debug, PartialEq, Eq, Structural)]
pub struct Transform {
    pub a: i64,
    pub b: i64,
    pub tx: i64,
    pub ty: i64,
}

impl Rotation {
    /// The squared norm of the entries, mathematically.
    pub open spec fn norm2(self) -> int {
        (self.a as int) * (self.a as int) + (self.b as int) * (self.b as int)
    }

    /// An authored rotation must be within ten percent of a unit rotation;
    /// this is what makes the transform invertible with bounded entries.
    pub open spec fn invertible(self) -> bool {
        NORM_MIN as int <= self.norm2() <= NORM_MAX as int
    }

    /// The identity rotation.
    pub fn identity() -> (r: Rotation)
        ensures
            r == (Rotation { a: SCALE, b: 0i64 }),
    {
        Rotation { a: SCALE, b: 0 }
    }
}

impl Transform {
    /// Structural bounds every transform held by this crate satisfies.
    pub open spec fn wf(self) -> bool {
        &&& abs_i(self.a as int) <= ENTRY_LIMIT as int
        &&& abs_i(self.b as int) <= ENTRY_LIMIT as int
        &&& abs_i(self.tx as int) <= TRANS_LIMIT as int
        &&& abs_i(self.ty as int) <= TRANS_LIMIT as int
    }

    /// The rotation part.
    pub open spec fn rot(self) -> Rotation {
        Rotation { a: self.a, b: self.b }
    }

    /// An authored transform: near-unit rotation, translation within the
    /// coordinate range users work in.
    pub open spec fn authored(self) -> bool {
        &&& self.rot().invertible()
        &&& abs_i(self.tx as int) <= COORD_LIMIT as int
        &&& abs_i(self.ty as int) <= COORD_LIMIT as int
    }

    /// First output coordinate of the transform, mathematically.
    pub open spec fn map_x(self, p: Point) -> int {
        div_trunc((self.a as int) * (p.x as int) - (self.b as int) * (p.y as int), SCALE as int)
            + self.tx as int
    }

    /// Second output coordinate of the transform, mathematically.
    pub open spec fn map_y(self, p: Point) -> int {
        div_trunc((self.b as int) * (p.x as int) + (self.a as int) * (p.y as int), SCALE as int)
            + self.ty as int
    }

    /// The transformed point.
    pub open spec fn map_s(self, p: Point) -> Point {
        Point { x: self.map_x(p) as i64, y: self.map_y(p) as i64 }
    }

    /// The identity transform.
    pub fn identity() -> (t: Transform)
        ensures
            t == (Transform { a: SCALE, b: 0i64, tx: 0i64, ty: 0i64 }),
            t.wf(),
            t.authored(),
    {
        let t = Transform { a: SCALE, b: 0, tx: 0, ty: 0 };
        proof {
            assert(t.rot().norm2() == 1_000_000_000_000int) by (nonlinear_arith)
                requires
                    t.a == 1_000_000i64,
                    t.b == 0i64,
            ;
        }
        t
    }

    /// First entry of the derived inverse rotation, mathematically:
    /// the cosine column of the transposed rotation, renormalized.
    pub open spec fn inv_a(self) -> int {
        div_trunc((self.a as int) * (SCALE as int) * (SCALE as int), self.rot().norm2())
    }

    /// Second entry of the derived inverse rotation, mathematically.
    pub open spec fn inv_b(self) -> int {
        div_trunc(-(self.b as int) * (SCALE as int) * (SCALE as int), self.rot().norm2())
    }

    /// The derived inverse transform: transposed renormalized rotation,
    /// and the negated image of the translation under it.
    pub open spec fn inverse_s(self) -> Transform {
        let ai = self.inv_a();
        let bi = self.inv_b();
        Transform {
            a: ai as i64,
            b: bi as i64,
            tx: (-div_trunc(ai * (self.tx as int) - bi * (self.ty as int), SCALE as int)) as i64,
            ty: (-div_trunc(bi * (self.tx as int) + ai * (self.ty as int), SCALE as int)) as i64,
        }
    }

    /// The rotation is an exact quarter turn (a multiple of ninety
    /// degrees); for these the fixed-point arithmetic is exact.
    pub open spec fn quarter(self) -> bool {
        ||| (self.a == SCALE && self.b == 0)
        ||| (self.a == 0 && self.b == SCALE)
        ||| (self.a as int == -(SCALE as int) && self.b == 0)
        ||| (self.a == 0 && self.b as int == -(SCALE as int))
    }

    /// Compute the inverse transform.
    pub fn inverse(&self) -> (r: Transform)
        requires
            self.authored(),
        ensures
            r == self.inverse_s(),
            r.a as int == self.inv_a(),
            r.b as int == self.inv_b(),
            r.wf(),
    {
        proof {
            lemma_inverse_in_range(*self);
        }
        let n = self.a * self.a + self.b * self.b;
        let ai = div_exec(self.a * SCALE * SCALE, n);
        let bi = div_exec((-self.b) * SCALE * SCALE, n);
        let tix = -div_exec(ai * self.tx - bi * self.ty, SCALE);
        let tiy = -div_exec(bi * self.tx + ai * self.ty, SCALE);
        Transform { a: ai, b: bi, tx: tix, ty: tiy }
    }

    /// Apply the transform to a point.
    pub fn map_point(&self, p: Point) -> (r: Point)
        requires
            self.wf(),
            p.within(APPLY_INPUT_LIMIT as int),
        ensures
            r == self.map_s(p),
            r.x as int == self.map_x(p),
            r.y as int == self.map_y(p),
            r.within(APPLY_OUTPUT_LIMIT as int),
    {
        proof {
            lemma_map_in_range(*self, p);
        }
        let xn = self.a * p.x - self.b * p.y;
        let yn = self.b * p.x + self.a * p.y;
        let x = div_exec(xn, SCALE) + self.tx;
        let y = div_exec(yn, SCALE) + self.ty;
        Point { x, y }
    }
}

/// The derived inverse of an authored transform has entries within
/// `ENTRY_LIMIT` and translation within `TRANS_LIMIT`, and the fixed-point
/// products along the way stay within `i64`.
pub proof fn lemma_inverse_in_range(t: Transform)
    requires
        t.authored(),
    ensures
        0 <= (t.a as int) * (t.a as int) <= NORM_MAX as int,
        0 <= (t.b as int) * (t.b as int) <= NORM_MAX as int,
        abs_i((t.a as int) * (SCALE as int) * (SCALE as int)) <= 1_100_000_000_000_000_000,
        abs_i(-(t.b as int) * (SCALE as int) * (SCALE as int)) <= 1_100_000_000_000_000_000,
        abs_i(t.inv_a()) <= ENTRY_LIMIT as int,
        abs_i(t.inv_b()) <= ENTRY_LIMIT as int,
        abs_i(t.inv_a() * (t.tx as int)) <= 1_500_000_000_000_000,
        abs_i(t.inv_b() * (t.ty as int)) <= 1_500_000_000_000_000,
        abs_i(t.inv_b() * (t.tx as int)) <= 1_500_000_000_000_000,
        abs_i(t.inv_a() * (t.ty as int)) <= 1_500_000_000_000_000,
        t.inverse_s().wf(),
        abs_i(t.inverse_s().tx as int) <= 3_000_000_000,
        abs_i(t.inverse_s().ty as int) <= 3_000_000_000,
        t.inverse_s().a as int == t.inv_a(),
        t.inverse_s().b as int == t.inv_b(),
        t.inverse_s().tx as int == -div_trunc(
            t.inv_a() * (t.tx as int) - t.inv_b() * (t.ty as int),
            SCALE as int,
        ),
        t.inverse_s().ty as int == -div_trunc(
            t.inv_b() * (t.tx as int) + t.inv_a() * (t.ty as int),
            SCALE as int,
        ),
{
    let a = t.a as int;
    let b = t.b as int;
    let n = t.rot().norm2();
    assert(0 <= a * a && 0 <= b * b) by (nonlinear_arith);
    assert(abs_i(a) <= 1_100_000 && abs_i(b) <= 1_100_000) by (nonlinear_arith)
        requires
            a * a + b * b <= NORM_MAX as int,
            NORM_MAX == 1_210_000_000_000i64,
    ;
    assert(abs_i(a * (SCALE as int) * (SCALE as int)) <= 1_100_000_000_000_000_000
        && abs_i(-b * (SCALE as int) * (SCALE as int)) <= 1_100_000_000_000_000_000)
        by (nonlinear_arith)
        requires
            abs_i(a) <= 1_100_000,
            abs_i(b) <= 1_100_000,
            SCALE == 1_000_000i64,
    ;
    lemma_div_trunc_bound_denom(
        a * (SCALE as int) * (SCALE as int),
        n,
        1_100_000_000_000_000_000,
        NORM_MIN as int,
    );
    lemma_div_trunc_bound_denom(
        -b * (SCALE as int) * (SCALE as int),
        n,
        1_100_000_000_000_000_000,
        NORM_MIN as int,
    );
    assert(1_100_000_000_000_000_000int / 810_000_000_000int == 1_358_024int);
    let ai = t.inv_a();
    let bi = t.inv_b();
    assert(abs_i(ai * (t.tx as int)) <= 1_500_000_000_000_000
        && abs_i(bi * (t.ty as int)) <= 1_500_000_000_000_000
        && abs_i(bi * (t.tx as int)) <= 1_500_000_000_000_000
        && abs_i(ai * (t.ty as int)) <= 1_500_000_000_000_000) by (nonlinear_arith)
        requires
            abs_i(ai) <= 1_358_024,
            abs_i(bi) <= 1_358_024,
            abs_i(t.tx as int) <= COORD_LIMIT as int,
            abs_i(t.ty as int) <= COORD_LIMIT as int,
            COORD_LIMIT == 1_000_000_000i64,
    ;
    lemma_div_trunc_bound(ai * (t.tx as int) - bi * (t.ty as int), SCALE as int,
        3_000_000_000_000_000);
    lemma_div_trunc_bound(bi * (t.tx as int) + ai * (t.ty as int), SCALE as int,
        3_000_000_000_000_000);
    assert(3_000_000_000_000_000int / 1_000_000int == 3_000_000_000int);
}

/// For an exact quarter-turn transform the derived inverse undoes the
/// transform exactly: mapping a point through the transform and then
/// through the inverse returns the very same point, with no rounding.
pub proof fn lemma_quarter_roundtrip(t: Transform, p: Point)
    requires
        t.quarter(),
        abs_i(t.tx as int) <= COORD_LIMIT as int,
        abs_i(t.ty as int) <= COORD_LIMIT as int,
        p.within(STORE_LIMIT as int),
    ensures
        t.inverse_s().map_s(t.map_s(p)) == p,
{
    let s = SCALE as int;
    let a = t.a as int;
    let b = t.b as int;
    let tx = t.tx as int;
    let ty = t.ty as int;
    let px = p.x as int;
    let py = p.y as int;
    let al: int = if t.a == SCALE { 1 } else if t.a as int == -(SCALE as int) { -1 } else { 0 };
    let be: int = if t.b == SCALE { 1 } else if t.b as int == -(SCALE as int) { -1 } else { 0 };
    assert(a == al * s && b == be * s && al * al + be * be == 1) by (nonlinear_arith)
        requires
            s == 1_000_000,
            (a == s && b == 0) || (a == 0 && b == s) || (a == -s && b == 0) || (a == 0 && b == -s),
            al == (if a == s { 1int } else if a == -s { -1int } else { 0int }),
            be == (if b == s { 1int } else if b == -s { -1int } else { 0int }),
    ;
    // The squared norm is exactly SCALE squared.
    assert(t.rot().norm2() == s * s) by (nonlinear_arith)
        requires
            a == al * s,
            b == be * s,
            al * al + be * be == 1,
            t.rot().norm2() == a * a + b * b,
    ;
    // The inverse rotation entries are the transposed entries, exactly.
    assert(a * s * s == (al * s) * (s * s)) by (nonlinear_arith)
        requires
            a == al * s,
    ;
    lemma_div_trunc_exact(al * s, s * s);
    assert(t.inv_a() == al * s);
    assert(-b * s * s == ((-be) * s) * (s * s)) by (nonlinear_arith)
        requires
            b == be * s,
    ;
    lemma_div_trunc_exact((-be) * s, s * s);
    assert(t.inv_b() == -be * s) by {
        assert((-be) * s == -be * s) by (nonlinear_arith);
    }
    let ai = t.inv_a();
    let bi = t.inv_b();
    // The inverse translation is the negated rotated translation, exactly.
    assert(ai * tx - bi * ty == (al * tx + be * ty) * s) by (nonlinear_arith)
        requires
            ai == al * s,
            bi == -be * s,
    ;
    lemma_div_trunc_exact(al * tx + be * ty, s);
    assert(bi * tx + ai * ty == (-be * tx + al * ty) * s) by (nonlinear_arith)
        requires
            ai == al * s,
            bi == -be * s,
    ;
    lemma_div_trunc_exact(-be * tx + al * ty, s);
    let ti = t.inverse_s();
    assert(abs_i(al * tx + be * ty) <= 1_000_000_000 && abs_i(-be * tx + al * ty)
        <= 1_000_000_000) by (nonlinear_arith)
        requires
            al * al + be * be == 1,
            abs_i(tx) <= 1_000_000_000,
            abs_i(ty) <= 1_000_000_000,
    ;
    assert(ti.tx as int == -(al * tx + be * ty) && ti.ty as int == -(-be * tx + al * ty));
    // Forward image, exactly.
    assert(a * px - b * py == (al * px - be * py) * s && b * px + a * py == (be * px + al * py)
        * s) by (nonlinear_arith)
        requires
            a == al * s,
            b == be * s,
    ;
    lemma_div_trunc_exact(al * px - be * py, s);
    lemma_div_trunc_exact(be * px + al * py, s);
    assert(abs_i(al * px - be * py) <= 6_000_000_000 && abs_i(be * px + al * py)
        <= 6_000_000_000) by (nonlinear_arith)
        requires
            al * al + be * be == 1,
            abs_i(px) <= 6_000_000_000,
            abs_i(py) <= 6_000_000_000,
    ;
    let q = t.map_s(p);
    assert(q.x as int == al * px - be * py + tx && q.y as int == be * px + al * py + ty);
    let qx = q.x as int;
    let qy = q.y as int;
    // Inverse image of the forward image: the original point.
    assert(ai * qx - bi * qy == (al * qx + be * qy) * s && bi * qx + ai * qy == (-be * qx + al
        * qy) * s) by (nonlinear_arith)
        requires
            ai == al * s,
            bi == -be * s,
    ;
    lemma_div_trunc_exact(al * qx + be * qy, s);
    lemma_div_trunc_exact(-be * qx + al * qy, s);
    assert(ti.map_x(q) == al * qx + be * qy + ti.tx as int);
    assert(ti.map_y(q) == -be * qx + al * qy + ti.ty as int);
    assert(al * qx + be * qy - (al * tx + be * ty) == px) by (nonlinear_arith)
        requires
            qx == al * px - be * py + tx,
            qy == be * px + al * py + ty,
            al * al + be * be == 1,
            al * be == be * al,
    ;
    assert(-be * qx + al * qy - (-be * tx + al * ty) == py) by (nonlinear_arith)
        requires
            qx == al * px - be * py + tx,
            qy == be * px + al * py + ty,
            al * al + be * be == 1,
    ;
    assert(ti.map_x(q) == px && ti.map_y(q) == py);
    assert(ti.map_s(q) == p);
}

/// A well-formed transform applied to a bounded point stays within
/// `APPLY_OUTPUT_LIMIT`, and the fixed-point products stay within `i64`.
pub proof fn lemma_map_in_range(t: Transform, p: Point)
    requires
        t.wf(),
        p.within(APPLY_INPUT_LIMIT as int),
    ensures
        abs_i((t.a as int) * (p.x as int)) <= 15_000_000_000_000_000,
        abs_i((t.b as int) * (p.y as int)) <= 15_000_000_000_000_000,
        abs_i((t.b as int) * (p.x as int)) <= 15_000_000_000_000_000,
        abs_i((t.a as int) * (p.y as int)) <= 15_000_000_000_000_000,
        abs_i((t.a as int) * (p.x as int) - (t.b as int) * (p.y as int)) <= 30_000_000_000_000_000,
        abs_i((t.b as int) * (p.x as int) + (t.a as int) * (p.y as int)) <= 30_000_000_000_000_000,
        abs_i(t.map_x(p)) <= APPLY_OUTPUT_LIMIT as int,
        abs_i(t.map_y(p)) <= APPLY_OUTPUT_LIMIT as int,
        t.map_s(p).x as int == t.map_x(p),
        t.map_s(p).y as int == t.map_y(p),
        t.map_s(p).within(APPLY_OUTPUT_LIMIT as int),
{
    let a = t.a as int;
    let b = t.b as int;
    let px = p.x as int;
    let py = p.y as int;
    assert(abs_i(a * px) <= 15_000_000_000_000_000 && abs_i(b * py) <= 15_000_000_000_000_000
        && abs_i(b * px) <= 15_000_000_000_000_000 && abs_i(a * py) <= 15_000_000_000_000_000)
        by (nonlinear_arith)
        requires
            abs_i(a) <= ENTRY_LIMIT as int,
            abs_i(b) <= ENTRY_LIMIT as int,
            abs_i(px) <= APPLY_INPUT_LIMIT as int,
            abs_i(py) <= APPLY_INPUT_LIMIT as int,
            ENTRY_LIMIT == 1_500_000i64,
            APPLY_INPUT_LIMIT == 10_000_000_000i64,
    ;
    lemma_div_trunc_bound(a * px - b * py, SCALE as int, 30_000_000_000_000_000);
    lemma_div_trunc_bound(b * px + a * py, SCALE as int, 30_000_000_000_000_000);
}

} // verus!
