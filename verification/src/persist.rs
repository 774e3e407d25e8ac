//! The persisted JSON layout: one object per figure holding the lattice
//! parameters and an ordered array of line records; each line record holds
//! its authored points and the transform parameters.  The derived inverse
//! transform is never persisted.  The writer below emits the canonical
//! form of that layout, byte for byte equal to the specification
//! functions, which also serve as the reference grammar for the reader.

use crate::figure::TessellationFigure;
use crate::line::TessellationLine;
use crate::point::Point;
use crate::shape::TessellationShape;
use vstd::prelude::*;

verus! {

/// Canonical decimal digits of a nonnegative number, most significant
/// first, with no leading zero.
pub open spec fn dec_u(n: int) -> Seq<u8>
    decreases n,
{
    if n < 10 {
        seq![(48 + n) as u8]
    } else {
        dec_u(n / 10) + seq![(48 + n % 10) as u8]
    }
}

/// Canonical decimal form of an integer: a minus sign for negatives, no
/// leading zeros, no negative zero.
pub open spec fn dec_i(n: int) -> Seq<u8> {
    if n < 0 {
        seq![45u8] + dec_u(-n)
    } else {
        dec_u(n)
    }
}

/// The literal bytes of `{\"x\":`.
pub open spec fn k_obj_x() -> Seq<u8> {
    seq![123u8, 34u8, 120u8, 34u8, 58u8]
}
/// The literal bytes of `,\"y\":`.
pub open spec fn k_comma_y() -> Seq<u8> {
    seq![44u8, 34u8, 121u8, 34u8, 58u8]
}
/// The literal bytes of `{\"points\":[`.
pub open spec fn k_obj_points() -> Seq<u8> {
    seq![123u8, 34u8, 112u8, 111u8, 105u8, 110u8, 116u8, 115u8, 34u8, 58u8, 91u8]
}
/// The literal bytes of `],\"rot\":[`.
pub open spec fn k_close_rot() -> Seq<u8> {
    seq![93u8, 44u8, 34u8, 114u8, 111u8, 116u8, 34u8, 58u8, 91u8]
}
/// The literal bytes of `],\"tx\":`.
pub open spec fn k_close_tx() -> Seq<u8> {
    seq![93u8, 44u8, 34u8, 116u8, 120u8, 34u8, 58u8]
}
/// The literal bytes of `,\"ty\":`.
pub open spec fn k_comma_ty() -> Seq<u8> {
    seq![44u8, 34u8, 116u8, 121u8, 34u8, 58u8]
}
/// The literal bytes of `{\"gridincx\":`.
pub open spec fn k_obj_gridincx() -> Seq<u8> {
    seq![123u8, 34u8, 103u8, 114u8, 105u8, 100u8, 105u8, 110u8, 99u8, 120u8, 34u8, 58u8]
}
/// The literal bytes of `,\"gridincy\":`.
pub open spec fn k_comma_gridincy() -> Seq<u8> {
    seq![44u8, 34u8, 103u8, 114u8, 105u8, 100u8, 105u8, 110u8, 99u8, 121u8, 34u8, 58u8]
}
/// The literal bytes of `,\"shiftx\":`.
pub open spec fn k_comma_shiftx() -> Seq<u8> {
    seq![44u8, 34u8, 115u8, 104u8, 105u8, 102u8, 116u8, 120u8, 34u8, 58u8]
}
/// The literal bytes of `,\"shifty\":`.
pub open spec fn k_comma_shifty() -> Seq<u8> {
    seq![44u8, 34u8, 115u8, 104u8, 105u8, 102u8, 116u8, 121u8, 34u8, 58u8]
}
/// The literal bytes of `,\"rotdiv\":`.
pub open spec fn k_comma_rotdiv() -> Seq<u8> {
    seq![44u8, 34u8, 114u8, 111u8, 116u8, 100u8, 105u8, 118u8, 34u8, 58u8]
}
/// The literal bytes of `,\"reversed\":`.
pub open spec fn k_comma_reversed() -> Seq<u8> {
    seq![44u8, 34u8, 114u8, 101u8, 118u8, 101u8, 114u8, 115u8, 101u8, 100u8, 34u8, 58u8]
}
/// The literal bytes of `true`.
pub open spec fn k_word_true() -> Seq<u8> {
    seq![116u8, 114u8, 117u8, 101u8]
}
/// The literal bytes of `false`.
pub open spec fn k_word_false() -> Seq<u8> {
    seq![102u8, 97u8, 108u8, 115u8, 101u8]
}
/// The literal bytes of `,\"shape\":\"`.
pub open spec fn k_comma_shape() -> Seq<u8> {
    seq![44u8, 34u8, 115u8, 104u8, 97u8, 112u8, 101u8, 34u8, 58u8, 34u8]
}
/// The literal bytes of `\",\"lines\":[`.
pub open spec fn k_quote_lines() -> Seq<u8> {
    seq![34u8, 44u8, 34u8, 108u8, 105u8, 110u8, 101u8, 115u8, 34u8, 58u8, 91u8]
}
/// The literal bytes of `]}`.
pub open spec fn k_close_figure() -> Seq<u8> {
    seq![93u8, 125u8]
}

/// The persisted form of one point.
pub open spec fn json_point(p: Point) -> Seq<u8> {
    k_obj_x() + dec_i(p.x as int) + k_comma_y() + dec_i(p.y as int) + seq![125u8]
}

/// The comma-separated body of a point array.
pub open spec fn json_points_body(ps: Seq<Point>) -> Seq<u8>
    decreases ps.len(),
{
    if ps.len() == 0 {
        Seq::empty()
    } else if ps.len() == 1 {
        json_point(ps[0])
    } else {
        json_point(ps.first()) + seq![44u8] + json_points_body(ps.drop_first())
    }
}

/// Appending one more point extends the array body on the right.
pub proof fn lemma_points_body_push(ps: Seq<Point>, p: Point)
    requires
        ps.len() >= 1,
    ensures
        json_points_body(ps.push(p)) == json_points_body(ps) + seq![44u8] + json_point(p),
    decreases ps.len(),
{
    if ps.len() == 1 {
        assert(ps.push(p).drop_first() =~= seq![p]);
        assert(ps.push(p).first() == ps[0]);
        assert(json_points_body(seq![p]) == json_point(p));
        assert(json_points_body(ps) == json_point(ps[0]));
    } else {
        lemma_points_body_push(ps.drop_first(), p);
        assert(ps.push(p).drop_first() =~= ps.drop_first().push(p));
        assert(ps.push(p).first() == ps.first());
        assert(json_points_body(ps.push(p)) =~= json_points_body(ps) + seq![44u8] + json_point(
            p,
        ));
    }
}

/// The persisted form of one line record.
pub open spec fn json_line(l: TessellationLine) -> Seq<u8> {
    k_obj_points() + json_points_body(l.points@) + k_close_rot() + dec_i(l.transform.a as int)
        + seq![44u8] + dec_i(l.transform.b as int) + k_close_tx() + dec_i(l.transform.tx as int)
        + k_comma_ty() + dec_i(l.transform.ty as int) + seq![125u8]
}

/// The comma-separated body of the line array.
pub open spec fn json_lines_body(ls: Seq<TessellationLine>) -> Seq<u8>
    decreases ls.len(),
{
    if ls.len() == 0 {
        Seq::empty()
    } else if ls.len() == 1 {
        json_line(ls[0])
    } else {
        json_line(ls.first()) + seq![44u8] + json_lines_body(ls.drop_first())
    }
}

/// Appending one more line extends the array body on the right.
pub proof fn lemma_lines_body_push(ls: Seq<TessellationLine>, l: TessellationLine)
    requires
        ls.len() >= 1,
    ensures
        json_lines_body(ls.push(l)) == json_lines_body(ls) + seq![44u8] + json_line(l),
    decreases ls.len(),
{
    if ls.len() == 1 {
        assert(ls.push(l).drop_first() =~= seq![l]);
        assert(ls.push(l).first() == ls[0]);
        assert(json_lines_body(seq![l]) == json_line(l));
        assert(json_lines_body(ls) == json_line(ls[0]));
    } else {
        lemma_lines_body_push(ls.drop_first(), l);
        assert(ls.push(l).drop_first() =~= ls.drop_first().push(l));
        assert(ls.push(l).first() == ls.first());
        assert(json_lines_body(ls.push(l)) =~= json_lines_body(ls) + seq![44u8] + json_line(l));
    }
}

/// The persisted form of the traversal selector.
pub open spec fn json_bool(b: bool) -> Seq<u8> {
    if b {
        k_word_true()
    } else {
        k_word_false()
    }
}

/// The letter of a template tag.
pub open spec fn shape_letter(sh: TessellationShape) -> u8 {
    match sh {
        TessellationShape::S => 83u8,
        TessellationShape::U => 85u8,
        TessellationShape::I => 73u8,
        TessellationShape::J => 74u8,
    }
}

/// The persisted form of a whole figure.
pub open spec fn json_figure(f: TessellationFigure) -> Seq<u8> {
    k_obj_gridincx() + dec_i(f.gridincx as int) + k_comma_gridincy() + dec_i(f.gridincy as int)
        + k_comma_shiftx() + dec_i(f.shiftx as int) + k_comma_shifty() + dec_i(f.shifty as int)
        + k_comma_rotdiv() + dec_u(f.rotdiv as int) + k_comma_reversed() + json_bool(
        f.is_reversed,
    ) + k_comma_shape() + seq![shape_letter(f.shape)] + k_quote_lines() + json_lines_body(
        f.lines@,
    ) + k_close_figure()
}

fn push_obj_x(out: &mut Vec<u8>)
    ensures
        final(out)@ == old(out)@ + k_obj_x(),
{
    out.push(123);
    out.push(34);
    out.push(120);
    out.push(34);
    out.push(58);
    proof {
        assert(final(out)@ =~= old(out)@ + k_obj_x());
    }
}
fn push_comma_y(out: &mut Vec<u8>)
    ensures
        final(out)@ == old(out)@ + k_comma_y(),
{
    out.push(44);
    out.push(34);
    out.push(121);
    out.push(34);
    out.push(58);
    proof {
        assert(final(out)@ =~= old(out)@ + k_comma_y());
    }
}
fn push_obj_points(out: &mut Vec<u8>)
    ensures
        final(out)@ == old(out)@ + k_obj_points(),
{
    out.push(123);
    out.push(34);
    out.push(112);
    out.push(111);
    out.push(105);
    out.push(110);
    out.push(116);
    out.push(115);
    out.push(34);
    out.push(58);
    out.push(91);
    proof {
        assert(final(out)@ =~= old(out)@ + k_obj_points());
    }
}
fn push_close_rot(out: &mut Vec<u8>)
    ensures
        final(out)@ == old(out)@ + k_close_rot(),
{
    out.push(93);
    out.push(44);
    out.push(34);
    out.push(114);
    out.push(111);
    out.push(116);
    out.push(34);
    out.push(58);
    out.push(91);
    proof {
        assert(final(out)@ =~= old(out)@ + k_close_rot());
    }
}
fn push_close_tx(out: &mut Vec<u8>)
    ensures
        final(out)@ == old(out)@ + k_close_tx(),
{
    out.push(93);
    out.push(44);
    out.push(34);
    out.push(116);
    out.push(120);
    out.push(34);
    out.push(58);
    proof {
        assert(final(out)@ =~= old(out)@ + k_close_tx());
    }
}
fn push_comma_ty(out: &mut Vec<u8>)
    ensures
        final(out)@ == old(out)@ + k_comma_ty(),
{
    out.push(44);
    out.push(34);
    out.push(116);
    out.push(121);
    out.push(34);
    out.push(58);
    proof {
        assert(final(out)@ =~= old(out)@ + k_comma_ty());
    }
}
fn push_obj_gridincx(out: &mut Vec<u8>)
    ensures
        final(out)@ == old(out)@ + k_obj_gridincx(),
{
    out.push(123);
    out.push(34);
    out.push(103);
    out.push(114);
    out.push(105);
    out.push(100);
    out.push(105);
    out.push(110);
    out.push(99);
    out.push(120);
    out.push(34);
    out.push(58);
    proof {
        assert(final(out)@ =~= old(out)@ + k_obj_gridincx());
    }
}
fn push_comma_gridincy(out: &mut Vec<u8>)
    ensures
        final(out)@ == old(out)@ + k_comma_gridincy(),
{
    out.push(44);
    out.push(34);
    out.push(103);
    out.push(114);
    out.push(105);
    out.push(100);
    out.push(105);
    out.push(110);
    out.push(99);
    out.push(121);
    out.push(34);
    out.push(58);
    proof {
        assert(final(out)@ =~= old(out)@ + k_comma_gridincy());
    }
}
fn push_comma_shiftx(out: &mut Vec<u8>)
    ensures
        final(out)@ == old(out)@ + k_comma_shiftx(),
{
    out.push(44);
    out.push(34);
    out.push(115);
    out.push(104);
    out.push(105);
    out.push(102);
    out.push(116);
    out.push(120);
    out.push(34);
    out.push(58);
    proof {
        assert(final(out)@ =~= old(out)@ + k_comma_shiftx());
    }
}
fn push_comma_shifty(out: &mut Vec<u8>)
    ensures
        final(out)@ == old(out)@ + k_comma_shifty(),
{
    out.push(44);
    out.push(34);
    out.push(115);
    out.push(104);
    out.push(105);
    out.push(102);
    out.push(116);
    out.push(121);
    out.push(34);
    out.push(58);
    proof {
        assert(final(out)@ =~= old(out)@ + k_comma_shifty());
    }
}
fn push_comma_rotdiv(out: &mut Vec<u8>)
    ensures
        final(out)@ == old(out)@ + k_comma_rotdiv(),
{
    out.push(44);
    out.push(34);
    out.push(114);
    out.push(111);
    out.push(116);
    out.push(100);
    out.push(105);
    out.push(118);
    out.push(34);
    out.push(58);
    proof {
        assert(final(out)@ =~= old(out)@ + k_comma_rotdiv());
    }
}
fn push_comma_reversed(out: &mut Vec<u8>)
    ensures
        final(out)@ == old(out)@ + k_comma_reversed(),
{
    out.push(44);
    out.push(34);
    out.push(114);
    out.push(101);
    out.push(118);
    out.push(101);
    out.push(114);
    out.push(115);
    out.push(101);
    out.push(100);
    out.push(34);
    out.push(58);
    proof {
        assert(final(out)@ =~= old(out)@ + k_comma_reversed());
    }
}
fn push_word_true(out: &mut Vec<u8>)
    ensures
        final(out)@ == old(out)@ + k_word_true(),
{
    out.push(116);
    out.push(114);
    out.push(117);
    out.push(101);
    proof {
        assert(final(out)@ =~= old(out)@ + k_word_true());
    }
}
fn push_word_false(out: &mut Vec<u8>)
    ensures
        final(out)@ == old(out)@ + k_word_false(),
{
    out.push(102);
    out.push(97);
    out.push(108);
    out.push(115);
    out.push(101);
    proof {
        assert(final(out)@ =~= old(out)@ + k_word_false());
    }
}
fn push_comma_shape(out: &mut Vec<u8>)
    ensures
        final(out)@ == old(out)@ + k_comma_shape(),
{
    out.push(44);
    out.push(34);
    out.push(115);
    out.push(104);
    out.push(97);
    out.push(112);
    out.push(101);
    out.push(34);
    out.push(58);
    out.push(34);
    proof {
        assert(final(out)@ =~= old(out)@ + k_comma_shape());
    }
}
fn push_quote_lines(out: &mut Vec<u8>)
    ensures
        final(out)@ == old(out)@ + k_quote_lines(),
{
    out.push(34);
    out.push(44);
    out.push(34);
    out.push(108);
    out.push(105);
    out.push(110);
    out.push(101);
    out.push(115);
    out.push(34);
    out.push(58);
    out.push(91);
    proof {
        assert(final(out)@ =~= old(out)@ + k_quote_lines());
    }
}
fn push_close_figure(out: &mut Vec<u8>)
    ensures
        final(out)@ == old(out)@ + k_close_figure(),
{
    out.push(93);
    out.push(125);
    proof {
        assert(final(out)@ =~= old(out)@ + k_close_figure());
    }
}

/// Append the canonical decimal digits of `v`.
fn push_u(out: &mut Vec<u8>, v: u64)
    ensures
        final(out)@ == old(out)@ + dec_u(v as int),
    decreases v,
{
    if v < 10 {
        out.push(48 + (v as u8));
    } else {
        push_u(out, v / 10);
        out.push(48 + ((v % 10) as u8));
    }
}

/// Append the canonical decimal form of `v`.
fn push_i(out: &mut Vec<u8>, v: i64)
    requires
        v > i64::MIN,
    ensures
        final(out)@ == old(out)@ + dec_i(v as int),
{
    if v < 0 {
        out.push(45);
        push_u(out, (-v) as u64);
        proof {
            assert(final(out)@ =~= old(out)@ + dec_i(v as int));
        }
    } else {
        push_u(out, v as u64);
    }
}

/// Append the persisted form of one point.
fn push_point(out: &mut Vec<u8>, p: Point)
    requires
        p.x > i64::MIN,
        p.y > i64::MIN,
    ensures
        final(out)@ == old(out)@ + json_point(p),
{
    push_obj_x(out);
    push_i(out, p.x);
    push_comma_y(out);
    push_i(out, p.y);
    out.push(125);
    proof {
        assert(final(out)@ =~= old(out)@ + json_point(p));
    }
}

/// Append the persisted form of one line record.
fn push_line(out: &mut Vec<u8>, l: &TessellationLine)
    requires
        l.wf(),
    ensures
        final(out)@ == old(out)@ + json_line(*l),
{
    push_obj_points(out);
    let n: usize = l.points.len();
    let mut i: usize = 0;
    while i < n
        invariant
            l.wf(),
            n == l.points@.len(),
            i <= n,
            out@ == old(out)@ + k_obj_points() + json_points_body(l.points@.take(i as int)),
        decreases n - i,
    {
        if i > 0 {
            out.push(44);
        }
        proof {
            assert(l.points@[i as int].within(crate::point::STORE_LIMIT as int));
        }
        push_point(out, l.points[i]);
        proof {
            let taken = l.points@.take(i + 1int);
            assert(taken =~= l.points@.take(i as int).push(l.points@[i as int]));
            if i > 0 {
                lemma_points_body_push(l.points@.take(i as int), l.points@[i as int]);
                assert(out@ =~= old(out)@ + k_obj_points() + json_points_body(taken));
            } else {
                assert(taken.len() == 1);
                assert(json_points_body(taken) == json_point(l.points@[0]));
                assert(out@ =~= old(out)@ + k_obj_points() + json_points_body(taken));
            }
        }
        i = i + 1;
    }
    proof {
        assert(l.points@.take(n as int) =~= l.points@);
    }
    push_close_rot(out);
    push_i(out, l.transform.a);
    out.push(44);
    push_i(out, l.transform.b);
    push_close_tx(out);
    push_i(out, l.transform.tx);
    push_comma_ty(out);
    push_i(out, l.transform.ty);
    out.push(125);
    proof {
        assert(final(out)@ =~= old(out)@ + json_line(*l));
    }
}

impl TessellationFigure {
    /// Write the figure in the persisted JSON layout, canonically.
    pub fn to_json(&self) -> (r: Vec<u8>)
        requires
            self.wf(),
        ensures
            r@ == json_figure(*self),
    {
        let mut out: Vec<u8> = Vec::new();
        push_obj_gridincx(&mut out);
        push_i(&mut out, self.gridincx);
        push_comma_gridincy(&mut out);
        push_i(&mut out, self.gridincy);
        push_comma_shiftx(&mut out);
        push_i(&mut out, self.shiftx);
        push_comma_shifty(&mut out);
        push_i(&mut out, self.shifty);
        push_comma_rotdiv(&mut out);
        push_u(&mut out, self.rotdiv as u64);
        push_comma_reversed(&mut out);
        if self.is_reversed {
            push_word_true(&mut out);
        } else {
            push_word_false(&mut out);
        }
        push_comma_shape(&mut out);
        match self.shape {
            TessellationShape::S => out.push(83),
            TessellationShape::U => out.push(85),
            TessellationShape::I => out.push(73),
            TessellationShape::J => out.push(74),
        }
        push_quote_lines(&mut out);
        proof {
            assert(out@ =~= k_obj_gridincx() + dec_i(self.gridincx as int) + k_comma_gridincy()
                + dec_i(self.gridincy as int) + k_comma_shiftx() + dec_i(self.shiftx as int)
                + k_comma_shifty() + dec_i(self.shifty as int) + k_comma_rotdiv() + dec_u(
                self.rotdiv as int,
            ) + k_comma_reversed() + json_bool(self.is_reversed) + k_comma_shape() + seq![
                shape_letter(self.shape),
            ] + k_quote_lines());
        }
        let ghost head = out@;
        let n: usize = self.lines.len();
        let mut i: usize = 0;
        while i < n
            invariant
                self.wf(),
                n == self.lines@.len(),
                i <= n,
                out@ == head + json_lines_body(self.lines@.take(i as int)),
            decreases n - i,
        {
            if i > 0 {
                out.push(44);
            }
            proof {
                assert(self.lines@[i as int].wf());
            }
            push_line(&mut out, &self.lines[i]);
            proof {
                let taken = self.lines@.take(i + 1int);
                assert(taken =~= self.lines@.take(i as int).push(self.lines@[i as int]));
                if i > 0 {
                    lemma_lines_body_push(self.lines@.take(i as int), self.lines@[i as int]);
                    assert(out@ =~= head + json_lines_body(taken));
                } else {
                    assert(taken.len() == 1);
                    assert(json_lines_body(taken) == json_line(self.lines@[0]));
                    assert(out@ =~= head + json_lines_body(taken));
                }
            }
            i = i + 1;
        }
        proof {
            assert(self.lines@.take(n as int) =~= self.lines@);
        }
        out.push(93);
        out.push(125);
        proof {
            assert(out@ =~= json_figure(*self));
        }
        out
    }
}

} // verus!
