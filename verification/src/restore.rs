//! Reading the persisted JSON layout back.  The reader accepts exactly the
//! canonical form the writer emits: it succeeds precisely on the persisted
//! form of a well-formed figure, and whatever it accepts re-serializes to
//! the very same bytes.

use crate::persist::{
    dec_i, dec_u, json_bool, json_figure, json_line, json_lines_body, json_point, json_points_body, k_close_figure,
    k_close_rot, k_close_tx, k_comma_gridincy, shape_letter,
    k_comma_reversed, k_comma_rotdiv, k_comma_shape, k_comma_shiftx, k_comma_shifty, k_comma_ty,
    k_comma_y, k_obj_gridincx, k_obj_points, k_obj_x, k_quote_lines, k_word_false, k_word_true,
};
use crate::figure::TessellationFigure;
use crate::line::TessellationLine;
use crate::shape::TessellationShape;
use crate::point::{Point, STORE_LIMIT};
use vstd::prelude::*;

verus! {

/// The largest number the reader accepts; every value the writer can emit
/// is far below it.
pub const NUM_LIMIT: u64 = 9_999_999_999_999;

/// Why reading stopped.
#[derive(Clone, Copy, Debug, PartialEq, Eq, Structural)]
pub enum ParseIssue {
    EndOfInput,
    UnexpectedByte,
    NumberOutOfRange,
    InvalidFigure,
}

/// A descriptive parse error: what went wrong, and where.
#[derive(Clone, Copy, Debug, PartialEq, Eq, Structural)]
pub struct ParseError {
    pub at: usize,
    pub kind: ParseIssue,
}

impl ParseError {
    /// A short account of the failure.
    pub fn describe(&self) -> &'static str {
        match self.kind {
            ParseIssue::EndOfInput => "unexpected end of input",
            ParseIssue::UnexpectedByte => "unexpected byte",
            ParseIssue::NumberOutOfRange => "number out of range",
            ParseIssue::InvalidFigure => "not a valid figure",
        }
    }
}

/// An ASCII decimal digit.
pub open spec fn is_digit(b: u8) -> bool {
    48 <= b <= 57
}

/// Every byte is a digit.
pub open spec fn all_digits(s: Seq<u8>) -> bool {
    forall|k: int| 0 <= k < s.len() ==> is_digit(#[trigger] s[k])
}

/// The value of a digit string, most significant first.
pub open spec fn digits_val(s: Seq<u8>) -> int
    decreases s.len(),
{
    if s.len() == 0 {
        0
    } else {
        digits_val(s.drop_last()) * 10 + (s.last() - 48)
    }
}

/// The canonical emission of `v` sits at `i` in `s`, delimited on the
/// right by the end of input or a non-digit.
pub open spec fn num_u_at(s: Seq<u8>, i: int, v: int) -> bool {
    &&& i + dec_u(v).len() <= s.len()
    &&& s.subrange(i, i + dec_u(v).len()) == dec_u(v)
    &&& (i + dec_u(v).len() == s.len() || !is_digit(s[i + dec_u(v).len()]))
}

/// The canonical signed emission of `v` sits at `i` in `s`, delimited on
/// the right by the end of input or a non-digit.
pub open spec fn num_i_at(s: Seq<u8>, i: int, v: int) -> bool {
    &&& i + dec_i(v).len() <= s.len()
    &&& s.subrange(i, i + dec_i(v).len()) == dec_i(v)
    &&& (i + dec_i(v).len() == s.len() || !is_digit(s[i + dec_i(v).len()]))
}

/// Shape and value of the canonical digits of a nonnegative number.
pub proof fn lemma_dec_u_basic(v: int)
    requires
        v >= 0,
    ensures
        dec_u(v).len() >= 1,
        all_digits(dec_u(v)),
        v == 0 ==> dec_u(v) == seq![48u8],
        v > 0 ==> dec_u(v)[0] != 48,
        digits_val(dec_u(v)) == v,
    decreases v,
{
    if v < 10 {
        assert(dec_u(v) == seq![(48 + v) as u8]);
        assert(dec_u(v).drop_last() =~= Seq::<u8>::empty());
        assert(digits_val(Seq::<u8>::empty()) == 0);
        assert(digits_val(dec_u(v)) == (48 + v) as u8 - 48);
    } else {
        lemma_dec_u_basic(v / 10);
        assert(dec_u(v) == dec_u(v / 10) + seq![(48 + v % 10) as u8]);
        assert(dec_u(v).drop_last() =~= dec_u(v / 10));
        assert(dec_u(v).last() == (48 + v % 10) as u8);
        assert(digits_val(dec_u(v)) == (v / 10) * 10 + v % 10);
        assert((v / 10) * 10 + v % 10 == v) by {
            vstd::arithmetic::div_mod::lemma_fundamental_div_mod(v, 10);
        }
        assert(v / 10 > 0);
        assert(dec_u(v)[0] == dec_u(v / 10)[0]);
    }
}

/// A nonempty digit string without a leading zero is the canonical
/// emission of its own value.
pub proof fn lemma_canon_digits_inverse(s: Seq<u8>)
    requires
        s.len() >= 1,
        all_digits(s),
        s[0] != 48 || s.len() == 1,
    ensures
        digits_val(s) >= 0,
        dec_u(digits_val(s)) == s,
    decreases s.len(),
{
    if s.len() == 1 {
        assert(digits_val(s) == digits_val(s.drop_last()) * 10 + (s.last() - 48));
        assert(s.drop_last().len() == 0);
        assert(digits_val(s) == s[0] - 48);
        assert(dec_u(digits_val(s)) == seq![(48 + (s[0] - 48)) as u8]);
        assert(dec_u(digits_val(s)) =~= s);
    } else {
        let p = s.drop_last();
        let d = s.last() - 48;
        assert(p[0] == s[0]);
        lemma_canon_digits_inverse(p);
        let vp = digits_val(p);
        assert(dec_u(vp) == p);
        if vp == 0 {
            assert(dec_u(0int) == seq![48u8]);
            assert(p[0] == 48);
            assert(false);
        }
        let v = digits_val(s);
        assert(v == vp * 10 + d);
        assert(v >= 10) by (nonlinear_arith)
            requires
                vp >= 1,
                v == vp * 10 + d,
                d >= 0,
        ;
        assert(v / 10 == vp && v % 10 == d) by {
            vstd::arithmetic::div_mod::lemma_fundamental_div_mod_converse(v, 10, vp, d);
        }
        assert(dec_u(v) == dec_u(vp) + seq![(48 + d) as u8]);
        assert(dec_u(v) =~= s);
    }
}

/// Digit-string values are nonnegative.
pub proof fn lemma_digits_val_nonneg(s: Seq<u8>)
    requires
        all_digits(s),
    ensures
        digits_val(s) >= 0,
    decreases s.len(),
{
    if s.len() > 0 {
        assert(all_digits(s.drop_last()));
        lemma_digits_val_nonneg(s.drop_last());
        assert(digits_val(s) >= 0) by (nonlinear_arith)
            requires
                digits_val(s) == digits_val(s.drop_last()) * 10 + (s.last() - 48),
                digits_val(s.drop_last()) >= 0,
                s.last() >= 48,
        ;
    }
}

/// A digit prefix never exceeds the value of the whole digit string.
pub proof fn lemma_digits_val_prefix_le(a: Seq<u8>, b: Seq<u8>)
    requires
        all_digits(a),
        all_digits(b),
    ensures
        digits_val(a) <= digits_val(a + b),
    decreases b.len(),
{
    if b.len() == 0 {
        assert(a + b =~= a);
    } else {
        assert(all_digits(b.drop_last()));
        lemma_digits_val_prefix_le(a, b.drop_last());
        assert(a + b =~= (a + b.drop_last()).push(b.last()));
        assert((a + b.drop_last()).push(b.last()).drop_last() =~= a + b.drop_last());
        assert(all_digits(a + b.drop_last()));
        lemma_digits_val_nonneg(a + b.drop_last());
        let w = digits_val(a + b.drop_last());
        assert(digits_val(a + b) == w * 10 + (b.last() - 48));
        assert(w * 10 + (b.last() - 48) >= w) by (nonlinear_arith)
            requires
                w >= 0,
                b.last() >= 48,
        ;
    }
}

/// A negative number's emission is a minus sign followed by the emission
/// of its magnitude, with the same right delimiter.
proof fn lemma_strip_minus(s: Seq<u8>, i: int, v0: int)
    requires
        v0 < 0,
        0 <= i,
        num_i_at(s, i, v0),
    ensures
        s[i] == 45,
        num_u_at(s, i + 1, -v0),
{
    lemma_dec_u_basic(-v0);
    let lu = dec_u(-v0).len() as int;
    assert(dec_i(v0) == seq![45u8] + dec_u(-v0));
    assert(dec_i(v0).len() == 1 + lu);
    assert(s.subrange(i, i + 1 + lu) == dec_i(v0));
    assert(s[i] == s.subrange(i, i + 1 + lu)[0]);
    assert forall|k: int| 0 <= k < lu implies s[i + 1 + k] == #[trigger] dec_u(-v0)[k] by {
        assert(s.subrange(i, i + 1 + lu)[1 + k] == s[i + 1 + k]);
        assert(dec_i(v0)[1 + k] == dec_u(-v0)[k]);
    }
    assert(s.subrange(i + 1, i + 1 + lu) =~= dec_u(-v0));
}

/// Read a canonical nonnegative decimal at `i`: at least one digit, no
/// leading zero, value at most `NUM_LIMIT`, consumed up to the first
/// non-digit.
pub fn parse_u64(s: &[u8], i: usize) -> (r: Result<(u64, usize), ParseError>)
    requires
        i <= s@.len(),
    ensures
        r matches Ok(ok) ==> {
            &&& i < ok.1 <= s@.len()
            &&& ok.0 <= NUM_LIMIT
            &&& s@.subrange(i as int, ok.1 as int) == dec_u(ok.0 as int)
            &&& (ok.1 == s@.len() || !is_digit(s@[ok.1 as int]))
        },
        forall|v: int|
            0 <= v <= NUM_LIMIT && #[trigger] num_u_at(s@, i as int, v) ==> r == Ok::<
                (u64, usize),
                ParseError,
            >((v as u64, (i + dec_u(v).len()) as usize)),
{
    let n: usize = s.len();
    if i >= n {
        proof {
            assert forall|v: int| 0 <= v <= NUM_LIMIT && #[trigger] num_u_at(
                s@,
                i as int,
                v,
            ) implies false by {
                lemma_dec_u_basic(v);
            }
        }
        return Err(ParseError { at: i, kind: ParseIssue::EndOfInput });
    }
    let b0: u8 = s[i];
    if !(48 <= b0 && b0 <= 57) {
        proof {
            assert forall|v: int| 0 <= v <= NUM_LIMIT && #[trigger] num_u_at(
                s@,
                i as int,
                v,
            ) implies false by {
                lemma_dec_u_basic(v);
                assert(s@[i as int] == dec_u(v)[0]);
            }
        }
        return Err(ParseError { at: i, kind: ParseIssue::UnexpectedByte });
    }
    if b0 == 48 {
        if i + 1 < n {
            let b1: u8 = s[i + 1];
            if 48 <= b1 && b1 <= 57 {
                proof {
                    assert forall|v: int| 0 <= v <= NUM_LIMIT && #[trigger] num_u_at(
                        s@,
                        i as int,
                        v,
                    ) implies false by {
                        lemma_dec_u_basic(v);
                        if v == 0 {
                            assert(!is_digit(s@[i + 1int]));
                        } else {
                            assert(s@[i as int] == dec_u(v)[0]);
                        }
                    }
                }
                return Err(ParseError { at: i, kind: ParseIssue::UnexpectedByte });
            }
        }
        proof {
            assert(s@.subrange(i as int, i + 1int) =~= seq![48u8]);
            assert(dec_u(0int) == seq![48u8]);
            assert forall|v: int| 0 <= v <= NUM_LIMIT && #[trigger] num_u_at(
                s@,
                i as int,
                v,
            ) implies Ok::<(u64, usize), ParseError>((0u64, (i + 1) as usize)) == Ok::<
                (u64, usize),
                ParseError,
            >((v as u64, (i + dec_u(v).len()) as usize)) by {
                lemma_dec_u_basic(v);
                if v > 0 {
                    assert(s@[i as int] == dec_u(v)[0]);
                    assert(false);
                }
            }
        }
        return Ok((0, i + 1));
    }
    let mut acc: u64 = (b0 - 48) as u64;
    let mut j: usize = i + 1;
    proof {
        assert(s@.subrange(i as int, j as int) =~= seq![b0]);
        assert(seq![b0].drop_last() =~= Seq::<u8>::empty());
        assert(digits_val(Seq::<u8>::empty()) == 0);
        assert(digits_val(seq![b0]) == b0 - 48);
    }
    while j < n && 48 <= s[j] && s[j] <= 57
        invariant
            i < j <= n <= s@.len(),
            n == s@.len(),
            1 <= acc <= NUM_LIMIT,
            all_digits(s@.subrange(i as int, j as int)),
            digits_val(s@.subrange(i as int, j as int)) == acc,
            s@[i as int] == b0,
            49 <= b0 <= 57,
        decreases n - j,
    {
        let d: u8 = s[j] - 48;
        let next: u64 = acc * 10 + (d as u64);
        proof {
            let pre = s@.subrange(i as int, j as int);
            let ext = s@.subrange(i as int, j + 1int);
            assert(ext =~= pre.push(s@[j as int]));
            assert(ext.drop_last() =~= pre);
            assert(digits_val(ext) == acc * 10 + d);
        }
        if next > NUM_LIMIT {
            proof {
                let ext = s@.subrange(i as int, j + 1int);
                assert forall|v: int| 0 <= v <= NUM_LIMIT && #[trigger] num_u_at(
                    s@,
                    i as int,
                    v,
                ) implies false by {
                    lemma_dec_u_basic(v);
                    let ll = dec_u(v).len() as int;
                    // the digit run under the hypothesis ends exactly at i + ll
                    if j + 1 > i + ll {
                        // then position i + ll lies in [i, j + 1), a digit region
                        if i + ll < j {
                            assert(is_digit(s@.subrange(i as int, j as int)[ll]));
                            assert(s@.subrange(i as int, j as int)[ll] == s@[i + ll]);
                        } else {
                            assert(i + ll == j);
                            assert(is_digit(s@[j as int]));
                        }
                        assert(false);
                    }
                    // ext is a prefix of the emitted digits
                    let rest = dec_u(v).subrange(j + 1 - i as int, ll);
                    assert(dec_u(v) =~= ext + rest) by {
                        assert forall|k: int| 0 <= k < ll implies dec_u(v)[k] == s@[i + k] by {
                            assert(s@.subrange(i as int, i + ll)[k] == s@[i + k]);
                        }
                    }
                    assert(all_digits(ext) && all_digits(rest));
                    lemma_digits_val_prefix_le(ext, rest);
                    assert(digits_val(dec_u(v)) == v);
                    assert(digits_val(ext) <= v);
                    assert(false);
                }
            }
            return Err(ParseError { at: j, kind: ParseIssue::NumberOutOfRange });
        }
        acc = next;
        j = j + 1;
    }
    proof {
        let run = s@.subrange(i as int, j as int);
        lemma_canon_digits_inverse(run);
        assert(dec_u(acc as int) == run);
        assert forall|v: int| 0 <= v <= NUM_LIMIT && #[trigger] num_u_at(
            s@,
            i as int,
            v,
        ) implies Ok::<(u64, usize), ParseError>((acc, j)) == Ok::<(u64, usize), ParseError>(
            (v as u64, (i + dec_u(v).len()) as usize),
        ) by {
            lemma_dec_u_basic(v);
            let ll = dec_u(v).len() as int;
            if j > i + ll {
                assert(s@.subrange(i as int, j as int)[ll] == s@[i + ll]);
                assert(is_digit(s@[i + ll]));
                assert(false);
            }
            if j < i + ll {
                assert(dec_u(v)[j - i] == s@.subrange(i as int, i + ll)[j - i]);
                assert(is_digit(s@[j as int]));
                assert(false);
            }
            assert(j == i + ll);
            assert(run == dec_u(v));
            assert(digits_val(run) == v);
        }
    }
    Ok((acc, j))
}

/// Read a canonical decimal integer at `i`: an optional minus sign (never
/// on zero) and canonical digits, consumed up to the first non-digit.
pub fn parse_i64(s: &[u8], i: usize) -> (r: Result<(i64, usize), ParseError>)
    requires
        i <= s@.len(),
    ensures
        r matches Ok(ok) ==> {
            &&& i < ok.1 <= s@.len()
            &&& -(NUM_LIMIT as int) <= ok.0 as int <= NUM_LIMIT as int
            &&& s@.subrange(i as int, ok.1 as int) == dec_i(ok.0 as int)
            &&& (ok.1 == s@.len() || !is_digit(s@[ok.1 as int]))
        },
        forall|v: int|
            -(NUM_LIMIT as int) <= v <= NUM_LIMIT && #[trigger] num_i_at(s@, i as int, v)
                ==> r == Ok::<(i64, usize), ParseError>(
                (v as i64, (i + dec_i(v).len()) as usize),
            ),
{
    let n: usize = s.len();
    if i < n && s[i] == 45 {
        match parse_u64(s, i + 1) {
            Ok((v, j)) => {
                if v == 0 {
                    proof {
                        assert forall|v0: int| -(NUM_LIMIT as int) <= v0 <= NUM_LIMIT
                            && #[trigger] num_i_at(s@, i as int, v0) implies false by {
                            if v0 >= 0 {
                                lemma_dec_u_basic(v0);
                                assert(s@[i as int] == dec_i(v0)[0]);
                            } else {
                                lemma_dec_u_basic(-v0);
                                lemma_strip_minus(s@, i as int, v0);
                                assert(Ok::<(u64, usize), ParseError>((v, j)) == Ok::<
                                    (u64, usize),
                                    ParseError,
                                >(((-v0) as u64, ((i + 1) + dec_u(-v0).len()) as usize)));
                                assert(-v0 >= 1);
                            }
                        }
                    }
                    return Err(ParseError { at: i, kind: ParseIssue::UnexpectedByte });
                }
                proof {
                    assert(s@.subrange(i as int, j as int) =~= seq![45u8] + s@.subrange(
                        i + 1int,
                        j as int,
                    ));
                    assert forall|v0: int| -(NUM_LIMIT as int) <= v0 <= NUM_LIMIT
                        && #[trigger] num_i_at(s@, i as int, v0) implies Ok::<
                        (i64, usize),
                        ParseError,
                    >(((-(v as int)) as i64, j)) == Ok::<(i64, usize), ParseError>(
                        (v0 as i64, (i + dec_i(v0).len()) as usize),
                    ) by {
                        if v0 >= 0 {
                            lemma_dec_u_basic(v0);
                            assert(s@[i as int] == dec_i(v0)[0]);
                            assert(false);
                        } else {
                            lemma_dec_u_basic(-v0);
                            lemma_strip_minus(s@, i as int, v0);
                            assert(Ok::<(u64, usize), ParseError>((v, j)) == Ok::<
                                (u64, usize),
                                ParseError,
                            >(((-v0) as u64, ((i + 1) + dec_u(-v0).len()) as usize)));
                        }
                    }
                }
                Ok((-(v as i64), j))
            },
            Err(e) => {
                proof {
                    assert forall|v0: int| -(NUM_LIMIT as int) <= v0 <= NUM_LIMIT
                        && #[trigger] num_i_at(s@, i as int, v0) implies false by {
                        if v0 >= 0 {
                            lemma_dec_u_basic(v0);
                            assert(s@[i as int] == dec_i(v0)[0]);
                        } else {
                            lemma_dec_u_basic(-v0);
                            lemma_strip_minus(s@, i as int, v0);
                        }
                    }
                }
                Err(e)
            },
        }
    } else {
        match parse_u64(s, i) {
            Ok((v, j)) => {
                proof {
                    assert forall|v0: int| -(NUM_LIMIT as int) <= v0 <= NUM_LIMIT
                        && #[trigger] num_i_at(s@, i as int, v0) implies Ok::<
                        (i64, usize),
                        ParseError,
                    >((v as i64, j)) == Ok::<(i64, usize), ParseError>(
                        (v0 as i64, (i + dec_i(v0).len()) as usize),
                    ) by {
                        if v0 < 0 {
                            assert(dec_i(v0)[0] == 45);
                            assert(s@[i as int] == 45);
                            assert(false);
                        } else {
                            assert(num_u_at(s@, i as int, v0));
                        }
                    }
                }
                Ok((v as i64, j))
            },
            Err(e) => {
                proof {
                    assert forall|v0: int| -(NUM_LIMIT as int) <= v0 <= NUM_LIMIT
                        && #[trigger] num_i_at(s@, i as int, v0) implies false by {
                        if v0 < 0 {
                            assert(dec_i(v0)[0] == 45);
                            assert(s@[i as int] == 45);
                        } else {
                            assert(num_u_at(s@, i as int, v0));
                        }
                    }
                }
                Err(e)
            },
        }
    }
}


/// Adjacent subranges concatenate.
pub proof fn lemma_subrange_concat(s: Seq<u8>, a: int, b: int, c: int)
    requires
        0 <= a <= b <= c <= s.len(),
    ensures
        s.subrange(a, c) == s.subrange(a, b) + s.subrange(b, c),
{
    assert(s.subrange(a, c) =~= s.subrange(a, b) + s.subrange(b, c));
}

/// A subrange known to be a concatenation splits at the seam.
pub proof fn lemma_subrange_unconcat(s: Seq<u8>, a: int, c: int, x: Seq<u8>, y: Seq<u8>)
    requires
        0 <= a <= c <= s.len(),
        c - a == x.len() + y.len(),
        s.subrange(a, c) == x + y,
    ensures
        s.subrange(a, a + x.len()) == x,
        s.subrange(a + x.len(), c) == y,
{
    assert forall|k: int| 0 <= k < x.len() implies s.subrange(a, a + x.len() as int)[k] == #[trigger] x[k] by {
        assert(s.subrange(a, c)[k] == s[a + k]);
        assert((x + y)[k] == x[k]);
        assert(s.subrange(a, a + x.len() as int)[k] == s[a + k]);
    }
    assert(s.subrange(a, a + x.len() as int) =~= x);
    assert forall|k: int| 0 <= k < y.len() implies s.subrange(a + x.len() as int, c)[k] == #[trigger] y[k] by {
        assert(s.subrange(a, c)[x.len() + k] == s[a + x.len() + k]);
        assert((x + y)[x.len() + k] == y[k]);
        assert(s.subrange(a + x.len() as int, c)[k] == s[a + x.len() + k]);
    }
    assert(s.subrange(a + x.len() as int, c) =~= y);
}

/// Expect the literal bytes of `{\"x\":` at `i`.
fn eat_obj_x(s: &[u8], i: usize) -> (r: Result<usize, ParseError>)
    requires
        i <= s@.len(),
    ensures
        r matches Ok(j) ==> j == i + 5 && i as int + 5 <= s@.len() && s@.subrange(
            i as int,
            j as int,
        ) == k_obj_x(),
        i as int + 5 <= s@.len() && s@.subrange(i as int, i as int + 5) == k_obj_x()
            ==> r == Ok::<usize, ParseError>((i + 5) as usize),
{
    let n: usize = s.len();
    if n - i < 5 {
        return Err(ParseError { at: n, kind: ParseIssue::EndOfInput });
    }
    if s[i + 0] != 123 {
        proof {
            if i as int + 5 <= s@.len() && s@.subrange(i as int, i as int + 5) == k_obj_x() {
                assert(s@.subrange(i as int, i as int + 5)[0] == s@[i as int + 0]);
                assert(false);
            }
        }
        return Err(ParseError { at: i + 0, kind: ParseIssue::UnexpectedByte });
    }
    if s[i + 1] != 34 {
        proof {
            if i as int + 5 <= s@.len() && s@.subrange(i as int, i as int + 5) == k_obj_x() {
                assert(s@.subrange(i as int, i as int + 5)[1] == s@[i as int + 1]);
                assert(false);
            }
        }
        return Err(ParseError { at: i + 1, kind: ParseIssue::UnexpectedByte });
    }
    if s[i + 2] != 120 {
        proof {
            if i as int + 5 <= s@.len() && s@.subrange(i as int, i as int + 5) == k_obj_x() {
                assert(s@.subrange(i as int, i as int + 5)[2] == s@[i as int + 2]);
                assert(false);
            }
        }
        return Err(ParseError { at: i + 2, kind: ParseIssue::UnexpectedByte });
    }
    if s[i + 3] != 34 {
        proof {
            if i as int + 5 <= s@.len() && s@.subrange(i as int, i as int + 5) == k_obj_x() {
                assert(s@.subrange(i as int, i as int + 5)[3] == s@[i as int + 3]);
                assert(false);
            }
        }
        return Err(ParseError { at: i + 3, kind: ParseIssue::UnexpectedByte });
    }
    if s[i + 4] != 58 {
        proof {
            if i as int + 5 <= s@.len() && s@.subrange(i as int, i as int + 5) == k_obj_x() {
                assert(s@.subrange(i as int, i as int + 5)[4] == s@[i as int + 4]);
                assert(false);
            }
        }
        return Err(ParseError { at: i + 4, kind: ParseIssue::UnexpectedByte });
    }
    proof {
        assert(s@.subrange(i as int, i as int + 5) =~= k_obj_x());
    }
    Ok(i + 5)
}

/// Expect the literal bytes of `,\"y\":` at `i`.
fn eat_comma_y(s: &[u8], i: usize) -> (r: Result<usize, ParseError>)
    requires
        i <= s@.len(),
    ensures
        r matches Ok(j) ==> j == i + 5 && i as int + 5 <= s@.len() && s@.subrange(
            i as int,
            j as int,
        ) == k_comma_y(),
        i as int + 5 <= s@.len() && s@.subrange(i as int, i as int + 5) == k_comma_y()
            ==> r == Ok::<usize, ParseError>((i + 5) as usize),
{
    let n: usize = s.len();
    if n - i < 5 {
        return Err(ParseError { at: n, kind: ParseIssue::EndOfInput });
    }
    if s[i + 0] != 44 {
        proof {
            if i as int + 5 <= s@.len() && s@.subrange(i as int, i as int + 5) == k_comma_y() {
                assert(s@.subrange(i as int, i as int + 5)[0] == s@[i as int + 0]);
                assert(false);
            }
        }
        return Err(ParseError { at: i + 0, kind: ParseIssue::UnexpectedByte });
    }
    if s[i + 1] != 34 {
        proof {
            if i as int + 5 <= s@.len() && s@.subrange(i as int, i as int + 5) == k_comma_y() {
                assert(s@.subrange(i as int, i as int + 5)[1] == s@[i as int + 1]);
                assert(false);
            }
        }
        return Err(ParseError { at: i + 1, kind: ParseIssue::UnexpectedByte });
    }
    if s[i + 2] != 121 {
        proof {
            if i as int + 5 <= s@.len() && s@.subrange(i as int, i as int + 5) == k_comma_y() {
                assert(s@.subrange(i as int, i as int + 5)[2] == s@[i as int + 2]);
                assert(false);
            }
        }
        return Err(ParseError { at: i + 2, kind: ParseIssue::UnexpectedByte });
    }
    if s[i + 3] != 34 {
        proof {
            if i as int + 5 <= s@.len() && s@.subrange(i as int, i as int + 5) == k_comma_y() {
                assert(s@.subrange(i as int, i as int + 5)[3] == s@[i as int + 3]);
                assert(false);
            }
        }
        return Err(ParseError { at: i + 3, kind: ParseIssue::UnexpectedByte });
    }
    if s[i + 4] != 58 {
        proof {
            if i as int + 5 <= s@.len() && s@.subrange(i as int, i as int + 5) == k_comma_y() {
                assert(s@.subrange(i as int, i as int + 5)[4] == s@[i as int + 4]);
                assert(false);
            }
        }
        return Err(ParseError { at: i + 4, kind: ParseIssue::UnexpectedByte });
    }
    proof {
        assert(s@.subrange(i as int, i as int + 5) =~= k_comma_y());
    }
    Ok(i + 5)
}

/// Expect the literal bytes of `{\"points\":[` at `i`.
fn eat_obj_points(s: &[u8], i: usize) -> (r: Result<usize, ParseError>)
    requires
        i <= s@.len(),
    ensures
        r matches Ok(j) ==> j == i + 11 && i as int + 11 <= s@.len() && s@.subrange(
            i as int,
            j as int,
        ) == k_obj_points(),
        i as int + 11 <= s@.len() && s@.subrange(i as int, i as int + 11) == k_obj_points()
            ==> r == Ok::<usize, ParseError>((i + 11) as usize),
{
    let n: usize = s.len();
    if n - i < 11 {
        return Err(ParseError { at: n, kind: ParseIssue::EndOfInput });
    }
    if s[i + 0] != 123 {
        proof {
            if i as int + 11 <= s@.len() && s@.subrange(i as int, i as int + 11) == k_obj_points() {
                assert(s@.subrange(i as int, i as int + 11)[0] == s@[i as int + 0]);
                assert(false);
            }
        }
        return Err(ParseError { at: i + 0, kind: ParseIssue::UnexpectedByte });
    }
    if s[i + 1] != 34 {
        proof {
            if i as int + 11 <= s@.len() && s@.subrange(i as int, i as int + 11) == k_obj_points() {
                assert(s@.subrange(i as int, i as int + 11)[1] == s@[i as int + 1]);
                assert(false);
            }
        }
        return Err(ParseError { at: i + 1, kind: ParseIssue::UnexpectedByte });
    }
    if s[i + 2] != 112 {
        proof {
            if i as int + 11 <= s@.len() && s@.subrange(i as int, i as int + 11) == k_obj_points() {
                assert(s@.subrange(i as int, i as int + 11)[2] == s@[i as int + 2]);
                assert(false);
            }
        }
        return Err(ParseError { at: i + 2, kind: ParseIssue::UnexpectedByte });
    }
    if s[i + 3] != 111 {
        proof {
            if i as int + 11 <= s@.len() && s@.subrange(i as int, i as int + 11) == k_obj_points() {
                assert(s@.subrange(i as int, i as int + 11)[3] == s@[i as int + 3]);
                assert(false);
            }
        }
        return Err(ParseError { at: i + 3, kind: ParseIssue::UnexpectedByte });
    }
    if s[i + 4] != 105 {
        proof {
            if i as int + 11 <= s@.len() && s@.subrange(i as int, i as int + 11) == k_obj_points() {
                assert(s@.subrange(i as int, i as int + 11)[4] == s@[i as int + 4]);
                assert(false);
            }
        }
        return Err(ParseError { at: i + 4, kind: ParseIssue::UnexpectedByte });
    }
    if s[i + 5] != 110 {
        proof {
            if i as int + 11 <= s@.len() && s@.subrange(i as int, i as int + 11) == k_obj_points() {
                assert(s@.subrange(i as int, i as int + 11)[5] == s@[i as int + 5]);
                assert(false);
            }
        }
        return Err(ParseError { at: i + 5, kind: ParseIssue::UnexpectedByte });
    }
    if s[i + 6] != 116 {
        proof {
            if i as int + 11 <= s@.len() && s@.subrange(i as int, i as int + 11) == k_obj_points() {
                assert(s@.subrange(i as int, i as int + 11)[6] == s@[i as int + 6]);
                assert(false);
            }
        }
        return Err(ParseError { at: i + 6, kind: ParseIssue::UnexpectedByte });
    }
    if s[i + 7] != 115 {
        proof {
            if i as int + 11 <= s@.len() && s@.subrange(i as int, i as int + 11) == k_obj_points() {
                assert(s@.subrange(i as int, i as int + 11)[7] == s@[i as int + 7]);
                assert(false);
            }
        }
        return Err(ParseError { at: i + 7, kind: ParseIssue::UnexpectedByte });
    }
    if s[i + 8] != 34 {
        proof {
            if i as int + 11 <= s@.len() && s@.subrange(i as int, i as int + 11) == k_obj_points() {
                assert(s@.subrange(i as int, i as int + 11)[8] == s@[i as int + 8]);
                assert(false);
            }
        }
        return Err(ParseError { at: i + 8, kind: ParseIssue::UnexpectedByte });
    }
    if s[i + 9] != 58 {
        proof {
            if i as int + 11 <= s@.len() && s@.subrange(i as int, i as int + 11) == k_obj_points() {
                assert(s@.subrange(i as int, i as int + 11)[9] == s@[i as int + 9]);
                assert(false);
            }
        }
        return Err(ParseError { at: i + 9, kind: ParseIssue::UnexpectedByte });
    }
    if s[i + 10] != 91 {
        proof {
            if i as int + 11 <= s@.len() && s@.subrange(i as int, i as int + 11) == k_obj_points() {
                assert(s@.subrange(i as int, i as int + 11)[10] == s@[i as int + 10]);
                assert(false);
            }
        }
        return Err(ParseError { at: i + 10, kind: ParseIssue::UnexpectedByte });
    }
    proof {
        assert(s@.subrange(i as int, i as int + 11) =~= k_obj_points());
    }
    Ok(i + 11)
}

/// Expect the literal bytes of `],\"rot\":[` at `i`.
fn eat_close_rot(s: &[u8], i: usize) -> (r: Result<usize, ParseError>)
    requires
        i <= s@.len(),
    ensures
        r matches Ok(j) ==> j == i + 9 && i as int + 9 <= s@.len() && s@.subrange(
            i as int,
            j as int,
        ) == k_close_rot(),
        i as int + 9 <= s@.len() && s@.subrange(i as int, i as int + 9) == k_close_rot()
            ==> r == Ok::<usize, ParseError>((i + 9) as usize),
{
    let n: usize = s.len();
    if n - i < 9 {
        return Err(ParseError { at: n, kind: ParseIssue::EndOfInput });
    }
    if s[i + 0] != 93 {
        proof {
            if i as int + 9 <= s@.len() && s@.subrange(i as int, i as int + 9) == k_close_rot() {
                assert(s@.subrange(i as int, i as int + 9)[0] == s@[i as int + 0]);
                assert(false);
            }
        }
        return Err(ParseError { at: i + 0, kind: ParseIssue::UnexpectedByte });
    }
    if s[i + 1] != 44 {
        proof {
            if i as int + 9 <= s@.len() && s@.subrange(i as int, i as int + 9) == k_close_rot() {
                assert(s@.subrange(i as int, i as int + 9)[1] == s@[i as int + 1]);
                assert(false);
            }
        }
        return Err(ParseError { at: i + 1, kind: ParseIssue::UnexpectedByte });
    }
    if s[i + 2] != 34 {
        proof {
            if i as int + 9 <= s@.len() && s@.subrange(i as int, i as int + 9) == k_close_rot() {
                assert(s@.subrange(i as int, i as int + 9)[2] == s@[i as int + 2]);
                assert(false);
            }
        }
        return Err(ParseError { at: i + 2, kind: ParseIssue::UnexpectedByte });
    }
    if s[i + 3] != 114 {
        proof {
            if i as int + 9 <= s@.len() && s@.subrange(i as int, i as int + 9) == k_close_rot() {
                assert(s@.subrange(i as int, i as int + 9)[3] == s@[i as int + 3]);
                assert(false);
            }
        }
        return Err(ParseError { at: i + 3, kind: ParseIssue::UnexpectedByte });
    }
    if s[i + 4] != 111 {
        proof {
            if i as int + 9 <= s@.len() && s@.subrange(i as int, i as int + 9) == k_close_rot() {
                assert(s@.subrange(i as int, i as int + 9)[4] == s@[i as int + 4]);
                assert(false);
            }
        }
        return Err(ParseError { at: i + 4, kind: ParseIssue::UnexpectedByte });
    }
    if s[i + 5] != 116 {
        proof {
            if i as int + 9 <= s@.len() && s@.subrange(i as int, i as int + 9) == k_close_rot() {
                assert(s@.subrange(i as int, i as int + 9)[5] == s@[i as int + 5]);
                assert(false);
            }
        }
        return Err(ParseError { at: i + 5, kind: ParseIssue::UnexpectedByte });
    }
    if s[i + 6] != 34 {
        proof {
            if i as int + 9 <= s@.len() && s@.subrange(i as int, i as int + 9) == k_close_rot() {
                assert(s@.subrange(i as int, i as int + 9)[6] == s@[i as int + 6]);
                assert(false);
            }
        }
        return Err(ParseError { at: i + 6, kind: ParseIssue::UnexpectedByte });
    }
    if s[i + 7] != 58 {
        proof {
            if i as int + 9 <= s@.len() && s@.subrange(i as int, i as int + 9) == k_close_rot() {
                assert(s@.subrange(i as int, i as int + 9)[7] == s@[i as int + 7]);
                assert(false);
            }
        }
        return Err(ParseError { at: i + 7, kind: ParseIssue::UnexpectedByte });
    }
    if s[i + 8] != 91 {
        proof {
            if i as int + 9 <= s@.len() && s@.subrange(i as int, i as int + 9) == k_close_rot() {
                assert(s@.subrange(i as int, i as int + 9)[8] == s@[i as int + 8]);
                assert(false);
            }
        }
        return Err(ParseError { at: i + 8, kind: ParseIssue::UnexpectedByte });
    }
    proof {
        assert(s@.subrange(i as int, i as int + 9) =~= k_close_rot());
    }
    Ok(i + 9)
}

/// Expect the literal bytes of `],\"tx\":` at `i`.
fn eat_close_tx(s: &[u8], i: usize) -> (r: Result<usize, ParseError>)
    requires
        i <= s@.len(),
    ensures
        r matches Ok(j) ==> j == i + 7 && i as int + 7 <= s@.len() && s@.subrange(
            i as int,
            j as int,
        ) == k_close_tx(),
        i as int + 7 <= s@.len() && s@.subrange(i as int, i as int + 7) == k_close_tx()
            ==> r == Ok::<usize, ParseError>((i + 7) as usize),
{
    let n: usize = s.len();
    if n - i < 7 {
        return Err(ParseError { at: n, kind: ParseIssue::EndOfInput });
    }
    if s[i + 0] != 93 {
        proof {
            if i as int + 7 <= s@.len() && s@.subrange(i as int, i as int + 7) == k_close_tx() {
                assert(s@.subrange(i as int, i as int + 7)[0] == s@[i as int + 0]);
                assert(false);
            }
        }
        return Err(ParseError { at: i + 0, kind: ParseIssue::UnexpectedByte });
    }
    if s[i + 1] != 44 {
        proof {
            if i as int + 7 <= s@.len() && s@.subrange(i as int, i as int + 7) == k_close_tx() {
                assert(s@.subrange(i as int, i as int + 7)[1] == s@[i as int + 1]);
                assert(false);
            }
        }
        return Err(ParseError { at: i + 1, kind: ParseIssue::UnexpectedByte });
    }
    if s[i + 2] != 34 {
        proof {
            if i as int + 7 <= s@.len() && s@.subrange(i as int, i as int + 7) == k_close_tx() {
                assert(s@.subrange(i as int, i as int + 7)[2] == s@[i as int + 2]);
                assert(false);
            }
        }
        return Err(ParseError { at: i + 2, kind: ParseIssue::UnexpectedByte });
    }
    if s[i + 3] != 116 {
        proof {
            if i as int + 7 <= s@.len() && s@.subrange(i as int, i as int + 7) == k_close_tx() {
                assert(s@.subrange(i as int, i as int + 7)[3] == s@[i as int + 3]);
                assert(false);
            }
        }
        return Err(ParseError { at: i + 3, kind: ParseIssue::UnexpectedByte });
    }
    if s[i + 4] != 120 {
        proof {
            if i as int + 7 <= s@.len() && s@.subrange(i as int, i as int + 7) == k_close_tx() {
                assert(s@.subrange(i as int, i as int + 7)[4] == s@[i as int + 4]);
                assert(false);
            }
        }
        return Err(ParseError { at: i + 4, kind: ParseIssue::UnexpectedByte });
    }
    if s[i + 5] != 34 {
        proof {
            if i as int + 7 <= s@.len() && s@.subrange(i as int, i as int + 7) == k_close_tx() {
                assert(s@.subrange(i as int, i as int + 7)[5] == s@[i as int + 5]);
                assert(false);
            }
        }
        return Err(ParseError { at: i + 5, kind: ParseIssue::UnexpectedByte });
    }
    if s[i + 6] != 58 {
        proof {
            if i as int + 7 <= s@.len() && s@.subrange(i as int, i as int + 7) == k_close_tx() {
                assert(s@.subrange(i as int, i as int + 7)[6] == s@[i as int + 6]);
                assert(false);
            }
        }
        return Err(ParseError { at: i + 6, kind: ParseIssue::UnexpectedByte });
    }
    proof {
        assert(s@.subrange(i as int, i as int + 7) =~= k_close_tx());
    }
    Ok(i + 7)
}

/// Expect the literal bytes of `,\"ty\":` at `i`.
fn eat_comma_ty(s: &[u8], i: usize) -> (r: Result<usize, ParseError>)
    requires
        i <= s@.len(),
    ensures
        r matches Ok(j) ==> j == i + 6 && i as int + 6 <= s@.len() && s@.subrange(
            i as int,
            j as int,
        ) == k_comma_ty(),
        i as int + 6 <= s@.len() && s@.subrange(i as int, i as int + 6) == k_comma_ty()
            ==> r == Ok::<usize, ParseError>((i + 6) as usize),
{
    let n: usize = s.len();
    if n - i < 6 {
        return Err(ParseError { at: n, kind: ParseIssue::EndOfInput });
    }
    if s[i + 0] != 44 {
        proof {
            if i as int + 6 <= s@.len() && s@.subrange(i as int, i as int + 6) == k_comma_ty() {
                assert(s@.subrange(i as int, i as int + 6)[0] == s@[i as int + 0]);
                assert(false);
            }
        }
        return Err(ParseError { at: i + 0, kind: ParseIssue::UnexpectedByte });
    }
    if s[i + 1] != 34 {
        proof {
            if i as int + 6 <= s@.len() && s@.subrange(i as int, i as int + 6) == k_comma_ty() {
                assert(s@.subrange(i as int, i as int + 6)[1] == s@[i as int + 1]);
                assert(false);
            }
        }
        return Err(ParseError { at: i + 1, kind: ParseIssue::UnexpectedByte });
    }
    if s[i + 2] != 116 {
        proof {
            if i as int + 6 <= s@.len() && s@.subrange(i as int, i as int + 6) == k_comma_ty() {
                assert(s@.subrange(i as int, i as int + 6)[2] == s@[i as int + 2]);
                assert(false);
            }
        }
        return Err(ParseError { at: i + 2, kind: ParseIssue::UnexpectedByte });
    }
    if s[i + 3] != 121 {
        proof {
            if i as int + 6 <= s@.len() && s@.subrange(i as int, i as int + 6) == k_comma_ty() {
                assert(s@.subrange(i as int, i as int + 6)[3] == s@[i as int + 3]);
                assert(false);
            }
        }
        return Err(ParseError { at: i + 3, kind: ParseIssue::UnexpectedByte });
    }
    if s[i + 4] != 34 {
        proof {
            if i as int + 6 <= s@.len() && s@.subrange(i as int, i as int + 6) == k_comma_ty() {
                assert(s@.subrange(i as int, i as int + 6)[4] == s@[i as int + 4]);
                assert(false);
            }
        }
        return Err(ParseError { at: i + 4, kind: ParseIssue::UnexpectedByte });
    }
    if s[i + 5] != 58 {
        proof {
            if i as int + 6 <= s@.len() && s@.subrange(i as int, i as int + 6) == k_comma_ty() {
                assert(s@.subrange(i as int, i as int + 6)[5] == s@[i as int + 5]);
                assert(false);
            }
        }
        return Err(ParseError { at: i + 5, kind: ParseIssue::UnexpectedByte });
    }
    proof {
        assert(s@.subrange(i as int, i as int + 6) =~= k_comma_ty());
    }
    Ok(i + 6)
}

/// Expect the literal bytes of `{\"gridincx\":` at `i`.
fn eat_obj_gridincx(s: &[u8], i: usize) -> (r: Result<usize, ParseError>)
    requires
        i <= s@.len(),
    ensures
        r matches Ok(j) ==> j == i + 12 && i as int + 12 <= s@.len() && s@.subrange(
            i as int,
            j as int,
        ) == k_obj_gridincx(),
        i as int + 12 <= s@.len() && s@.subrange(i as int, i as int + 12) == k_obj_gridincx()
            ==> r == Ok::<usize, ParseError>((i + 12) as usize),
{
    let n: usize = s.len();
    if n - i < 12 {
        return Err(ParseError { at: n, kind: ParseIssue::EndOfInput });
    }
    if s[i + 0] != 123 {
        proof {
            if i as int + 12 <= s@.len() && s@.subrange(i as int, i as int + 12) == k_obj_gridincx() {
                assert(s@.subrange(i as int, i as int + 12)[0] == s@[i as int + 0]);
                assert(false);
            }
        }
        return Err(ParseError { at: i + 0, kind: ParseIssue::UnexpectedByte });
    }
    if s[i + 1] != 34 {
        proof {
            if i as int + 12 <= s@.len() && s@.subrange(i as int, i as int + 12) == k_obj_gridincx() {
                assert(s@.subrange(i as int, i as int + 12)[1] == s@[i as int + 1]);
                assert(false);
            }
        }
        return Err(ParseError { at: i + 1, kind: ParseIssue::UnexpectedByte });
    }
    if s[i + 2] != 103 {
        proof {
            if i as int + 12 <= s@.len() && s@.subrange(i as int, i as int + 12) == k_obj_gridincx() {
                assert(s@.subrange(i as int, i as int + 12)[2] == s@[i as int + 2]);
                assert(false);
            }
        }
        return Err(ParseError { at: i + 2, kind: ParseIssue::UnexpectedByte });
    }
    if s[i + 3] != 114 {
        proof {
            if i as int + 12 <= s@.len() && s@.subrange(i as int, i as int + 12) == k_obj_gridincx() {
                assert(s@.subrange(i as int, i as int + 12)[3] == s@[i as int + 3]);
                assert(false);
            }
        }
        return Err(ParseError { at: i + 3, kind: ParseIssue::UnexpectedByte });
    }
    if s[i + 4] != 105 {
        proof {
            if i as int + 12 <= s@.len() && s@.subrange(i as int, i as int + 12) == k_obj_gridincx() {
                assert(s@.subrange(i as int, i as int + 12)[4] == s@[i as int + 4]);
                assert(false);
            }
        }
        return Err(ParseError { at: i + 4, kind: ParseIssue::UnexpectedByte });
    }
    if s[i + 5] != 100 {
        proof {
            if i as int + 12 <= s@.len() && s@.subrange(i as int, i as int + 12) == k_obj_gridincx() {
                assert(s@.subrange(i as int, i as int + 12)[5] == s@[i as int + 5]);
                assert(false);
            }
        }
        return Err(ParseError { at: i + 5, kind: ParseIssue::UnexpectedByte });
    }
    if s[i + 6] != 105 {
        proof {
            if i as int + 12 <= s@.len() && s@.subrange(i as int, i as int + 12) == k_obj_gridincx() {
                assert(s@.subrange(i as int, i as int + 12)[6] == s@[i as int + 6]);
                assert(false);
            }
        }
        return Err(ParseError { at: i + 6, kind: ParseIssue::UnexpectedByte });
    }
    if s[i + 7] != 110 {
        proof {
            if i as int + 12 <= s@.len() && s@.subrange(i as int, i as int + 12) == k_obj_gridincx() {
                assert(s@.subrange(i as int, i as int + 12)[7] == s@[i as int + 7]);
                assert(false);
            }
        }
        return Err(ParseError { at: i + 7, kind: ParseIssue::UnexpectedByte });
    }
    if s[i + 8] != 99 {
        proof {
            if i as int + 12 <= s@.len() && s@.subrange(i as int, i as int + 12) == k_obj_gridincx() {
                assert(s@.subrange(i as int, i as int + 12)[8] == s@[i as int + 8]);
                assert(false);
            }
        }
        return Err(ParseError { at: i + 8, kind: ParseIssue::UnexpectedByte });
    }
    if s[i + 9] != 120 {
        proof {
            if i as int + 12 <= s@.len() && s@.subrange(i as int, i as int + 12) == k_obj_gridincx() {
                assert(s@.subrange(i as int, i as int + 12)[9] == s@[i as int + 9]);
                assert(false);
            }
        }
        return Err(ParseError { at: i + 9, kind: ParseIssue::UnexpectedByte });
    }
    if s[i + 10] != 34 {
        proof {
            if i as int + 12 <= s@.len() && s@.subrange(i as int, i as int + 12) == k_obj_gridincx() {
                assert(s@.subrange(i as int, i as int + 12)[10] == s@[i as int + 10]);
                assert(false);
            }
        }
        return Err(ParseError { at: i + 10, kind: ParseIssue::UnexpectedByte });
    }
    if s[i + 11] != 58 {
        proof {
            if i as int + 12 <= s@.len() && s@.subrange(i as int, i as int + 12) == k_obj_gridincx() {
                assert(s@.subrange(i as int, i as int + 12)[11] == s@[i as int + 11]);
                assert(false);
            }
        }
        return Err(ParseError { at: i + 11, kind: ParseIssue::UnexpectedByte });
    }
    proof {
        assert(s@.subrange(i as int, i as int + 12) =~= k_obj_gridincx());
    }
    Ok(i + 12)
}

/// Expect the literal bytes of `,\"gridincy\":` at `i`.
fn eat_comma_gridincy(s: &[u8], i: usize) -> (r: Result<usize, ParseError>)
    requires
        i <= s@.len(),
    ensures
        r matches Ok(j) ==> j == i + 12 && i as int + 12 <= s@.len() && s@.subrange(
            i as int,
            j as int,
        ) == k_comma_gridincy(),
        i as int + 12 <= s@.len() && s@.subrange(i as int, i as int + 12) == k_comma_gridincy()
            ==> r == Ok::<usize, ParseError>((i + 12) as usize),
{
    let n: usize = s.len();
    if n - i < 12 {
        return Err(ParseError { at: n, kind: ParseIssue::EndOfInput });
    }
    if s[i + 0] != 44 {
        proof {
            if i as int + 12 <= s@.len() && s@.subrange(i as int, i as int + 12) == k_comma_gridincy() {
                assert(s@.subrange(i as int, i as int + 12)[0] == s@[i as int + 0]);
                assert(false);
            }
        }
        return Err(ParseError { at: i + 0, kind: ParseIssue::UnexpectedByte });
    }
    if s[i + 1] != 34 {
        proof {
            if i as int + 12 <= s@.len() && s@.subrange(i as int, i as int + 12) == k_comma_gridincy() {
                assert(s@.subrange(i as int, i as int + 12)[1] == s@[i as int + 1]);
                assert(false);
            }
        }
        return Err(ParseError { at: i + 1, kind: ParseIssue::UnexpectedByte });
    }
    if s[i + 2] != 103 {
        proof {
            if i as int + 12 <= s@.len() && s@.subrange(i as int, i as int + 12) == k_comma_gridincy() {
                assert(s@.subrange(i as int, i as int + 12)[2] == s@[i as int + 2]);
                assert(false);
            }
        }
        return Err(ParseError { at: i + 2, kind: ParseIssue::UnexpectedByte });
    }
    if s[i + 3] != 114 {
        proof {
            if i as int + 12 <= s@.len() && s@.subrange(i as int, i as int + 12) == k_comma_gridincy() {
                assert(s@.subrange(i as int, i as int + 12)[3] == s@[i as int + 3]);
                assert(false);
            }
        }
        return Err(ParseError { at: i + 3, kind: ParseIssue::UnexpectedByte });
    }
    if s[i + 4] != 105 {
        proof {
            if i as int + 12 <= s@.len() && s@.subrange(i as int, i as int + 12) == k_comma_gridincy() {
                assert(s@.subrange(i as int, i as int + 12)[4] == s@[i as int + 4]);
                assert(false);
            }
        }
        return Err(ParseError { at: i + 4, kind: ParseIssue::UnexpectedByte });
    }
    if s[i + 5] != 100 {
        proof {
            if i as int + 12 <= s@.len() && s@.subrange(i as int, i as int + 12) == k_comma_gridincy() {
                assert(s@.subrange(i as int, i as int + 12)[5] == s@[i as int + 5]);
                assert(false);
            }
        }
        return Err(ParseError { at: i + 5, kind: ParseIssue::UnexpectedByte });
    }
    if s[i + 6] != 105 {
        proof {
            if i as int + 12 <= s@.len() && s@.subrange(i as int, i as int + 12) == k_comma_gridincy() {
                assert(s@.subrange(i as int, i as int + 12)[6] == s@[i as int + 6]);
                assert(false);
            }
        }
        return Err(ParseError { at: i + 6, kind: ParseIssue::UnexpectedByte });
    }
    if s[i + 7] != 110 {
        proof {
            if i as int + 12 <= s@.len() && s@.subrange(i as int, i as int + 12) == k_comma_gridincy() {
                assert(s@.subrange(i as int, i as int + 12)[7] == s@[i as int + 7]);
                assert(false);
            }
        }
        return Err(ParseError { at: i + 7, kind: ParseIssue::UnexpectedByte });
    }
    if s[i + 8] != 99 {
        proof {
            if i as int + 12 <= s@.len() && s@.subrange(i as int, i as int + 12) == k_comma_gridincy() {
                assert(s@.subrange(i as int, i as int + 12)[8] == s@[i as int + 8]);
                assert(false);
            }
        }
        return Err(ParseError { at: i + 8, kind: ParseIssue::UnexpectedByte });
    }
    if s[i + 9] != 121 {
        proof {
            if i as int + 12 <= s@.len() && s@.subrange(i as int, i as int + 12) == k_comma_gridincy() {
                assert(s@.subrange(i as int, i as int + 12)[9] == s@[i as int + 9]);
                assert(false);
            }
        }
        return Err(ParseError { at: i + 9, kind: ParseIssue::UnexpectedByte });
    }
    if s[i + 10] != 34 {
        proof {
            if i as int + 12 <= s@.len() && s@.subrange(i as int, i as int + 12) == k_comma_gridincy() {
                assert(s@.subrange(i as int, i as int + 12)[10] == s@[i as int + 10]);
                assert(false);
            }
        }
        return Err(ParseError { at: i + 10, kind: ParseIssue::UnexpectedByte });
    }
    if s[i + 11] != 58 {
        proof {
            if i as int + 12 <= s@.len() && s@.subrange(i as int, i as int + 12) == k_comma_gridincy() {
                assert(s@.subrange(i as int, i as int + 12)[11] == s@[i as int + 11]);
                assert(false);
            }
        }
        return Err(ParseError { at: i + 11, kind: ParseIssue::UnexpectedByte });
    }
    proof {
        assert(s@.subrange(i as int, i as int + 12) =~= k_comma_gridincy());
    }
    Ok(i + 12)
}

/// Expect the literal bytes of `,\"shiftx\":` at `i`.
fn eat_comma_shiftx(s: &[u8], i: usize) -> (r: Result<usize, ParseError>)
    requires
        i <= s@.len(),
    ensures
        r matches Ok(j) ==> j == i + 10 && i as int + 10 <= s@.len() && s@.subrange(
            i as int,
            j as int,
        ) == k_comma_shiftx(),
        i as int + 10 <= s@.len() && s@.subrange(i as int, i as int + 10) == k_comma_shiftx()
            ==> r == Ok::<usize, ParseError>((i + 10) as usize),
{
    let n: usize = s.len();
    if n - i < 10 {
        return Err(ParseError { at: n, kind: ParseIssue::EndOfInput });
    }
    if s[i + 0] != 44 {
        proof {
            if i as int + 10 <= s@.len() && s@.subrange(i as int, i as int + 10) == k_comma_shiftx() {
                assert(s@.subrange(i as int, i as int + 10)[0] == s@[i as int + 0]);
                assert(false);
            }
        }
        return Err(ParseError { at: i + 0, kind: ParseIssue::UnexpectedByte });
    }
    if s[i + 1] != 34 {
        proof {
            if i as int + 10 <= s@.len() && s@.subrange(i as int, i as int + 10) == k_comma_shiftx() {
                assert(s@.subrange(i as int, i as int + 10)[1] == s@[i as int + 1]);
                assert(false);
            }
        }
        return Err(ParseError { at: i + 1, kind: ParseIssue::UnexpectedByte });
    }
    if s[i + 2] != 115 {
        proof {
            if i as int + 10 <= s@.len() && s@.subrange(i as int, i as int + 10) == k_comma_shiftx() {
                assert(s@.subrange(i as int, i as int + 10)[2] == s@[i as int + 2]);
                assert(false);
            }
        }
        return Err(ParseError { at: i + 2, kind: ParseIssue::UnexpectedByte });
    }
    if s[i + 3] != 104 {
        proof {
            if i as int + 10 <= s@.len() && s@.subrange(i as int, i as int + 10) == k_comma_shiftx() {
                assert(s@.subrange(i as int, i as int + 10)[3] == s@[i as int + 3]);
                assert(false);
            }
        }
        return Err(ParseError { at: i + 3, kind: ParseIssue::UnexpectedByte });
    }
    if s[i + 4] != 105 {
        proof {
            if i as int + 10 <= s@.len() && s@.subrange(i as int, i as int + 10) == k_comma_shiftx() {
                assert(s@.subrange(i as int, i as int + 10)[4] == s@[i as int + 4]);
                assert(false);
            }
        }
        return Err(ParseError { at: i + 4, kind: ParseIssue::UnexpectedByte });
    }
    if s[i + 5] != 102 {
        proof {
            if i as int + 10 <= s@.len() && s@.subrange(i as int, i as int + 10) == k_comma_shiftx() {
                assert(s@.subrange(i as int, i as int + 10)[5] == s@[i as int + 5]);
                assert(false);
            }
        }
        return Err(ParseError { at: i + 5, kind: ParseIssue::UnexpectedByte });
    }
    if s[i + 6] != 116 {
        proof {
            if i as int + 10 <= s@.len() && s@.subrange(i as int, i as int + 10) == k_comma_shiftx() {
                assert(s@.subrange(i as int, i as int + 10)[6] == s@[i as int + 6]);
                assert(false);
            }
        }
        return Err(ParseError { at: i + 6, kind: ParseIssue::UnexpectedByte });
    }
    if s[i + 7] != 120 {
        proof {
            if i as int + 10 <= s@.len() && s@.subrange(i as int, i as int + 10) == k_comma_shiftx() {
                assert(s@.subrange(i as int, i as int + 10)[7] == s@[i as int + 7]);
                assert(false);
            }
        }
        return Err(ParseError { at: i + 7, kind: ParseIssue::UnexpectedByte });
    }
    if s[i + 8] != 34 {
        proof {
            if i as int + 10 <= s@.len() && s@.subrange(i as int, i as int + 10) == k_comma_shiftx() {
                assert(s@.subrange(i as int, i as int + 10)[8] == s@[i as int + 8]);
                assert(false);
            }
        }
        return Err(ParseError { at: i + 8, kind: ParseIssue::UnexpectedByte });
    }
    if s[i + 9] != 58 {
        proof {
            if i as int + 10 <= s@.len() && s@.subrange(i as int, i as int + 10) == k_comma_shiftx() {
                assert(s@.subrange(i as int, i as int + 10)[9] == s@[i as int + 9]);
                assert(false);
            }
        }
        return Err(ParseError { at: i + 9, kind: ParseIssue::UnexpectedByte });
    }
    proof {
        assert(s@.subrange(i as int, i as int + 10) =~= k_comma_shiftx());
    }
    Ok(i + 10)
}

/// Expect the literal bytes of `,\"shifty\":` at `i`.
fn eat_comma_shifty(s: &[u8], i: usize) -> (r: Result<usize, ParseError>)
    requires
        i <= s@.len(),
    ensures
        r matches Ok(j) ==> j == i + 10 && i as int + 10 <= s@.len() && s@.subrange(
            i as int,
            j as int,
        ) == k_comma_shifty(),
        i as int + 10 <= s@.len() && s@.subrange(i as int, i as int + 10) == k_comma_shifty()
            ==> r == Ok::<usize, ParseError>((i + 10) as usize),
{
    let n: usize = s.len();
    if n - i < 10 {
        return Err(ParseError { at: n, kind: ParseIssue::EndOfInput });
    }
    if s[i + 0] != 44 {
        proof {
            if i as int + 10 <= s@.len() && s@.subrange(i as int, i as int + 10) == k_comma_shifty() {
                assert(s@.subrange(i as int, i as int + 10)[0] == s@[i as int + 0]);
                assert(false);
            }
        }
        return Err(ParseError { at: i + 0, kind: ParseIssue::UnexpectedByte });
    }
    if s[i + 1] != 34 {
        proof {
            if i as int + 10 <= s@.len() && s@.subrange(i as int, i as int + 10) == k_comma_shifty() {
                assert(s@.subrange(i as int, i as int + 10)[1] == s@[i as int + 1]);
                assert(false);
            }
        }
        return Err(ParseError { at: i + 1, kind: ParseIssue::UnexpectedByte });
    }
    if s[i + 2] != 115 {
        proof {
            if i as int + 10 <= s@.len() && s@.subrange(i as int, i as int + 10) == k_comma_shifty() {
                assert(s@.subrange(i as int, i as int + 10)[2] == s@[i as int + 2]);
                assert(false);
            }
        }
        return Err(ParseError { at: i + 2, kind: ParseIssue::UnexpectedByte });
    }
    if s[i + 3] != 104 {
        proof {
            if i as int + 10 <= s@.len() && s@.subrange(i as int, i as int + 10) == k_comma_shifty() {
                assert(s@.subrange(i as int, i as int + 10)[3] == s@[i as int + 3]);
                assert(false);
            }
        }
        return Err(ParseError { at: i + 3, kind: ParseIssue::UnexpectedByte });
    }
    if s[i + 4] != 105 {
        proof {
            if i as int + 10 <= s@.len() && s@.subrange(i as int, i as int + 10) == k_comma_shifty() {
                assert(s@.subrange(i as int, i as int + 10)[4] == s@[i as int + 4]);
                assert(false);
            }
        }
        return Err(ParseError { at: i + 4, kind: ParseIssue::UnexpectedByte });
    }
    if s[i + 5] != 102 {
        proof {
            if i as int + 10 <= s@.len() && s@.subrange(i as int, i as int + 10) == k_comma_shifty() {
                assert(s@.subrange(i as int, i as int + 10)[5] == s@[i as int + 5]);
                assert(false);
            }
        }
        return Err(ParseError { at: i + 5, kind: ParseIssue::UnexpectedByte });
    }
    if s[i + 6] != 116 {
        proof {
            if i as int + 10 <= s@.len() && s@.subrange(i as int, i as int + 10) == k_comma_shifty() {
                assert(s@.subrange(i as int, i as int + 10)[6] == s@[i as int + 6]);
                assert(false);
            }
        }
        return Err(ParseError { at: i + 6, kind: ParseIssue::UnexpectedByte });
    }
    if s[i + 7] != 121 {
        proof {
            if i as int + 10 <= s@.len() && s@.subrange(i as int, i as int + 10) == k_comma_shifty() {
                assert(s@.subrange(i as int, i as int + 10)[7] == s@[i as int + 7]);
                assert(false);
            }
        }
        return Err(ParseError { at: i + 7, kind: ParseIssue::UnexpectedByte });
    }
    if s[i + 8] != 34 {
        proof {
            if i as int + 10 <= s@.len() && s@.subrange(i as int, i as int + 10) == k_comma_shifty() {
                assert(s@.subrange(i as int, i as int + 10)[8] == s@[i as int + 8]);
                assert(false);
            }
        }
        return Err(ParseError { at: i + 8, kind: ParseIssue::UnexpectedByte });
    }
    if s[i + 9] != 58 {
        proof {
            if i as int + 10 <= s@.len() && s@.subrange(i as int, i as int + 10) == k_comma_shifty() {
                assert(s@.subrange(i as int, i as int + 10)[9] == s@[i as int + 9]);
                assert(false);
            }
        }
        return Err(ParseError { at: i + 9, kind: ParseIssue::UnexpectedByte });
    }
    proof {
        assert(s@.subrange(i as int, i as int + 10) =~= k_comma_shifty());
    }
    Ok(i + 10)
}

/// Expect the literal bytes of `,\"rotdiv\":` at `i`.
fn eat_comma_rotdiv(s: &[u8], i: usize) -> (r: Result<usize, ParseError>)
    requires
        i <= s@.len(),
    ensures
        r matches Ok(j) ==> j == i + 10 && i as int + 10 <= s@.len() && s@.subrange(
            i as int,
            j as int,
        ) == k_comma_rotdiv(),
        i as int + 10 <= s@.len() && s@.subrange(i as int, i as int + 10) == k_comma_rotdiv()
            ==> r == Ok::<usize, ParseError>((i + 10) as usize),
{
    let n: usize = s.len();
    if n - i < 10 {
        return Err(ParseError { at: n, kind: ParseIssue::EndOfInput });
    }
    if s[i + 0] != 44 {
        proof {
            if i as int + 10 <= s@.len() && s@.subrange(i as int, i as int + 10) == k_comma_rotdiv() {
                assert(s@.subrange(i as int, i as int + 10)[0] == s@[i as int + 0]);
                assert(false);
            }
        }
        return Err(ParseError { at: i + 0, kind: ParseIssue::UnexpectedByte });
    }
    if s[i + 1] != 34 {
        proof {
            if i as int + 10 <= s@.len() && s@.subrange(i as int, i as int + 10) == k_comma_rotdiv() {
                assert(s@.subrange(i as int, i as int + 10)[1] == s@[i as int + 1]);
                assert(false);
            }
        }
        return Err(ParseError { at: i + 1, kind: ParseIssue::UnexpectedByte });
    }
    if s[i + 2] != 114 {
        proof {
            if i as int + 10 <= s@.len() && s@.subrange(i as int, i as int + 10) == k_comma_rotdiv() {
                assert(s@.subrange(i as int, i as int + 10)[2] == s@[i as int + 2]);
                assert(false);
            }
        }
        return Err(ParseError { at: i + 2, kind: ParseIssue::UnexpectedByte });
    }
    if s[i + 3] != 111 {
        proof {
            if i as int + 10 <= s@.len() && s@.subrange(i as int, i as int + 10) == k_comma_rotdiv() {
                assert(s@.subrange(i as int, i as int + 10)[3] == s@[i as int + 3]);
                assert(false);
            }
        }
        return Err(ParseError { at: i + 3, kind: ParseIssue::UnexpectedByte });
    }
    if s[i + 4] != 116 {
        proof {
            if i as int + 10 <= s@.len() && s@.subrange(i as int, i as int + 10) == k_comma_rotdiv() {
                assert(s@.subrange(i as int, i as int + 10)[4] == s@[i as int + 4]);
                assert(false);
            }
        }
        return Err(ParseError { at: i + 4, kind: ParseIssue::UnexpectedByte });
    }
    if s[i + 5] != 100 {
        proof {
            if i as int + 10 <= s@.len() && s@.subrange(i as int, i as int + 10) == k_comma_rotdiv() {
                assert(s@.subrange(i as int, i as int + 10)[5] == s@[i as int + 5]);
                assert(false);
            }
        }
        return Err(ParseError { at: i + 5, kind: ParseIssue::UnexpectedByte });
    }
    if s[i + 6] != 105 {
        proof {
            if i as int + 10 <= s@.len() && s@.subrange(i as int, i as int + 10) == k_comma_rotdiv() {
                assert(s@.subrange(i as int, i as int + 10)[6] == s@[i as int + 6]);
                assert(false);
            }
        }
        return Err(ParseError { at: i + 6, kind: ParseIssue::UnexpectedByte });
    }
    if s[i + 7] != 118 {
        proof {
            if i as int + 10 <= s@.len() && s@.subrange(i as int, i as int + 10) == k_comma_rotdiv() {
                assert(s@.subrange(i as int, i as int + 10)[7] == s@[i as int + 7]);
                assert(false);
            }
        }
        return Err(ParseError { at: i + 7, kind: ParseIssue::UnexpectedByte });
    }
    if s[i + 8] != 34 {
        proof {
            if i as int + 10 <= s@.len() && s@.subrange(i as int, i as int + 10) == k_comma_rotdiv() {
                assert(s@.subrange(i as int, i as int + 10)[8] == s@[i as int + 8]);
                assert(false);
            }
        }
        return Err(ParseError { at: i + 8, kind: ParseIssue::UnexpectedByte });
    }
    if s[i + 9] != 58 {
        proof {
            if i as int + 10 <= s@.len() && s@.subrange(i as int, i as int + 10) == k_comma_rotdiv() {
                assert(s@.subrange(i as int, i as int + 10)[9] == s@[i as int + 9]);
                assert(false);
            }
        }
        return Err(ParseError { at: i + 9, kind: ParseIssue::UnexpectedByte });
    }
    proof {
        assert(s@.subrange(i as int, i as int + 10) =~= k_comma_rotdiv());
    }
    Ok(i + 10)
}

/// Expect the literal bytes of `,\"reversed\":` at `i`.
fn eat_comma_reversed(s: &[u8], i: usize) -> (r: Result<usize, ParseError>)
    requires
        i <= s@.len(),
    ensures
        r matches Ok(j) ==> j == i + 12 && i as int + 12 <= s@.len() && s@.subrange(
            i as int,
            j as int,
        ) == k_comma_reversed(),
        i as int + 12 <= s@.len() && s@.subrange(i as int, i as int + 12) == k_comma_reversed()
            ==> r == Ok::<usize, ParseError>((i + 12) as usize),
{
    let n: usize = s.len();
    if n - i < 12 {
        return Err(ParseError { at: n, kind: ParseIssue::EndOfInput });
    }
    if s[i + 0] != 44 {
        proof {
            if i as int + 12 <= s@.len() && s@.subrange(i as int, i as int + 12) == k_comma_reversed() {
                assert(s@.subrange(i as int, i as int + 12)[0] == s@[i as int + 0]);
                assert(false);
            }
        }
        return Err(ParseError { at: i + 0, kind: ParseIssue::UnexpectedByte });
    }
    if s[i + 1] != 34 {
        proof {
            if i as int + 12 <= s@.len() && s@.subrange(i as int, i as int + 12) == k_comma_reversed() {
                assert(s@.subrange(i as int, i as int + 12)[1] == s@[i as int + 1]);
                assert(false);
            }
        }
        return Err(ParseError { at: i + 1, kind: ParseIssue::UnexpectedByte });
    }
    if s[i + 2] != 114 {
        proof {
            if i as int + 12 <= s@.len() && s@.subrange(i as int, i as int + 12) == k_comma_reversed() {
                assert(s@.subrange(i as int, i as int + 12)[2] == s@[i as int + 2]);
                assert(false);
            }
        }
        return Err(ParseError { at: i + 2, kind: ParseIssue::UnexpectedByte });
    }
    if s[i + 3] != 101 {
        proof {
            if i as int + 12 <= s@.len() && s@.subrange(i as int, i as int + 12) == k_comma_reversed() {
                assert(s@.subrange(i as int, i as int + 12)[3] == s@[i as int + 3]);
                assert(false);
            }
        }
        return Err(ParseError { at: i + 3, kind: ParseIssue::UnexpectedByte });
    }
    if s[i + 4] != 118 {
        proof {
            if i as int + 12 <= s@.len() && s@.subrange(i as int, i as int + 12) == k_comma_reversed() {
                assert(s@.subrange(i as int, i as int + 12)[4] == s@[i as int + 4]);
                assert(false);
            }
        }
        return Err(ParseError { at: i + 4, kind: ParseIssue::UnexpectedByte });
    }
    if s[i + 5] != 101 {
        proof {
            if i as int + 12 <= s@.len() && s@.subrange(i as int, i as int + 12) == k_comma_reversed() {
                assert(s@.subrange(i as int, i as int + 12)[5] == s@[i as int + 5]);
                assert(false);
            }
        }
        return Err(ParseError { at: i + 5, kind: ParseIssue::UnexpectedByte });
    }
    if s[i + 6] != 114 {
        proof {
            if i as int + 12 <= s@.len() && s@.subrange(i as int, i as int + 12) == k_comma_reversed() {
                assert(s@.subrange(i as int, i as int + 12)[6] == s@[i as int + 6]);
                assert(false);
            }
        }
        return Err(ParseError { at: i + 6, kind: ParseIssue::UnexpectedByte });
    }
    if s[i + 7] != 115 {
        proof {
            if i as int + 12 <= s@.len() && s@.subrange(i as int, i as int + 12) == k_comma_reversed() {
                assert(s@.subrange(i as int, i as int + 12)[7] == s@[i as int + 7]);
                assert(false);
            }
        }
        return Err(ParseError { at: i + 7, kind: ParseIssue::UnexpectedByte });
    }
    if s[i + 8] != 101 {
        proof {
            if i as int + 12 <= s@.len() && s@.subrange(i as int, i as int + 12) == k_comma_reversed() {
                assert(s@.subrange(i as int, i as int + 12)[8] == s@[i as int + 8]);
                assert(false);
            }
        }
        return Err(ParseError { at: i + 8, kind: ParseIssue::UnexpectedByte });
    }
    if s[i + 9] != 100 {
        proof {
            if i as int + 12 <= s@.len() && s@.subrange(i as int, i as int + 12) == k_comma_reversed() {
                assert(s@.subrange(i as int, i as int + 12)[9] == s@[i as int + 9]);
                assert(false);
            }
        }
        return Err(ParseError { at: i + 9, kind: ParseIssue::UnexpectedByte });
    }
    if s[i + 10] != 34 {
        proof {
            if i as int + 12 <= s@.len() && s@.subrange(i as int, i as int + 12) == k_comma_reversed() {
                assert(s@.subrange(i as int, i as int + 12)[10] == s@[i as int + 10]);
                assert(false);
            }
        }
        return Err(ParseError { at: i + 10, kind: ParseIssue::UnexpectedByte });
    }
    if s[i + 11] != 58 {
        proof {
            if i as int + 12 <= s@.len() && s@.subrange(i as int, i as int + 12) == k_comma_reversed() {
                assert(s@.subrange(i as int, i as int + 12)[11] == s@[i as int + 11]);
                assert(false);
            }
        }
        return Err(ParseError { at: i + 11, kind: ParseIssue::UnexpectedByte });
    }
    proof {
        assert(s@.subrange(i as int, i as int + 12) =~= k_comma_reversed());
    }
    Ok(i + 12)
}

/// Expect the literal bytes of `true` at `i`.
fn eat_word_true(s: &[u8], i: usize) -> (r: Result<usize, ParseError>)
    requires
        i <= s@.len(),
    ensures
        r matches Ok(j) ==> j == i + 4 && i as int + 4 <= s@.len() && s@.subrange(
            i as int,
            j as int,
        ) == k_word_true(),
        i as int + 4 <= s@.len() && s@.subrange(i as int, i as int + 4) == k_word_true()
            ==> r == Ok::<usize, ParseError>((i + 4) as usize),
{
    let n: usize = s.len();
    if n - i < 4 {
        return Err(ParseError { at: n, kind: ParseIssue::EndOfInput });
    }
    if s[i + 0] != 116 {
        proof {
            if i as int + 4 <= s@.len() && s@.subrange(i as int, i as int + 4) == k_word_true() {
                assert(s@.subrange(i as int, i as int + 4)[0] == s@[i as int + 0]);
                assert(false);
            }
        }
        return Err(ParseError { at: i + 0, kind: ParseIssue::UnexpectedByte });
    }
    if s[i + 1] != 114 {
        proof {
            if i as int + 4 <= s@.len() && s@.subrange(i as int, i as int + 4) == k_word_true() {
                assert(s@.subrange(i as int, i as int + 4)[1] == s@[i as int + 1]);
                assert(false);
            }
        }
        return Err(ParseError { at: i + 1, kind: ParseIssue::UnexpectedByte });
    }
    if s[i + 2] != 117 {
        proof {
            if i as int + 4 <= s@.len() && s@.subrange(i as int, i as int + 4) == k_word_true() {
                assert(s@.subrange(i as int, i as int + 4)[2] == s@[i as int + 2]);
                assert(false);
            }
        }
        return Err(ParseError { at: i + 2, kind: ParseIssue::UnexpectedByte });
    }
    if s[i + 3] != 101 {
        proof {
            if i as int + 4 <= s@.len() && s@.subrange(i as int, i as int + 4) == k_word_true() {
                assert(s@.subrange(i as int, i as int + 4)[3] == s@[i as int + 3]);
                assert(false);
            }
        }
        return Err(ParseError { at: i + 3, kind: ParseIssue::UnexpectedByte });
    }
    proof {
        assert(s@.subrange(i as int, i as int + 4) =~= k_word_true());
    }
    Ok(i + 4)
}

/// Expect the literal bytes of `false` at `i`.
fn eat_word_false(s: &[u8], i: usize) -> (r: Result<usize, ParseError>)
    requires
        i <= s@.len(),
    ensures
        r matches Ok(j) ==> j == i + 5 && i as int + 5 <= s@.len() && s@.subrange(
            i as int,
            j as int,
        ) == k_word_false(),
        i as int + 5 <= s@.len() && s@.subrange(i as int, i as int + 5) == k_word_false()
            ==> r == Ok::<usize, ParseError>((i + 5) as usize),
{
    let n: usize = s.len();
    if n - i < 5 {
        return Err(ParseError { at: n, kind: ParseIssue::EndOfInput });
    }
    if s[i + 0] != 102 {
        proof {
            if i as int + 5 <= s@.len() && s@.subrange(i as int, i as int + 5) == k_word_false() {
                assert(s@.subrange(i as int, i as int + 5)[0] == s@[i as int + 0]);
                assert(false);
            }
        }
        return Err(ParseError { at: i + 0, kind: ParseIssue::UnexpectedByte });
    }
    if s[i + 1] != 97 {
        proof {
            if i as int + 5 <= s@.len() && s@.subrange(i as int, i as int + 5) == k_word_false() {
                assert(s@.subrange(i as int, i as int + 5)[1] == s@[i as int + 1]);
                assert(false);
            }
        }
        return Err(ParseError { at: i + 1, kind: ParseIssue::UnexpectedByte });
    }
    if s[i + 2] != 108 {
        proof {
            if i as int + 5 <= s@.len() && s@.subrange(i as int, i as int + 5) == k_word_false() {
                assert(s@.subrange(i as int, i as int + 5)[2] == s@[i as int + 2]);
                assert(false);
            }
        }
        return Err(ParseError { at: i + 2, kind: ParseIssue::UnexpectedByte });
    }
    if s[i + 3] != 115 {
        proof {
            if i as int + 5 <= s@.len() && s@.subrange(i as int, i as int + 5) == k_word_false() {
                assert(s@.subrange(i as int, i as int + 5)[3] == s@[i as int + 3]);
                assert(false);
            }
        }
        return Err(ParseError { at: i + 3, kind: ParseIssue::UnexpectedByte });
    }
    if s[i + 4] != 101 {
        proof {
            if i as int + 5 <= s@.len() && s@.subrange(i as int, i as int + 5) == k_word_false() {
                assert(s@.subrange(i as int, i as int + 5)[4] == s@[i as int + 4]);
                assert(false);
            }
        }
        return Err(ParseError { at: i + 4, kind: ParseIssue::UnexpectedByte });
    }
    proof {
        assert(s@.subrange(i as int, i as int + 5) =~= k_word_false());
    }
    Ok(i + 5)
}

/// Expect the literal bytes of `,\"shape\":\"` at `i`.
fn eat_comma_shape(s: &[u8], i: usize) -> (r: Result<usize, ParseError>)
    requires
        i <= s@.len(),
    ensures
        r matches Ok(j) ==> j == i + 10 && i as int + 10 <= s@.len() && s@.subrange(
            i as int,
            j as int,
        ) == k_comma_shape(),
        i as int + 10 <= s@.len() && s@.subrange(i as int, i as int + 10) == k_comma_shape()
            ==> r == Ok::<usize, ParseError>((i + 10) as usize),
{
    let n: usize = s.len();
    if n - i < 10 {
        return Err(ParseError { at: n, kind: ParseIssue::EndOfInput });
    }
    if s[i + 0] != 44 {
        proof {
            if i as int + 10 <= s@.len() && s@.subrange(i as int, i as int + 10) == k_comma_shape() {
                assert(s@.subrange(i as int, i as int + 10)[0] == s@[i as int + 0]);
                assert(false);
            }
        }
        return Err(ParseError { at: i + 0, kind: ParseIssue::UnexpectedByte });
    }
    if s[i + 1] != 34 {
        proof {
            if i as int + 10 <= s@.len() && s@.subrange(i as int, i as int + 10) == k_comma_shape() {
                assert(s@.subrange(i as int, i as int + 10)[1] == s@[i as int + 1]);
                assert(false);
            }
        }
        return Err(ParseError { at: i + 1, kind: ParseIssue::UnexpectedByte });
    }
    if s[i + 2] != 115 {
        proof {
            if i as int + 10 <= s@.len() && s@.subrange(i as int, i as int + 10) == k_comma_shape() {
                assert(s@.subrange(i as int, i as int + 10)[2] == s@[i as int + 2]);
                assert(false);
            }
        }
        return Err(ParseError { at: i + 2, kind: ParseIssue::UnexpectedByte });
    }
    if s[i + 3] != 104 {
        proof {
            if i as int + 10 <= s@.len() && s@.subrange(i as int, i as int + 10) == k_comma_shape() {
                assert(s@.subrange(i as int, i as int + 10)[3] == s@[i as int + 3]);
                assert(false);
            }
        }
        return Err(ParseError { at: i + 3, kind: ParseIssue::UnexpectedByte });
    }
    if s[i + 4] != 97 {
        proof {
            if i as int + 10 <= s@.len() && s@.subrange(i as int, i as int + 10) == k_comma_shape() {
                assert(s@.subrange(i as int, i as int + 10)[4] == s@[i as int + 4]);
                assert(false);
            }
        }
        return Err(ParseError { at: i + 4, kind: ParseIssue::UnexpectedByte });
    }
    if s[i + 5] != 112 {
        proof {
            if i as int + 10 <= s@.len() && s@.subrange(i as int, i as int + 10) == k_comma_shape() {
                assert(s@.subrange(i as int, i as int + 10)[5] == s@[i as int + 5]);
                assert(false);
            }
        }
        return Err(ParseError { at: i + 5, kind: ParseIssue::UnexpectedByte });
    }
    if s[i + 6] != 101 {
        proof {
            if i as int + 10 <= s@.len() && s@.subrange(i as int, i as int + 10) == k_comma_shape() {
                assert(s@.subrange(i as int, i as int + 10)[6] == s@[i as int + 6]);
                assert(false);
            }
        }
        return Err(ParseError { at: i + 6, kind: ParseIssue::UnexpectedByte });
    }
    if s[i + 7] != 34 {
        proof {
            if i as int + 10 <= s@.len() && s@.subrange(i as int, i as int + 10) == k_comma_shape() {
                assert(s@.subrange(i as int, i as int + 10)[7] == s@[i as int + 7]);
                assert(false);
            }
        }
        return Err(ParseError { at: i + 7, kind: ParseIssue::UnexpectedByte });
    }
    if s[i + 8] != 58 {
        proof {
            if i as int + 10 <= s@.len() && s@.subrange(i as int, i as int + 10) == k_comma_shape() {
                assert(s@.subrange(i as int, i as int + 10)[8] == s@[i as int + 8]);
                assert(false);
            }
        }
        return Err(ParseError { at: i + 8, kind: ParseIssue::UnexpectedByte });
    }
    if s[i + 9] != 34 {
        proof {
            if i as int + 10 <= s@.len() && s@.subrange(i as int, i as int + 10) == k_comma_shape() {
                assert(s@.subrange(i as int, i as int + 10)[9] == s@[i as int + 9]);
                assert(false);
            }
        }
        return Err(ParseError { at: i + 9, kind: ParseIssue::UnexpectedByte });
    }
    proof {
        assert(s@.subrange(i as int, i as int + 10) =~= k_comma_shape());
    }
    Ok(i + 10)
}

/// Expect the literal bytes of `\",\"lines\":[` at `i`.
fn eat_quote_lines(s: &[u8], i: usize) -> (r: Result<usize, ParseError>)
    requires
        i <= s@.len(),
    ensures
        r matches Ok(j) ==> j == i + 11 && i as int + 11 <= s@.len() && s@.subrange(
            i as int,
            j as int,
        ) == k_quote_lines(),
        i as int + 11 <= s@.len() && s@.subrange(i as int, i as int + 11) == k_quote_lines()
            ==> r == Ok::<usize, ParseError>((i + 11) as usize),
{
    let n: usize = s.len();
    if n - i < 11 {
        return Err(ParseError { at: n, kind: ParseIssue::EndOfInput });
    }
    if s[i + 0] != 34 {
        proof {
            if i as int + 11 <= s@.len() && s@.subrange(i as int, i as int + 11) == k_quote_lines() {
                assert(s@.subrange(i as int, i as int + 11)[0] == s@[i as int + 0]);
                assert(false);
            }
        }
        return Err(ParseError { at: i + 0, kind: ParseIssue::UnexpectedByte });
    }
    if s[i + 1] != 44 {
        proof {
            if i as int + 11 <= s@.len() && s@.subrange(i as int, i as int + 11) == k_quote_lines() {
                assert(s@.subrange(i as int, i as int + 11)[1] == s@[i as int + 1]);
                assert(false);
            }
        }
        return Err(ParseError { at: i + 1, kind: ParseIssue::UnexpectedByte });
    }
    if s[i + 2] != 34 {
        proof {
            if i as int + 11 <= s@.len() && s@.subrange(i as int, i as int + 11) == k_quote_lines() {
                assert(s@.subrange(i as int, i as int + 11)[2] == s@[i as int + 2]);
                assert(false);
            }
        }
        return Err(ParseError { at: i + 2, kind: ParseIssue::UnexpectedByte });
    }
    if s[i + 3] != 108 {
        proof {
            if i as int + 11 <= s@.len() && s@.subrange(i as int, i as int + 11) == k_quote_lines() {
                assert(s@.subrange(i as int, i as int + 11)[3] == s@[i as int + 3]);
                assert(false);
            }
        }
        return Err(ParseError { at: i + 3, kind: ParseIssue::UnexpectedByte });
    }
    if s[i + 4] != 105 {
        proof {
            if i as int + 11 <= s@.len() && s@.subrange(i as int, i as int + 11) == k_quote_lines() {
                assert(s@.subrange(i as int, i as int + 11)[4] == s@[i as int + 4]);
                assert(false);
            }
        }
        return Err(ParseError { at: i + 4, kind: ParseIssue::UnexpectedByte });
    }
    if s[i + 5] != 110 {
        proof {
            if i as int + 11 <= s@.len() && s@.subrange(i as int, i as int + 11) == k_quote_lines() {
                assert(s@.subrange(i as int, i as int + 11)[5] == s@[i as int + 5]);
                assert(false);
            }
        }
        return Err(ParseError { at: i + 5, kind: ParseIssue::UnexpectedByte });
    }
    if s[i + 6] != 101 {
        proof {
            if i as int + 11 <= s@.len() && s@.subrange(i as int, i as int + 11) == k_quote_lines() {
                assert(s@.subrange(i as int, i as int + 11)[6] == s@[i as int + 6]);
                assert(false);
            }
        }
        return Err(ParseError { at: i + 6, kind: ParseIssue::UnexpectedByte });
    }
    if s[i + 7] != 115 {
        proof {
            if i as int + 11 <= s@.len() && s@.subrange(i as int, i as int + 11) == k_quote_lines() {
                assert(s@.subrange(i as int, i as int + 11)[7] == s@[i as int + 7]);
                assert(false);
            }
        }
        return Err(ParseError { at: i + 7, kind: ParseIssue::UnexpectedByte });
    }
    if s[i + 8] != 34 {
        proof {
            if i as int + 11 <= s@.len() && s@.subrange(i as int, i as int + 11) == k_quote_lines() {
                assert(s@.subrange(i as int, i as int + 11)[8] == s@[i as int + 8]);
                assert(false);
            }
        }
        return Err(ParseError { at: i + 8, kind: ParseIssue::UnexpectedByte });
    }
    if s[i + 9] != 58 {
        proof {
            if i as int + 11 <= s@.len() && s@.subrange(i as int, i as int + 11) == k_quote_lines() {
                assert(s@.subrange(i as int, i as int + 11)[9] == s@[i as int + 9]);
                assert(false);
            }
        }
        return Err(ParseError { at: i + 9, kind: ParseIssue::UnexpectedByte });
    }
    if s[i + 10] != 91 {
        proof {
            if i as int + 11 <= s@.len() && s@.subrange(i as int, i as int + 11) == k_quote_lines() {
                assert(s@.subrange(i as int, i as int + 11)[10] == s@[i as int + 10]);
                assert(false);
            }
        }
        return Err(ParseError { at: i + 10, kind: ParseIssue::UnexpectedByte });
    }
    proof {
        assert(s@.subrange(i as int, i as int + 11) =~= k_quote_lines());
    }
    Ok(i + 11)
}

/// Expect the literal bytes of `]}` at `i`.
fn eat_close_figure(s: &[u8], i: usize) -> (r: Result<usize, ParseError>)
    requires
        i <= s@.len(),
    ensures
        r matches Ok(j) ==> j == i + 2 && i as int + 2 <= s@.len() && s@.subrange(
            i as int,
            j as int,
        ) == k_close_figure(),
        i as int + 2 <= s@.len() && s@.subrange(i as int, i as int + 2) == k_close_figure()
            ==> r == Ok::<usize, ParseError>((i + 2) as usize),
{
    let n: usize = s.len();
    if n - i < 2 {
        return Err(ParseError { at: n, kind: ParseIssue::EndOfInput });
    }
    if s[i + 0] != 93 {
        proof {
            if i as int + 2 <= s@.len() && s@.subrange(i as int, i as int + 2) == k_close_figure() {
                assert(s@.subrange(i as int, i as int + 2)[0] == s@[i as int + 0]);
                assert(false);
            }
        }
        return Err(ParseError { at: i + 0, kind: ParseIssue::UnexpectedByte });
    }
    if s[i + 1] != 125 {
        proof {
            if i as int + 2 <= s@.len() && s@.subrange(i as int, i as int + 2) == k_close_figure() {
                assert(s@.subrange(i as int, i as int + 2)[1] == s@[i as int + 1]);
                assert(false);
            }
        }
        return Err(ParseError { at: i + 1, kind: ParseIssue::UnexpectedByte });
    }
    proof {
        assert(s@.subrange(i as int, i as int + 2) =~= k_close_figure());
    }
    Ok(i + 2)
}


/// The canonical emission of point `p` sits at `i` in `s`.
pub open spec fn point_at(s: Seq<u8>, i: int, p: Point) -> bool {
    &&& i + json_point(p).len() <= s.len()
    &&& s.subrange(i, i + json_point(p).len()) == json_point(p)
}

/// Split the emission of a point into its parts.
proof fn lemma_point_at_parts(s: Seq<u8>, i: int, p: Point)
    requires
        0 <= i,
        point_at(s, i, p),
    ensures
        i + 5 <= s.len(),
        s.subrange(i, i + 5) == k_obj_x(),
        num_i_at(s, i + 5, p.x as int),
        s.subrange(
            i + 5 + dec_i(p.x as int).len(),
            i + 10 + dec_i(p.x as int).len(),
        ) == k_comma_y(),
        num_i_at(s, i + 10 + dec_i(p.x as int).len(), p.y as int),
        s[i + 10 + dec_i(p.x as int).len() + dec_i(p.y as int).len()] == 125,
        json_point(p).len() == 11 + dec_i(p.x as int).len() + dec_i(p.y as int).len(),
{
    let lx = dec_i(p.x as int).len() as int;
    let ly = dec_i(p.y as int).len() as int;
    let total = i + json_point(p).len() as int;
    assert(json_point(p).len() == 11 + lx + ly);
    assert(s.subrange(i, total) == k_obj_x() + (dec_i(p.x as int) + k_comma_y() + dec_i(
        p.y as int,
    ) + seq![125u8])) by {
        assert(json_point(p) =~= k_obj_x() + (dec_i(p.x as int) + k_comma_y() + dec_i(p.y as int)
            + seq![125u8]));
    }
    lemma_subrange_unconcat(
        s,
        i,
        total,
        k_obj_x(),
        dec_i(p.x as int) + k_comma_y() + dec_i(p.y as int) + seq![125u8],
    );
    assert(s.subrange(i + 5, total) =~= dec_i(p.x as int) + (k_comma_y() + dec_i(p.y as int)
        + seq![125u8]));
    lemma_subrange_unconcat(
        s,
        i + 5,
        total,
        dec_i(p.x as int),
        k_comma_y() + dec_i(p.y as int) + seq![125u8],
    );
    assert(s.subrange(i + 5 + lx, total) =~= k_comma_y() + (dec_i(p.y as int) + seq![125u8]));
    lemma_subrange_unconcat(s, i + 5 + lx, total, k_comma_y(), dec_i(p.y as int) + seq![125u8]);
    assert(s.subrange(i + 10 + lx, total) =~= dec_i(p.y as int) + seq![125u8]);
    lemma_subrange_unconcat(s, i + 10 + lx, total, dec_i(p.y as int), seq![125u8]);
    assert(s[i + 10 + lx + ly] == s.subrange(i + 10 + lx + ly, total)[0]);
    // the byte after each number is a comma or closing brace, not a digit
    assert(s[i + 5 + lx] == k_comma_y()[0]) by {
        assert(s.subrange(i + 5 + lx, i + 10 + lx)[0] == s[i + 5 + lx]);
    }
    assert(num_i_at(s, i + 5, p.x as int));
    assert(num_i_at(s, i + 10 + lx, p.y as int));
}

/// Read one point record at `i`.
fn parse_point(s: &[u8], i: usize) -> (r: Result<(Point, usize), ParseError>)
    requires
        i <= s@.len(),
    ensures
        r matches Ok(ok) ==> {
            &&& i < ok.1 <= s@.len()
            &&& s@.subrange(i as int, ok.1 as int) == json_point(ok.0)
            &&& ok.0.within(STORE_LIMIT as int)
        },
        forall|p: Point|
            p.within(STORE_LIMIT as int) && #[trigger] point_at(s@, i as int, p) ==> r == Ok::<
                (Point, usize),
                ParseError,
            >((p, (i + json_point(p).len()) as usize)),
{
    let n: usize = s.len();
    let i1 = match eat_obj_x(s, i) {
        Ok(j) => j,
        Err(e) => {
            proof {
                assert forall|p: Point| p.within(STORE_LIMIT as int) && #[trigger] point_at(
                    s@,
                    i as int,
                    p,
                ) implies false by {
                    lemma_point_at_parts(s@, i as int, p);
                }
            }
            return Err(e);
        },
    };
    let (x, i2) = match parse_i64(s, i1) {
        Ok(ok) => ok,
        Err(e) => {
            proof {
                assert forall|p: Point| p.within(STORE_LIMIT as int) && #[trigger] point_at(
                    s@,
                    i as int,
                    p,
                ) implies false by {
                    lemma_point_at_parts(s@, i as int, p);
                }
            }
            return Err(e);
        },
    };
    if x > STORE_LIMIT || x < -STORE_LIMIT {
        proof {
            assert forall|p: Point| p.within(STORE_LIMIT as int) && #[trigger] point_at(
                s@,
                i as int,
                p,
            ) implies false by {
                lemma_point_at_parts(s@, i as int, p);
            }
        }
        return Err(ParseError { at: i1, kind: ParseIssue::InvalidFigure });
    }
    let i3 = match eat_comma_y(s, i2) {
        Ok(j) => j,
        Err(e) => {
            proof {
                assert forall|p: Point| p.within(STORE_LIMIT as int) && #[trigger] point_at(
                    s@,
                    i as int,
                    p,
                ) implies false by {
                    lemma_point_at_parts(s@, i as int, p);
                }
            }
            return Err(e);
        },
    };
    let (y, i4) = match parse_i64(s, i3) {
        Ok(ok) => ok,
        Err(e) => {
            proof {
                assert forall|p: Point| p.within(STORE_LIMIT as int) && #[trigger] point_at(
                    s@,
                    i as int,
                    p,
                ) implies false by {
                    lemma_point_at_parts(s@, i as int, p);
                }
            }
            return Err(e);
        },
    };
    if y > STORE_LIMIT || y < -STORE_LIMIT {
        proof {
            assert forall|p: Point| p.within(STORE_LIMIT as int) && #[trigger] point_at(
                s@,
                i as int,
                p,
            ) implies false by {
                lemma_point_at_parts(s@, i as int, p);
            }
        }
        return Err(ParseError { at: i3, kind: ParseIssue::InvalidFigure });
    }
    if i4 >= n || s[i4] != 125 {
        proof {
            assert forall|p: Point| p.within(STORE_LIMIT as int) && #[trigger] point_at(
                s@,
                i as int,
                p,
            ) implies false by {
                lemma_point_at_parts(s@, i as int, p);
            }
        }
        return Err(ParseError { at: i4, kind: ParseIssue::UnexpectedByte });
    }
    let res = Point { x, y };
    proof {
        lemma_subrange_concat(s@, i as int, i1 as int, i2 as int);
        lemma_subrange_concat(s@, i as int, i2 as int, i3 as int);
        lemma_subrange_concat(s@, i as int, i3 as int, i4 as int);
        assert(s@.subrange(i4 as int, i4 + 1int) =~= seq![125u8]);
        lemma_subrange_concat(s@, i as int, i4 as int, i4 + 1int);
        assert(s@.subrange(i as int, i4 + 1int) == json_point(res)) by {
            assert(json_point(res) =~= ((((k_obj_x() + dec_i(res.x as int)) + k_comma_y())
                + dec_i(res.y as int)) + seq![125u8]));
        }
        assert forall|p: Point| p.within(STORE_LIMIT as int) && #[trigger] point_at(
            s@,
            i as int,
            p,
        ) implies Ok::<(Point, usize), ParseError>((res, (i4 + 1) as usize)) == Ok::<
            (Point, usize),
            ParseError,
        >((p, (i + json_point(p).len()) as usize)) by {
            lemma_point_at_parts(s@, i as int, p);
        }
    }
    Ok((res, i4 + 1))
}


/// The emission of a point-array body plus its closing bracket sits at
/// `i` in `s`.
pub open spec fn points_items_at(s: Seq<u8>, i: int, ps: Seq<Point>) -> bool {
    &&& i + json_points_body(ps).len() + 1 <= s.len()
    &&& s.subrange(i, i + json_points_body(ps).len() + 1) == json_points_body(ps) + seq![93u8]
}

/// Split a nonempty point-array body emission into its head point and the
/// rest.
proof fn lemma_points_items_parts(s: Seq<u8>, i: int, ps: Seq<Point>)
    requires
        0 <= i,
        ps.len() >= 1,
        points_items_at(s, i, ps),
    ensures
        point_at(s, i, ps.first()),
        ps.len() == 1 ==> s[i + json_point(ps.first()).len()] == 93,
        ps.len() > 1 ==> s[i + json_point(ps.first()).len()] == 44,
        ps.len() > 1 ==> points_items_at(
            s,
            i + json_point(ps.first()).len() + 1,
            ps.drop_first(),
        ),
{
    let lp = json_point(ps.first()).len() as int;
    let lb = json_points_body(ps).len() as int;
    let total = i + lb + 1;
    if ps.len() == 1 {
        assert(json_points_body(ps) == json_point(ps[0]));
        lemma_subrange_unconcat(s, i, total, json_point(ps.first()), seq![93u8]);
        assert(s[i + lp] == s.subrange(i + lp, total)[0]);
    } else {
        assert(json_points_body(ps) == json_point(ps.first()) + seq![44u8] + json_points_body(
            ps.drop_first(),
        ));
        assert(s.subrange(i, total) =~= json_point(ps.first()) + (seq![44u8] + (json_points_body(
            ps.drop_first(),
        ) + seq![93u8])));
        lemma_subrange_unconcat(
            s,
            i,
            total,
            json_point(ps.first()),
            seq![44u8] + (json_points_body(ps.drop_first()) + seq![93u8]),
        );
        assert(s[i + lp] == s.subrange(i + lp, total)[0]);
        lemma_subrange_unconcat(
            s,
            i + lp,
            total,
            seq![44u8],
            json_points_body(ps.drop_first()) + seq![93u8],
        );
    }
}

/// What one successful head-point parse pins down about a hypothetical
/// emitted point list starting at the same position.
proof fn lemma_points_head_pins(
    s: Seq<u8>,
    i: int,
    p: Point,
    i1: int,
    ps: Seq<Point>,
)
    requires
        0 <= i <= i1 <= s.len(),
        s.subrange(i, i1) == json_point(p),
        points_items_at(s, i, ps),
        ps.len() >= 1 ==> point_at(s, i, ps.first()) ==> ps.first() == p && i1 == i
            + json_point(ps.first()).len(),
    ensures
        ps.len() >= 1,
        ps.first() == p,
        i1 == i + json_point(p).len(),
        ps.len() == 1 ==> s[i1] == 93,
        ps.len() > 1 ==> s[i1] == 44 && points_items_at(s, i1 + 1, ps.drop_first()),
{
    assert(json_point(p).len() >= 5) by {
        assert(json_point(p) == k_obj_x() + dec_i(p.x as int) + k_comma_y() + dec_i(p.y as int)
            + seq![125u8]);
    }
    if ps.len() == 0 {
        assert(s[i] == 93) by {
            assert(s.subrange(i, i + 1)[0] == s[i]);
            assert((json_points_body(ps) + seq![93u8])[0] == 93);
        }
        assert(s[i] == json_point(p)[0]) by {
            assert(i1 - i >= 5);
            assert(s.subrange(i, i1)[0] == s[i]);
        }
        assert(json_point(p)[0] == 123) by {
            assert(json_point(p)[0] == k_obj_x()[0]);
        }
        assert(false);
    }
    lemma_points_items_parts(s, i, ps);
}

/// Read the body of a point array and its closing bracket at `i`.
#[verifier::rlimit(100)]
#[verifier::spinoff_prover]
fn parse_points_items(s: &[u8], i: usize) -> (r: Result<(Vec<Point>, usize), ParseError>)
    requires
        i <= s@.len(),
    ensures
        r matches Ok(ok) ==> {
            &&& i < ok.1 <= s@.len()
            &&& s@.subrange(i as int, ok.1 as int) == json_points_body(ok.0@) + seq![93u8]
            &&& forall|k: int|
                0 <= k < ok.0@.len() ==> (#[trigger] ok.0@[k]).within(STORE_LIMIT as int)
        },
        forall|ps: Seq<Point>|
            (forall|k: int| 0 <= k < ps.len() ==> (#[trigger] ps[k]).within(STORE_LIMIT as int))
                && #[trigger] points_items_at(s@, i as int, ps) ==> (r matches Ok(ok) && ok.0@
                == ps && ok.1 as int == i + json_points_body(ps).len() + 1),
    decreases s@.len() - i,
{
    let n: usize = s.len();
    if i < n && s[i] == 93 {
        let empty: Vec<Point> = Vec::new();
        proof {
            assert(s@.subrange(i as int, i + 1int) =~= seq![93u8]);
            assert(json_points_body(empty@) + seq![93u8] =~= seq![93u8]);
            assert forall|ps: Seq<Point>| (forall|k: int|
                0 <= k < ps.len() ==> (#[trigger] ps[k]).within(STORE_LIMIT as int))
                && #[trigger] points_items_at(s@, i as int, ps) implies empty@ == ps by {
                if ps.len() >= 1 {
                    lemma_points_items_parts(s@, i as int, ps);
                    assert(s@[i as int] == json_point(ps.first())[0]) by {
                        assert(s@.subrange(
                            i as int,
                            i as int + json_point(ps.first()).len(),
                        )[0] == s@[i as int]);
                    }
                    assert(json_point(ps.first())[0] == 123);
                    assert(false);
                }
                assert(ps =~= empty@);
            }
        }
        return Ok((empty, i + 1));
    }
    let parsed = parse_point(s, i);
    if let Err(e) = parsed {
        proof {
            assert forall|ps: Seq<Point>| (forall|k: int|
                0 <= k < ps.len() ==> (#[trigger] ps[k]).within(STORE_LIMIT as int))
                && #[trigger] points_items_at(s@, i as int, ps) implies false by {
                if ps.len() == 0 {
                    assert(s@[i as int] == 93) by {
                        assert(s@.subrange(i as int, i + 1int)[0] == s@[i as int]);
                        assert((json_points_body(ps) + seq![93u8])[0] == 93);
                    }
                    assert(false);
                } else {
                    lemma_points_items_parts(s@, i as int, ps);
                }
            }
        }
        return Err(e);
    }
    let (p, i1) = parsed.unwrap();
    proof {
        assert forall|ps: Seq<Point>| (forall|k: int|
            0 <= k < ps.len() ==> (#[trigger] ps[k]).within(STORE_LIMIT as int))
            && #[trigger] points_items_at(s@, i as int, ps) implies ps.len() >= 1 && ps.first()
            == p && i1 as int == i + json_point(p).len() && (ps.len() == 1 ==> s@[i1 as int]
            == 93) && (ps.len() > 1 ==> s@[i1 as int] == 44 && points_items_at(
            s@,
            i1 + 1int,
            ps.drop_first(),
        )) by {
            lemma_points_head_pins(s@, i as int, p, i1 as int, ps);
        }
    }
    if i1 < n && s[i1] == 44 {
        let tail = parse_points_items(s, i1 + 1);
        match tail {
            Ok((mut rest, j)) => {
                if rest.len() == 0 {
                    // a trailing comma: the canonical grammar never emits one
                    return Err(ParseError { at: i1, kind: ParseIssue::UnexpectedByte });
                }
                let ghost old_rest = rest@;
                rest.insert(0, p);
                proof {
                    assert(rest@ == old_rest.insert(0, p));
                    assert(rest@ =~= seq![p] + old_rest);
                    assert(rest@.drop_first() =~= old_rest);
                    assert(rest@.first() == p);
                    lemma_subrange_concat(s@, i as int, i1 as int, i1 + 1int);
                    lemma_subrange_concat(s@, i as int, i1 + 1int, j as int);
                    assert(s@.subrange(i1 as int, i1 + 1int) =~= seq![44u8]);
                    assert(s@.subrange(i1 + 1int, j as int) == json_points_body(old_rest) + seq![
                        93u8,
                    ]);
                    assert(rest@.len() >= 2);
                    assert(json_points_body(rest@) == json_point(p) + seq![44u8]
                        + json_points_body(old_rest));
                    assert(s@.subrange(i as int, j as int) == (s@.subrange(i as int, i1 as int)
                        + s@.subrange(i1 as int, i1 + 1int)) + s@.subrange(i1 + 1int, j as int));
                    assert(s@.subrange(i as int, j as int) =~= json_points_body(rest@) + seq![
                        93u8,
                    ]);
                    assert forall|ps: Seq<Point>| (forall|k: int|
                        0 <= k < ps.len() ==> (#[trigger] ps[k]).within(STORE_LIMIT as int))
                        && #[trigger] points_items_at(s@, i as int, ps) implies rest@ == ps && j
                        as int == i + json_points_body(ps).len() + 1 by {
                        assert(ps.len() > 1);
                        assert(forall|k: int|
                            0 <= k < ps.drop_first().len() ==> (#[trigger] ps.drop_first()[
                                k
                            ]).within(STORE_LIMIT as int));
                        assert(points_items_at(s@, i1 + 1int, ps.drop_first()));
                        assert(rest@.drop_first() == ps.drop_first());
                        assert(rest@ =~= ps);
                    }
                }
                Ok((rest, j))
            },
            Err(e) => {
                proof {
                    assert forall|ps: Seq<Point>| (forall|k: int|
                        0 <= k < ps.len() ==> (#[trigger] ps[k]).within(STORE_LIMIT as int))
                        && #[trigger] points_items_at(s@, i as int, ps) implies false by {
                        assert(ps.len() > 1);
                        assert(forall|k: int|
                            0 <= k < ps.drop_first().len() ==> (#[trigger] ps.drop_first()[
                                k
                            ]).within(STORE_LIMIT as int));
                        assert(points_items_at(s@, i1 + 1int, ps.drop_first()));
                    }
                }
                Err(e)
            },
        }
    } else if i1 < n && s[i1] == 93 {
        let mut single: Vec<Point> = Vec::new();
        single.push(p);
        proof {
            assert(single@ =~= seq![p]);
            assert(json_points_body(single@) == json_point(p));
            lemma_subrange_concat(s@, i as int, i1 as int, i1 + 1int);
            assert(s@.subrange(i1 as int, i1 + 1int) =~= seq![93u8]);
            assert forall|ps: Seq<Point>| (forall|k: int|
                0 <= k < ps.len() ==> (#[trigger] ps[k]).within(STORE_LIMIT as int))
                && #[trigger] points_items_at(s@, i as int, ps) implies single@ == ps && (i1 + 1)
                as int == i + json_points_body(ps).len() + 1 by {
                assert(ps.len() == 1);
                assert(ps =~= seq![ps.first()]);
            }
        }
        Ok((single, i1 + 1))
    } else {
        proof {
            assert forall|ps: Seq<Point>| (forall|k: int|
                0 <= k < ps.len() ==> (#[trigger] ps[k]).within(STORE_LIMIT as int))
                && #[trigger] points_items_at(s@, i as int, ps) implies false by {
                assert(ps.len() >= 1);
            }
        }
        Err(ParseError { at: i1, kind: ParseIssue::UnexpectedByte })
    }
}


/// The literal bytes between the point array and the rotation entries.
pub open spec fn k_comma_rot() -> Seq<u8> {
    seq![44u8, 34u8, 114u8, 111u8, 116u8, 34u8, 58u8, 91u8]
}

/// Expect the bytes of `,"rot":[` at `i`.
fn eat_comma_rot(s: &[u8], i: usize) -> (r: Result<usize, ParseError>)
    requires
        i <= s@.len(),
    ensures
        r matches Ok(j) ==> j == i + 8 && i as int + 8 <= s@.len() && s@.subrange(
            i as int,
            j as int,
        ) == k_comma_rot(),
        i as int + 8 <= s@.len() && s@.subrange(i as int, i as int + 8) == k_comma_rot()
            ==> r == Ok::<usize, ParseError>((i + 8) as usize),
{
    let n: usize = s.len();
    if n - i < 8 {
        return Err(ParseError { at: n, kind: ParseIssue::EndOfInput });
    }
    let ok = s[i] == 44 && s[i + 1] == 34 && s[i + 2] == 114 && s[i + 3] == 111 && s[i + 4]
        == 116 && s[i + 5] == 34 && s[i + 6] == 58 && s[i + 7] == 91;
    if !ok {
        proof {
            if i as int + 8 <= s@.len() && s@.subrange(i as int, i as int + 8) == k_comma_rot() {
                assert forall|t: int| 0 <= t < 8 implies s@[i + t] == #[trigger] k_comma_rot()[
                    t
                ] by {
                    assert(s@.subrange(i as int, i as int + 8)[t] == s@[i + t]);
                }
                assert(false);
            }
        }
        return Err(ParseError { at: i, kind: ParseIssue::UnexpectedByte });
    }
    proof {
        assert(s@.subrange(i as int, i as int + 8) =~= k_comma_rot());
    }
    Ok(i + 8)
}



/// The length of the emitted transform-parameter tail of a line record.
pub open spec fn rot_tail_len(a: int, b: int, tx: int, ty: int) -> int {
    23 + dec_i(a).len() as int + dec_i(b).len() as int + dec_i(tx).len() as int + dec_i(
        ty,
    ).len() as int
}

/// The emitted transform-parameter tail of a line record.
pub open spec fn rot_tail(a: int, b: int, tx: int, ty: int) -> Seq<u8> {
    k_comma_rot() + dec_i(a) + seq![44u8] + dec_i(b) + k_close_tx() + dec_i(tx) + k_comma_ty()
        + dec_i(ty) + seq![125u8]
}

/// The transform-parameter tail sits at `i` in `s`.
pub open spec fn rot_tail_at(s: Seq<u8>, i: int, a: int, b: int, tx: int, ty: int) -> bool {
    &&& i + rot_tail_len(a, b, tx, ty) <= s.len()
    &&& s.subrange(i, i + rot_tail_len(a, b, tx, ty)) == rot_tail(a, b, tx, ty)
}

/// Split the transform-parameter tail into its parts.
#[verifier::rlimit(100)]
proof fn lemma_rot_tail_parts(s: Seq<u8>, i: int, a: int, b: int, tx: int, ty: int)
    requires
        0 <= i,
        rot_tail_at(s, i, a, b, tx, ty),
    ensures
        ({
            let la = dec_i(a).len() as int;
            let lb = dec_i(b).len() as int;
            let lt = dec_i(tx).len() as int;
            let lu = dec_i(ty).len() as int;
            &&& s.subrange(i, i + 8) == k_comma_rot()
            &&& num_i_at(s, i + 8, a)
            &&& s[i + 8 + la] == 44
            &&& num_i_at(s, i + 9 + la, b)
            &&& s.subrange(i + 9 + la + lb, i + 16 + la + lb) == k_close_tx()
            &&& num_i_at(s, i + 16 + la + lb, tx)
            &&& s.subrange(i + 16 + la + lb + lt, i + 22 + la + lb + lt) == k_comma_ty()
            &&& num_i_at(s, i + 22 + la + lb + lt, ty)
            &&& s[i + 22 + la + lb + lt + lu] == 125
        }),
{
    let la = dec_i(a).len() as int;
    let lb = dec_i(b).len() as int;
    let lt = dec_i(tx).len() as int;
    let lu = dec_i(ty).len() as int;
    let total = i + rot_tail_len(a, b, tx, ty);
    assert(s.subrange(i, total) == k_comma_rot() + (dec_i(a) + (seq![44u8] + (dec_i(b) + (
    k_close_tx() + (dec_i(tx) + (k_comma_ty() + (dec_i(ty) + seq![125u8])))))))) by {
        assert(rot_tail(a, b, tx, ty) =~= k_comma_rot() + (dec_i(a) + (seq![44u8] + (dec_i(b) + (
        k_close_tx() + (dec_i(tx) + (k_comma_ty() + (dec_i(ty) + seq![125u8]))))))));
    }
    lemma_subrange_unconcat(
        s,
        i,
        total,
        k_comma_rot(),
        dec_i(a) + (seq![44u8] + (dec_i(b) + (k_close_tx() + (dec_i(tx) + (k_comma_ty() + (dec_i(
            ty,
        ) + seq![125u8])))))),
    );
    lemma_subrange_unconcat(
        s,
        i + 8,
        total,
        dec_i(a),
        seq![44u8] + (dec_i(b) + (k_close_tx() + (dec_i(tx) + (k_comma_ty() + (dec_i(ty) + seq![
            125u8,
        ]))))),
    );
    lemma_subrange_unconcat(
        s,
        i + 8 + la,
        total,
        seq![44u8],
        dec_i(b) + (k_close_tx() + (dec_i(tx) + (k_comma_ty() + (dec_i(ty) + seq![125u8])))),
    );
    lemma_subrange_unconcat(
        s,
        i + 9 + la,
        total,
        dec_i(b),
        k_close_tx() + (dec_i(tx) + (k_comma_ty() + (dec_i(ty) + seq![125u8]))),
    );
    lemma_subrange_unconcat(
        s,
        i + 9 + la + lb,
        total,
        k_close_tx(),
        dec_i(tx) + (k_comma_ty() + (dec_i(ty) + seq![125u8])),
    );
    lemma_subrange_unconcat(
        s,
        i + 16 + la + lb,
        total,
        dec_i(tx),
        k_comma_ty() + (dec_i(ty) + seq![125u8]),
    );
    lemma_subrange_unconcat(
        s,
        i + 16 + la + lb + lt,
        total,
        k_comma_ty(),
        dec_i(ty) + seq![125u8],
    );
    lemma_subrange_unconcat(s, i + 22 + la + lb + lt, total, dec_i(ty), seq![125u8]);
    assert(s[i + 8 + la] == 44) by {
        assert(s.subrange(i + 8 + la, i + 9 + la)[0] == s[i + 8 + la]);
    }
    assert(s[i + 9 + la + lb] == k_close_tx()[0]) by {
        assert(s.subrange(i + 9 + la + lb, i + 16 + la + lb)[0] == s[i + 9 + la + lb]);
    }
    assert(s[i + 16 + la + lb + lt] == k_comma_ty()[0]) by {
        assert(s.subrange(i + 16 + la + lb + lt, i + 22 + la + lb + lt)[0] == s[i + 16 + la + lb
            + lt]);
    }
    assert(s[i + 22 + la + lb + lt + lu] == 125) by {
        assert(s.subrange(i + 22 + la + lb + lt + lu, total)[0] == s[i + 22 + la + lb + lt
            + lu]);
    }
}

/// Read the transform-parameter tail of a line record at `i`.
#[verifier::rlimit(100)]
#[verifier::spinoff_prover]
fn parse_rot_tail(s: &[u8], i: usize) -> (r: Result<((i64, i64, i64, i64), usize), ParseError>)
    requires
        i <= s@.len(),
    ensures
        r matches Ok(ok) ==> {
            &&& i < ok.1 <= s@.len()
            &&& s@.subrange(i as int, ok.1 as int) == rot_tail(
                ok.0.0 as int,
                ok.0.1 as int,
                ok.0.2 as int,
                ok.0.3 as int,
            )
            &&& -(NUM_LIMIT as int) <= ok.0.0 as int <= NUM_LIMIT as int
            &&& -(NUM_LIMIT as int) <= ok.0.1 as int <= NUM_LIMIT as int
            &&& -(NUM_LIMIT as int) <= ok.0.2 as int <= NUM_LIMIT as int
            &&& -(NUM_LIMIT as int) <= ok.0.3 as int <= NUM_LIMIT as int
        },
        forall|a: int, b: int, tx: int, ty: int|
            -(NUM_LIMIT as int) <= a <= NUM_LIMIT && -(NUM_LIMIT as int) <= b <= NUM_LIMIT && -(
            NUM_LIMIT as int) <= tx <= NUM_LIMIT && -(NUM_LIMIT as int) <= ty <= NUM_LIMIT
                && #[trigger] rot_tail_at(s@, i as int, a, b, tx, ty) ==> (r matches Ok(ok)
                && ok.0.0 as int == a && ok.0.1 as int == b && ok.0.2 as int == tx && ok.0.3
                as int == ty && ok.1 as int == i + rot_tail_len(a, b, tx, ty)),
{
    let n: usize = s.len();
    let i3 = match eat_comma_rot(s, i) {
        Ok(j) => j,
        Err(e) => {
            proof {
                assert forall|a: int, b: int, tx: int, ty: int| -(NUM_LIMIT as int) <= a
                    <= NUM_LIMIT && -(NUM_LIMIT as int) <= b <= NUM_LIMIT && -(NUM_LIMIT as int)
                    <= tx <= NUM_LIMIT && -(NUM_LIMIT as int) <= ty <= NUM_LIMIT
                    && #[trigger] rot_tail_at(s@, i as int, a, b, tx, ty) implies false by {
                    lemma_rot_tail_parts(s@, i as int, a, b, tx, ty);
                }
            }
            return Err(e);
        },
    };
    let ra = match parse_i64(s, i3) {
        Ok(ok) => ok,
        Err(e) => {
            proof {
                assert forall|a: int, b: int, tx: int, ty: int| -(NUM_LIMIT as int) <= a
                    <= NUM_LIMIT && -(NUM_LIMIT as int) <= b <= NUM_LIMIT && -(NUM_LIMIT as int)
                    <= tx <= NUM_LIMIT && -(NUM_LIMIT as int) <= ty <= NUM_LIMIT
                    && #[trigger] rot_tail_at(s@, i as int, a, b, tx, ty) implies false by {
                    lemma_rot_tail_parts(s@, i as int, a, b, tx, ty);
                }
            }
            return Err(e);
        },
    };
    let (a, i4) = ra;
    if !(i4 < n && s[i4] == 44) {
        proof {
            assert forall|a0: int, b: int, tx: int, ty: int| -(NUM_LIMIT as int) <= a0
                <= NUM_LIMIT && -(NUM_LIMIT as int) <= b <= NUM_LIMIT && -(NUM_LIMIT as int) <= tx
                <= NUM_LIMIT && -(NUM_LIMIT as int) <= ty <= NUM_LIMIT && #[trigger] rot_tail_at(
                s@,
                i as int,
                a0,
                b,
                tx,
                ty,
            ) implies false by {
                lemma_rot_tail_parts(s@, i as int, a0, b, tx, ty);
            }
        }
        return Err(ParseError { at: i4, kind: ParseIssue::UnexpectedByte });
    }
    let rb = match parse_i64(s, i4 + 1) {
        Ok(ok) => ok,
        Err(e) => {
            proof {
                assert forall|a0: int, b: int, tx: int, ty: int| -(NUM_LIMIT as int) <= a0
                    <= NUM_LIMIT && -(NUM_LIMIT as int) <= b <= NUM_LIMIT && -(NUM_LIMIT as int)
                    <= tx <= NUM_LIMIT && -(NUM_LIMIT as int) <= ty <= NUM_LIMIT
                    && #[trigger] rot_tail_at(s@, i as int, a0, b, tx, ty) implies false by {
                    lemma_rot_tail_parts(s@, i as int, a0, b, tx, ty);
                }
            }
            return Err(e);
        },
    };
    let (b, i5) = rb;
    let i6 = match eat_close_tx(s, i5) {
        Ok(j) => j,
        Err(e) => {
            proof {
                assert forall|a0: int, b0: int, tx: int, ty: int| -(NUM_LIMIT as int) <= a0
                    <= NUM_LIMIT && -(NUM_LIMIT as int) <= b0 <= NUM_LIMIT && -(NUM_LIMIT as int)
                    <= tx <= NUM_LIMIT && -(NUM_LIMIT as int) <= ty <= NUM_LIMIT
                    && #[trigger] rot_tail_at(s@, i as int, a0, b0, tx, ty) implies false by {
                    lemma_rot_tail_parts(s@, i as int, a0, b0, tx, ty);
                }
            }
            return Err(e);
        },
    };
    let rt = match parse_i64(s, i6) {
        Ok(ok) => ok,
        Err(e) => {
            proof {
                assert forall|a0: int, b0: int, tx: int, ty: int| -(NUM_LIMIT as int) <= a0
                    <= NUM_LIMIT && -(NUM_LIMIT as int) <= b0 <= NUM_LIMIT && -(NUM_LIMIT as int)
                    <= tx <= NUM_LIMIT && -(NUM_LIMIT as int) <= ty <= NUM_LIMIT
                    && #[trigger] rot_tail_at(s@, i as int, a0, b0, tx, ty) implies false by {
                    lemma_rot_tail_parts(s@, i as int, a0, b0, tx, ty);
                }
            }
            return Err(e);
        },
    };
    let (tx, i7) = rt;
    let i8 = match eat_comma_ty(s, i7) {
        Ok(j) => j,
        Err(e) => {
            proof {
                assert forall|a0: int, b0: int, tx0: int, ty: int| -(NUM_LIMIT as int) <= a0
                    <= NUM_LIMIT && -(NUM_LIMIT as int) <= b0 <= NUM_LIMIT && -(NUM_LIMIT as int)
                    <= tx0 <= NUM_LIMIT && -(NUM_LIMIT as int) <= ty <= NUM_LIMIT
                    && #[trigger] rot_tail_at(s@, i as int, a0, b0, tx0, ty) implies false by {
                    lemma_rot_tail_parts(s@, i as int, a0, b0, tx0, ty);
                }
            }
            return Err(e);
        },
    };
    let ru = match parse_i64(s, i8) {
        Ok(ok) => ok,
        Err(e) => {
            proof {
                assert forall|a0: int, b0: int, tx0: int, ty: int| -(NUM_LIMIT as int) <= a0
                    <= NUM_LIMIT && -(NUM_LIMIT as int) <= b0 <= NUM_LIMIT && -(NUM_LIMIT as int)
                    <= tx0 <= NUM_LIMIT && -(NUM_LIMIT as int) <= ty <= NUM_LIMIT
                    && #[trigger] rot_tail_at(s@, i as int, a0, b0, tx0, ty) implies false by {
                    lemma_rot_tail_parts(s@, i as int, a0, b0, tx0, ty);
                }
            }
            return Err(e);
        },
    };
    let (ty, i9) = ru;
    if !(i9 < n && s[i9] == 125) {
        proof {
            assert forall|a0: int, b0: int, tx0: int, ty0: int| -(NUM_LIMIT as int) <= a0
                <= NUM_LIMIT && -(NUM_LIMIT as int) <= b0 <= NUM_LIMIT && -(NUM_LIMIT as int)
                <= tx0 <= NUM_LIMIT && -(NUM_LIMIT as int) <= ty0 <= NUM_LIMIT
                && #[trigger] rot_tail_at(s@, i as int, a0, b0, tx0, ty0) implies false by {
                lemma_rot_tail_parts(s@, i as int, a0, b0, tx0, ty0);
            }
        }
        return Err(ParseError { at: i9, kind: ParseIssue::UnexpectedByte });
    }
    proof {
        lemma_subrange_concat(s@, i as int, i3 as int, i4 as int);
        assert(s@.subrange(i4 as int, i4 + 1int) =~= seq![44u8]);
        lemma_subrange_concat(s@, i as int, i4 as int, i4 + 1int);
        lemma_subrange_concat(s@, i as int, i4 + 1int, i5 as int);
        lemma_subrange_concat(s@, i as int, i5 as int, i6 as int);
        lemma_subrange_concat(s@, i as int, i6 as int, i7 as int);
        lemma_subrange_concat(s@, i as int, i7 as int, i8 as int);
        lemma_subrange_concat(s@, i as int, i8 as int, i9 as int);
        assert(s@.subrange(i9 as int, i9 + 1int) =~= seq![125u8]);
        lemma_subrange_concat(s@, i as int, i9 as int, i9 + 1int);
        assert(s@.subrange(i as int, i9 + 1int) =~= rot_tail(
            a as int,
            b as int,
            tx as int,
            ty as int,
        ));
        assert forall|a0: int, b0: int, tx0: int, ty0: int| -(NUM_LIMIT as int) <= a0
            <= NUM_LIMIT && -(NUM_LIMIT as int) <= b0 <= NUM_LIMIT && -(NUM_LIMIT as int) <= tx0
            <= NUM_LIMIT && -(NUM_LIMIT as int) <= ty0 <= NUM_LIMIT && #[trigger] rot_tail_at(
            s@,
            i as int,
            a0,
            b0,
            tx0,
            ty0,
        ) implies a as int == a0 && b as int == b0 && tx as int == tx0 && ty as int == ty0 && (i9
            + 1) as int == i + rot_tail_len(a0, b0, tx0, ty0) by {
            lemma_rot_tail_parts(s@, i as int, a0, b0, tx0, ty0);
        }
    }
    Ok(((a, b, tx, ty), i9 + 1))
}

/// The canonical emission of line `l` sits at `i` in `s`.
pub open spec fn line_at(s: Seq<u8>, i: int, l: TessellationLine) -> bool {
    &&& i + json_line(l).len() <= s.len()
    &&& s.subrange(i, i + json_line(l).len()) == json_line(l)
}

/// Split the emission of a line record into the point array and the
/// transform-parameter tail.
#[verifier::rlimit(100)]
proof fn lemma_line_at_parts(s: Seq<u8>, i: int, l: TessellationLine)
    requires
        0 <= i,
        line_at(s, i, l),
    ensures
        ({
            let pb = json_points_body(l.points@).len() as int;
            &&& i + 11 <= s.len()
            &&& s.subrange(i, i + 11) == k_obj_points()
            &&& points_items_at(s, i + 11, l.points@)
            &&& rot_tail_at(
                s,
                i + 12 + pb,
                l.transform.a as int,
                l.transform.b as int,
                l.transform.tx as int,
                l.transform.ty as int,
            )
            &&& i + json_line(l).len() == i + 12 + pb + rot_tail_len(
                l.transform.a as int,
                l.transform.b as int,
                l.transform.tx as int,
                l.transform.ty as int,
            )
        }),
{
    let pb = json_points_body(l.points@).len() as int;
    let total = i + json_line(l).len() as int;
    assert(k_close_rot() =~= seq![93u8] + k_comma_rot());
    assert(s.subrange(i, total) == k_obj_points() + ((json_points_body(l.points@) + seq![93u8])
        + rot_tail(
        l.transform.a as int,
        l.transform.b as int,
        l.transform.tx as int,
        l.transform.ty as int,
    ))) by {
        assert(json_line(l) =~= k_obj_points() + ((json_points_body(l.points@) + seq![93u8])
            + rot_tail(
            l.transform.a as int,
            l.transform.b as int,
            l.transform.tx as int,
            l.transform.ty as int,
        )));
    }
    lemma_subrange_unconcat(
        s,
        i,
        total,
        k_obj_points(),
        (json_points_body(l.points@) + seq![93u8]) + rot_tail(
            l.transform.a as int,
            l.transform.b as int,
            l.transform.tx as int,
            l.transform.ty as int,
        ),
    );
    lemma_subrange_unconcat(
        s,
        i + 11,
        total,
        json_points_body(l.points@) + seq![93u8],
        rot_tail(
            l.transform.a as int,
            l.transform.b as int,
            l.transform.tx as int,
            l.transform.ty as int,
        ),
    );
}


/// A well-formed line's transform parameters fit the reader's checks.
proof fn lemma_rot_entry_bounds(l: TessellationLine)
    requires
        l.wf(),
    ensures
        crate::num::abs_i(l.transform.a as int) <= 1_100_000,
        crate::num::abs_i(l.transform.b as int) <= 1_100_000,
        crate::num::abs_i(l.transform.tx as int) <= crate::point::COORD_LIMIT as int,
        crate::num::abs_i(l.transform.ty as int) <= crate::point::COORD_LIMIT as int,
        crate::transform::NORM_MIN as int <= (l.transform.a as int) * (l.transform.a as int) + (
        l.transform.b as int) * (l.transform.b as int) <= crate::transform::NORM_MAX as int,
{
    let a = l.transform.a as int;
    let b = l.transform.b as int;
    assert(crate::num::abs_i(a) <= 1_100_000 && crate::num::abs_i(b) <= 1_100_000)
        by (nonlinear_arith)
        requires
            a * a + b * b <= crate::transform::NORM_MAX as int,
            crate::transform::NORM_MAX == 1_210_000_000_000i64,
    ;
}

/// The two lines agree on every model component.
pub open spec fn line_model_matches(a: TessellationLine, b: TessellationLine) -> bool {
    &&& a.points@ == b.points@
    &&& a.transform == b.transform
    &&& a.ci == b.ci
}

/// Read one line record at `i`, rebuilding the derived inverse transform.
#[verifier::rlimit(100)]
#[verifier::spinoff_prover]
fn parse_line(s: &[u8], i: usize) -> (r: Result<(TessellationLine, usize), ParseError>)
    requires
        i <= s@.len(),
    ensures
        r matches Ok(ok) ==> {
            &&& i < ok.1 <= s@.len()
            &&& s@.subrange(i as int, ok.1 as int) == json_line(ok.0)
            &&& ok.0.wf()
            &&& ok.0.points@.len() >= 2
        },
        forall|l: TessellationLine|
            l.wf() && l.points@.len() >= 2 && #[trigger] line_at(s@, i as int, l) ==> (r matches
                Ok(ok) && line_model_matches(ok.0, l) && ok.1 as int == i + json_line(l).len()),
{
    let n: usize = s.len();
    let i1 = match eat_obj_points(s, i) {
        Ok(j) => j,
        Err(e) => {
            proof {
                assert forall|l: TessellationLine| l.wf() && l.points@.len() >= 2
                    && #[trigger] line_at(s@, i as int, l) implies false by {
                    lemma_line_at_parts(s@, i as int, l);
                }
            }
            return Err(e);
        },
    };
    let pts = match parse_points_items(s, i1) {
        Ok(ok) => ok,
        Err(e) => {
            proof {
                assert forall|l: TessellationLine| l.wf() && l.points@.len() >= 2
                    && #[trigger] line_at(s@, i as int, l) implies false by {
                    lemma_line_at_parts(s@, i as int, l);
                    assert(forall|k: int|
                        0 <= k < l.points@.len() ==> (#[trigger] l.points@[k]).within(
                            STORE_LIMIT as int,
                        ));
                }
            }
            return Err(e);
        },
    };
    let (points, i2) = pts;
    let tail = match parse_rot_tail(s, i2) {
        Ok(ok) => ok,
        Err(e) => {
            proof {
                assert forall|l: TessellationLine| l.wf() && l.points@.len() >= 2
                    && #[trigger] line_at(s@, i as int, l) implies false by {
                    lemma_line_at_parts(s@, i as int, l);
                    lemma_rot_entry_bounds(l);
                    assert(forall|k: int|
                        0 <= k < l.points@.len() ==> (#[trigger] l.points@[k]).within(
                            STORE_LIMIT as int,
                        ));
                }
            }
            return Err(e);
        },
    };
    let ((a, b, tx, ty), i9) = tail;
    proof {
        assert forall|l: TessellationLine| l.wf() && l.points@.len() >= 2 && #[trigger] line_at(
            s@,
            i as int,
            l,
        ) implies points@ == l.points@ && a as int == l.transform.a as int && b as int
            == l.transform.b as int && tx as int == l.transform.tx as int && ty as int
            == l.transform.ty as int && i9 as int == i + json_line(l).len() by {
            lemma_line_at_parts(s@, i as int, l);
            lemma_rot_entry_bounds(l);
            assert(forall|k: int|
                0 <= k < l.points@.len() ==> (#[trigger] l.points@[k]).within(
                    STORE_LIMIT as int,
                ));
        }
    }
    // the record must describe a near-unit rotation, an in-range
    // translation, and at least the two shared anchor points
    let structural = points.len() >= 2 && a >= -2_000_000 && a <= 2_000_000 && b >= -2_000_000
        && b <= 2_000_000 && tx >= -(crate::point::COORD_LIMIT) && tx <= crate::point::COORD_LIMIT
        && ty >= -(crate::point::COORD_LIMIT) && ty <= crate::point::COORD_LIMIT;
    if !structural {
        proof {
            assert forall|l: TessellationLine| l.wf() && l.points@.len() >= 2
                && #[trigger] line_at(s@, i as int, l) implies false by {
                lemma_rot_entry_bounds(l);
            }
        }
        return Err(ParseError { at: i, kind: ParseIssue::InvalidFigure });
    }
    proof {
        assert(0 <= (a as int) * (a as int) <= 4_000_000_000_000 && 0 <= (b as int) * (b as int)
            <= 4_000_000_000_000) by (nonlinear_arith)
            requires
                -2_000_000 <= a as int <= 2_000_000,
                -2_000_000 <= b as int <= 2_000_000,
        ;
    }
    let norm: i64 = a * a + b * b;
    if !(crate::transform::NORM_MIN <= norm && norm <= crate::transform::NORM_MAX) {
        proof {
            assert forall|l: TessellationLine| l.wf() && l.points@.len() >= 2
                && #[trigger] line_at(s@, i as int, l) implies false by {
                lemma_rot_entry_bounds(l);
            }
        }
        return Err(ParseError { at: i, kind: ParseIssue::InvalidFigure });
    }
    let mut line = TessellationLine::new(tx, ty, crate::transform::Rotation { a, b });
    let m: usize = points.len();
    let mut t: usize = 0;
    while t < m
        invariant
            line.wf(),
            m == points@.len(),
            t <= m,
            forall|k: int|
                0 <= k < points@.len() ==> (#[trigger] points@[k]).within(STORE_LIMIT as int),
            line.points@ == points@.take(t as int),
            line.transform == (crate::transform::Transform { a, b, tx, ty }),
        decreases m - t,
    {
        line.append(points[t]);
        proof {
            assert(points@.take(t + 1int) =~= points@.take(t as int).push(points@[t as int]));
        }
        t = t + 1;
    }
    proof {
        assert(points@.take(m as int) =~= points@);
        lemma_subrange_concat(s@, i as int, i1 as int, i2 as int);
        lemma_subrange_concat(s@, i as int, i2 as int, i9 as int);
        assert(k_close_rot() =~= seq![93u8] + k_comma_rot());
        assert(s@.subrange(i as int, i9 as int) =~= json_line(line));
        assert forall|l: TessellationLine| l.wf() && l.points@.len() >= 2 && #[trigger] line_at(
            s@,
            i as int,
            l,
        ) implies line_model_matches(line, l) by {
            assert(line.ci == line.transform.inverse_s());
            assert(l.ci == l.transform.inverse_s());
        }
    }
    Ok((line, i9))
}


/// The emission of a line-array body plus its closing bracket sits at `i`
/// in `s`.
pub open spec fn lines_items_at(s: Seq<u8>, i: int, ls: Seq<TessellationLine>) -> bool {
    &&& i + json_lines_body(ls).len() + 1 <= s.len()
    &&& s.subrange(i, i + json_lines_body(ls).len() + 1) == json_lines_body(ls) + seq![93u8]
}

/// A line's emission depends only on its model.
proof fn lemma_json_line_congruent(a: TessellationLine, b: TessellationLine)
    requires
        line_model_matches(a, b),
    ensures
        json_line(a) == json_line(b),
{
}

/// Split a nonempty line-array body emission into its head line and the
/// rest.
proof fn lemma_lines_items_parts(s: Seq<u8>, i: int, ls: Seq<TessellationLine>)
    requires
        0 <= i,
        ls.len() >= 1,
        lines_items_at(s, i, ls),
    ensures
        line_at(s, i, ls.first()),
        ls.len() == 1 ==> s[i + json_line(ls.first()).len()] == 93,
        ls.len() > 1 ==> s[i + json_line(ls.first()).len()] == 44,
        ls.len() > 1 ==> lines_items_at(s, i + json_line(ls.first()).len() + 1, ls.drop_first()),
{
    let lp = json_line(ls.first()).len() as int;
    let lb = json_lines_body(ls).len() as int;
    let total = i + lb + 1;
    if ls.len() == 1 {
        assert(json_lines_body(ls) == json_line(ls[0]));
        lemma_subrange_unconcat(s, i, total, json_line(ls.first()), seq![93u8]);
        assert(s[i + lp] == s.subrange(i + lp, total)[0]);
    } else {
        assert(json_lines_body(ls) == json_line(ls.first()) + seq![44u8] + json_lines_body(
            ls.drop_first(),
        ));
        assert(s.subrange(i, total) =~= json_line(ls.first()) + (seq![44u8] + (json_lines_body(
            ls.drop_first(),
        ) + seq![93u8])));
        lemma_subrange_unconcat(
            s,
            i,
            total,
            json_line(ls.first()),
            seq![44u8] + (json_lines_body(ls.drop_first()) + seq![93u8]),
        );
        assert(s[i + lp] == s.subrange(i + lp, total)[0]);
        lemma_subrange_unconcat(
            s,
            i + lp,
            total,
            seq![44u8],
            json_lines_body(ls.drop_first()) + seq![93u8],
        );
    }
}

/// What one successful head-line parse pins down about a hypothetical
/// emitted line list starting at the same position.
proof fn lemma_lines_head_pins(
    s: Seq<u8>,
    i: int,
    l: TessellationLine,
    i1: int,
    ls: Seq<TessellationLine>,
)
    requires
        0 <= i <= i1 <= s.len(),
        s.subrange(i, i1) == json_line(l),
        lines_items_at(s, i, ls),
        ls.len() >= 1 ==> line_at(s, i, ls.first()) ==> line_model_matches(l, ls.first()) && i1
            == i + json_line(ls.first()).len(),
    ensures
        ls.len() >= 1,
        line_model_matches(l, ls.first()),
        i1 == i + json_line(ls.first()).len(),
        ls.len() == 1 ==> s[i1] == 93,
        ls.len() > 1 ==> s[i1] == 44 && lines_items_at(s, i1 + 1, ls.drop_first()),
{
    assert(json_line(l).len() >= 11) by {
        assert(json_line(l) == k_obj_points() + json_points_body(l.points@) + k_close_rot()
            + dec_i(l.transform.a as int) + seq![44u8] + dec_i(l.transform.b as int)
            + k_close_tx() + dec_i(l.transform.tx as int) + k_comma_ty() + dec_i(
            l.transform.ty as int,
        ) + seq![125u8]);
    }
    if ls.len() == 0 {
        assert(s[i] == 93) by {
            assert(s.subrange(i, i + 1)[0] == s[i]);
            assert((json_lines_body(ls) + seq![93u8])[0] == 93);
        }
        assert(s[i] == json_line(l)[0]) by {
            assert(s.subrange(i, i1)[0] == s[i]);
        }
        assert(json_line(l)[0] == 123) by {
            assert(json_line(l)[0] == k_obj_points()[0]);
        }
        assert(false);
    }
    lemma_lines_items_parts(s, i, ls);
}

/// Read the body of the line array and its closing bracket at `i`.
#[verifier::rlimit(100)]
#[verifier::spinoff_prover]
fn parse_lines_items(s: &[u8], i: usize) -> (r: Result<(Vec<TessellationLine>, usize), ParseError>)
    requires
        i <= s@.len(),
    ensures
        r matches Ok(ok) ==> {
            &&& i < ok.1 <= s@.len()
            &&& s@.subrange(i as int, ok.1 as int) == json_lines_body(ok.0@) + seq![93u8]
            &&& forall|k: int| 0 <= k < ok.0@.len() ==> (#[trigger] ok.0@[k]).wf()
            &&& forall|k: int| 0 <= k < ok.0@.len() ==> (#[trigger] ok.0@[k]).points@.len() >= 2
        },
        forall|ls: Seq<TessellationLine>|
            (forall|k: int| 0 <= k < ls.len() ==> (#[trigger] ls[k]).wf()) && (forall|k: int|
                0 <= k < ls.len() ==> (#[trigger] ls[k]).points@.len() >= 2)
                && #[trigger] lines_items_at(s@, i as int, ls) ==> (r matches Ok(ok)
                && crate::figure::lines_match(ok.0@, ls) && ok.1 as int == i + json_lines_body(
                ls,
            ).len() + 1),
    decreases s@.len() - i,
{
    let n: usize = s.len();
    if i < n && s[i] == 93 {
        let empty: Vec<TessellationLine> = Vec::new();
        proof {
            assert(s@.subrange(i as int, i + 1int) =~= seq![93u8]);
            assert(json_lines_body(empty@) + seq![93u8] =~= seq![93u8]);
            assert forall|ls: Seq<TessellationLine>| (forall|k: int|
                0 <= k < ls.len() ==> (#[trigger] ls[k]).wf()) && (forall|k: int|
                0 <= k < ls.len() ==> (#[trigger] ls[k]).points@.len() >= 2)
                && #[trigger] lines_items_at(s@, i as int, ls) implies crate::figure::lines_match(
                empty@,
                ls,
            ) by {
                if ls.len() >= 1 {
                    lemma_lines_items_parts(s@, i as int, ls);
                    assert(s@[i as int] == json_line(ls.first())[0]) by {
                        assert(json_line(ls.first()).len() >= 11) by {
                            assert(json_line(ls.first()) == k_obj_points() + json_points_body(
                                ls.first().points@,
                            ) + k_close_rot() + dec_i(ls.first().transform.a as int) + seq![44u8]
                                + dec_i(ls.first().transform.b as int) + k_close_tx() + dec_i(
                                ls.first().transform.tx as int,
                            ) + k_comma_ty() + dec_i(ls.first().transform.ty as int) + seq![
                                125u8,
                            ]);
                        }
                        assert(s@.subrange(
                            i as int,
                            i as int + json_line(ls.first()).len(),
                        )[0] == s@[i as int]);
                    }
                    assert(json_line(ls.first())[0] == 123) by {
                        assert(json_line(ls.first())[0] == k_obj_points()[0]);
                    }
                    assert(false);
                }
            }
        }
        return Ok((empty, i + 1));
    }
    let parsed = parse_line(s, i);
    if let Err(e) = parsed {
        proof {
            assert forall|ls: Seq<TessellationLine>| (forall|k: int|
                0 <= k < ls.len() ==> (#[trigger] ls[k]).wf()) && (forall|k: int|
                0 <= k < ls.len() ==> (#[trigger] ls[k]).points@.len() >= 2)
                && #[trigger] lines_items_at(s@, i as int, ls) implies false by {
                if ls.len() == 0 {
                    assert(s@[i as int] == 93) by {
                        assert(s@.subrange(i as int, i + 1int)[0] == s@[i as int]);
                        assert((json_lines_body(ls) + seq![93u8])[0] == 93);
                    }
                    assert(false);
                } else {
                    lemma_lines_items_parts(s@, i as int, ls);
                }
            }
        }
        return Err(e);
    }
    let (l, i1) = parsed.unwrap();
    proof {
        assert forall|ls: Seq<TessellationLine>| (forall|k: int|
            0 <= k < ls.len() ==> (#[trigger] ls[k]).wf()) && (forall|k: int|
            0 <= k < ls.len() ==> (#[trigger] ls[k]).points@.len() >= 2)
            && #[trigger] lines_items_at(s@, i as int, ls) implies ls.len() >= 1
            && line_model_matches(l, ls.first()) && i1 as int == i + json_line(ls.first()).len()
            && (ls.len() == 1 ==> s@[i1 as int] == 93) && (ls.len() > 1 ==> s@[i1 as int] == 44
            && lines_items_at(s@, i1 + 1int, ls.drop_first())) by {
            lemma_lines_head_pins(s@, i as int, l, i1 as int, ls);
        }
    }
    if i1 < n && s[i1] == 44 {
        let tail = parse_lines_items(s, i1 + 1);
        match tail {
            Ok((mut rest, j)) => {
                if rest.len() == 0 {
                    // a trailing comma: the canonical grammar never emits one
                    return Err(ParseError { at: i1, kind: ParseIssue::UnexpectedByte });
                }
                let ghost old_rest = rest@;
                rest.insert(0, l);
                proof {
                    assert(rest@ == old_rest.insert(0, l));
                    assert(rest@ =~= seq![l] + old_rest);
                    assert(rest@.drop_first() =~= old_rest);
                    assert(rest@.first() == l);
                    lemma_subrange_concat(s@, i as int, i1 as int, i1 + 1int);
                    lemma_subrange_concat(s@, i as int, i1 + 1int, j as int);
                    assert(s@.subrange(i1 as int, i1 + 1int) =~= seq![44u8]);
                    assert(s@.subrange(i1 + 1int, j as int) == json_lines_body(old_rest) + seq![
                        93u8,
                    ]);
                    assert(rest@.len() >= 2);
                    assert(json_lines_body(rest@) == json_line(l) + seq![44u8]
                        + json_lines_body(old_rest));
                    assert(s@.subrange(i as int, j as int) == (s@.subrange(i as int, i1 as int)
                        + s@.subrange(i1 as int, i1 + 1int)) + s@.subrange(i1 + 1int, j as int));
                    assert(s@.subrange(i as int, j as int) =~= json_lines_body(rest@) + seq![
                        93u8,
                    ]);
                    assert forall|ls: Seq<TessellationLine>| (forall|k: int|
                        0 <= k < ls.len() ==> (#[trigger] ls[k]).wf()) && (forall|k: int|
                        0 <= k < ls.len() ==> (#[trigger] ls[k]).points@.len() >= 2)
                        && #[trigger] lines_items_at(s@, i as int, ls) implies
                        crate::figure::lines_match(rest@, ls) && j as int == i
                        + json_lines_body(ls).len() + 1 by {
                        assert(ls.len() > 1);
                        assert(forall|k: int|
                            0 <= k < ls.drop_first().len() ==> (#[trigger] ls.drop_first()[
                                k
                            ]).wf());
                        assert(forall|k: int|
                            0 <= k < ls.drop_first().len() ==> (#[trigger] ls.drop_first()[
                                k
                            ]).points@.len() >= 2);
                        assert(lines_items_at(s@, i1 + 1int, ls.drop_first()));
                        assert(crate::figure::lines_match(old_rest, ls.drop_first()));
                        lemma_json_line_congruent(l, ls.first());
                        assert(crate::figure::lines_match(rest@, ls));
                        assert(json_lines_body(ls).len() == json_lines_body(rest@).len()) by {
                            lemma_lines_body_congruent(rest@, ls);
                        }
                    }
                }
                Ok((rest, j))
            },
            Err(e) => {
                proof {
                    assert forall|ls: Seq<TessellationLine>| (forall|k: int|
                        0 <= k < ls.len() ==> (#[trigger] ls[k]).wf()) && (forall|k: int|
                        0 <= k < ls.len() ==> (#[trigger] ls[k]).points@.len() >= 2)
                        && #[trigger] lines_items_at(s@, i as int, ls) implies false by {
                        assert(ls.len() > 1);
                        assert(forall|k: int|
                            0 <= k < ls.drop_first().len() ==> (#[trigger] ls.drop_first()[
                                k
                            ]).wf());
                        assert(forall|k: int|
                            0 <= k < ls.drop_first().len() ==> (#[trigger] ls.drop_first()[
                                k
                            ]).points@.len() >= 2);
                        assert(lines_items_at(s@, i1 + 1int, ls.drop_first()));
                    }
                }
                Err(e)
            },
        }
    } else if i1 < n && s[i1] == 93 {
        let mut single: Vec<TessellationLine> = Vec::new();
        single.push(l);
        proof {
            assert(single@ =~= seq![l]);
            assert(json_lines_body(single@) == json_line(l));
            lemma_subrange_concat(s@, i as int, i1 as int, i1 + 1int);
            assert(s@.subrange(i1 as int, i1 + 1int) =~= seq![93u8]);
            assert forall|ls: Seq<TessellationLine>| (forall|k: int|
                0 <= k < ls.len() ==> (#[trigger] ls[k]).wf()) && (forall|k: int|
                0 <= k < ls.len() ==> (#[trigger] ls[k]).points@.len() >= 2)
                && #[trigger] lines_items_at(s@, i as int, ls) implies crate::figure::lines_match(
                single@,
                ls,
            ) && (i1 + 1) as int == i + json_lines_body(ls).len() + 1 by {
                assert(ls.len() == 1);
                lemma_json_line_congruent(l, ls.first());
                assert(json_lines_body(ls) == json_line(ls.first()));
            }
        }
        Ok((single, i1 + 1))
    } else {
        proof {
            assert forall|ls: Seq<TessellationLine>| (forall|k: int|
                0 <= k < ls.len() ==> (#[trigger] ls[k]).wf()) && (forall|k: int|
                0 <= k < ls.len() ==> (#[trigger] ls[k]).points@.len() >= 2)
                && #[trigger] lines_items_at(s@, i as int, ls) implies false by {
                assert(ls.len() >= 1);
            }
        }
        Err(ParseError { at: i1, kind: ParseIssue::UnexpectedByte })
    }
}

/// Model-matching line sequences emit the same array body.
proof fn lemma_lines_body_congruent(a: Seq<TessellationLine>, b: Seq<TessellationLine>)
    requires
        crate::figure::lines_match(a, b),
    ensures
        json_lines_body(a) == json_lines_body(b),
    decreases a.len(),
{
    if a.len() == 0 {
        assert(json_lines_body(a) =~= json_lines_body(b));
    } else if a.len() == 1 {
        lemma_json_line_congruent(a[0], b[0]);
    } else {
        assert(crate::figure::lines_match(a.drop_first(), b.drop_first()));
        lemma_lines_body_congruent(a.drop_first(), b.drop_first());
        lemma_json_line_congruent(a.first(), b.first());
    }
}


/// The emitted header of a figure: the lattice parameters, the traversal
/// selector, the template tag, and the opening of the line array.
pub open spec fn fig_header(
    gx: int,
    gy: int,
    sx: int,
    sy: int,
    rd: int,
    rv: bool,
    sh: TessellationShape,
) -> Seq<u8> {
    k_obj_gridincx() + dec_i(gx) + k_comma_gridincy() + dec_i(gy) + k_comma_shiftx() + dec_i(sx)
        + k_comma_shifty() + dec_i(sy) + k_comma_rotdiv() + dec_u(rd) + k_comma_reversed()
        + json_bool(rv) + k_comma_shape() + seq![shape_letter(sh)] + k_quote_lines()
}

/// The figure header sits at `i` in `s`.
pub open spec fn fig_header_at(
    s: Seq<u8>,
    i: int,
    gx: int,
    gy: int,
    sx: int,
    sy: int,
    rd: int,
    rv: bool,
    sh: TessellationShape,
) -> bool {
    &&& i + fig_header(gx, gy, sx, sy, rd, rv, sh).len() <= s.len()
    &&& s.subrange(i, i + fig_header(gx, gy, sx, sy, rd, rv, sh).len()) == fig_header(
        gx,
        gy,
        sx,
        sy,
        rd,
        rv,
        sh,
    )
}

/// The lattice-parameter half of the figure header.
pub open spec fn fig_header_scalars(gx: int, gy: int, sx: int, sy: int, rd: int) -> Seq<u8> {
    k_obj_gridincx() + dec_i(gx) + k_comma_gridincy() + dec_i(gy) + k_comma_shiftx() + dec_i(sx)
        + k_comma_shifty() + dec_i(sy) + k_comma_rotdiv() + dec_u(rd)
}

/// The selector-and-tag half of the figure header.
pub open spec fn fig_header_tail(rv: bool, sh: TessellationShape) -> Seq<u8> {
    k_comma_reversed() + json_bool(rv) + k_comma_shape() + seq![shape_letter(sh)]
        + k_quote_lines()
}

/// Split the lattice-parameter half into its parts.
#[verifier::rlimit(100)]
proof fn lemma_fig_header_scalars(s: Seq<u8>, i: int, gx: int, gy: int, sx: int, sy: int, rd: int)
    requires
        0 <= i,
        rd >= 0,
        i + fig_header_scalars(gx, gy, sx, sy, rd).len() < s.len(),
        s.subrange(i, i + fig_header_scalars(gx, gy, sx, sy, rd).len()) == fig_header_scalars(
            gx,
            gy,
            sx,
            sy,
            rd,
        ),
        !is_digit(s[i + fig_header_scalars(gx, gy, sx, sy, rd).len()]),
    ensures
        ({
            let p1 = i + 12 + dec_i(gx).len();
            let p2 = p1 + 12 + dec_i(gy).len();
            let p3 = p2 + 10 + dec_i(sx).len();
            let p4 = p3 + 10 + dec_i(sy).len();
            &&& s.subrange(i, i + 12) == k_obj_gridincx()
            &&& num_i_at(s, i + 12, gx)
            &&& s.subrange(p1, p1 + 12) == k_comma_gridincy()
            &&& num_i_at(s, p1 + 12, gy)
            &&& s.subrange(p2, p2 + 10) == k_comma_shiftx()
            &&& num_i_at(s, p2 + 10, sx)
            &&& s.subrange(p3, p3 + 10) == k_comma_shifty()
            &&& num_i_at(s, p3 + 10, sy)
            &&& s.subrange(p4, p4 + 10) == k_comma_rotdiv()
            &&& num_u_at(s, p4 + 10, rd)
            &&& i + fig_header_scalars(gx, gy, sx, sy, rd).len() == p4 + 10 + dec_u(rd).len()
        }),
{
    let p1 = i + 12 + dec_i(gx).len() as int;
    let p2 = p1 + 12 + dec_i(gy).len() as int;
    let p3 = p2 + 10 + dec_i(sx).len() as int;
    let p4 = p3 + 10 + dec_i(sy).len() as int;
    let enda = i + fig_header_scalars(gx, gy, sx, sy, rd).len() as int;
    assert(s.subrange(i, enda) == k_obj_gridincx() + (dec_i(gx) + (k_comma_gridincy() + (dec_i(gy) + (k_comma_shiftx() + (dec_i(sx) + (k_comma_shifty() + (dec_i(sy) + (k_comma_rotdiv() + (dec_u(rd))))))))))) by {
        assert(fig_header_scalars(gx, gy, sx, sy, rd) =~= k_obj_gridincx() + (dec_i(gx) + (k_comma_gridincy() + (dec_i(gy) + (k_comma_shiftx() + (dec_i(sx) + (k_comma_shifty() + (dec_i(sy) + (k_comma_rotdiv() + (dec_u(rd)))))))))));
    }
    lemma_subrange_unconcat(
        s,
        i,
        enda,
        k_obj_gridincx(),
        dec_i(gx) + (k_comma_gridincy() + (dec_i(gy) + (k_comma_shiftx() + (dec_i(sx) + (k_comma_shifty() + (dec_i(sy) + (k_comma_rotdiv() + (dec_u(rd))))))))),
    );
    lemma_subrange_unconcat(
        s,
        i + 12,
        enda,
        dec_i(gx),
        k_comma_gridincy() + (dec_i(gy) + (k_comma_shiftx() + (dec_i(sx) + (k_comma_shifty() + (dec_i(sy) + (k_comma_rotdiv() + (dec_u(rd)))))))),
    );
    lemma_subrange_unconcat(
        s,
        p1,
        enda,
        k_comma_gridincy(),
        dec_i(gy) + (k_comma_shiftx() + (dec_i(sx) + (k_comma_shifty() + (dec_i(sy) + (k_comma_rotdiv() + (dec_u(rd))))))),
    );
    lemma_subrange_unconcat(
        s,
        p1 + 12,
        enda,
        dec_i(gy),
        k_comma_shiftx() + (dec_i(sx) + (k_comma_shifty() + (dec_i(sy) + (k_comma_rotdiv() + (dec_u(rd)))))),
    );
    lemma_subrange_unconcat(
        s,
        p2,
        enda,
        k_comma_shiftx(),
        dec_i(sx) + (k_comma_shifty() + (dec_i(sy) + (k_comma_rotdiv() + (dec_u(rd))))),
    );
    lemma_subrange_unconcat(
        s,
        p2 + 10,
        enda,
        dec_i(sx),
        k_comma_shifty() + (dec_i(sy) + (k_comma_rotdiv() + (dec_u(rd)))),
    );
    lemma_subrange_unconcat(
        s,
        p3,
        enda,
        k_comma_shifty(),
        dec_i(sy) + (k_comma_rotdiv() + (dec_u(rd))),
    );
    lemma_subrange_unconcat(
        s,
        p3 + 10,
        enda,
        dec_i(sy),
        k_comma_rotdiv() + (dec_u(rd)),
    );
    lemma_subrange_unconcat(
        s,
        p4,
        enda,
        k_comma_rotdiv(),
        dec_u(rd),
    );
    assert(s[p1] == k_comma_gridincy()[0]) by {
        assert(s.subrange(p1, p1 + 12)[0] == s[p1]);
    }
    assert(s[p2] == k_comma_shiftx()[0]) by {
        assert(s.subrange(p2, p2 + 10)[0] == s[p2]);
    }
    assert(s[p3] == k_comma_shifty()[0]) by {
        assert(s.subrange(p3, p3 + 10)[0] == s[p3]);
    }
    assert(s[p4] == k_comma_rotdiv()[0]) by {
        assert(s.subrange(p4, p4 + 10)[0] == s[p4]);
    }
}

/// Split the selector-and-tag half into its parts.
#[verifier::rlimit(100)]
proof fn lemma_fig_header_tail(s: Seq<u8>, q: int, rv: bool, sh: TessellationShape)
    requires
        0 <= q,
        q + fig_header_tail(rv, sh).len() <= s.len(),
        s.subrange(q, q + fig_header_tail(rv, sh).len()) == fig_header_tail(rv, sh),
    ensures
        ({
            let p5x = q + 12 + json_bool(rv).len();
            let p6x = p5x + 10;
            &&& s.subrange(q, q + 12) == k_comma_reversed()
            &&& s.subrange(q + 12, p5x) == json_bool(rv)
            &&& s.subrange(p5x, p6x) == k_comma_shape()
            &&& s[p6x] == shape_letter(sh)
            &&& s.subrange(p6x + 1, p6x + 12) == k_quote_lines()
            &&& q + fig_header_tail(rv, sh).len() == p6x + 12
        }),
{
    let p5x = q + 12 + json_bool(rv).len() as int;
    let p6x = p5x + 10;
    let endb = q + fig_header_tail(rv, sh).len() as int;
    assert(s.subrange(q, endb) == k_comma_reversed() + (json_bool(rv) + (k_comma_shape() + (seq![shape_letter(sh)] + (k_quote_lines()))))) by {
        assert(fig_header_tail(rv, sh) =~= k_comma_reversed() + (json_bool(rv) + (k_comma_shape() + (seq![shape_letter(sh)] + (k_quote_lines())))));
    }
    lemma_subrange_unconcat(
        s,
        q,
        endb,
        k_comma_reversed(),
        json_bool(rv) + (k_comma_shape() + (seq![shape_letter(sh)] + (k_quote_lines()))),
    );
    lemma_subrange_unconcat(
        s,
        q + 12,
        endb,
        json_bool(rv),
        k_comma_shape() + (seq![shape_letter(sh)] + (k_quote_lines())),
    );
    lemma_subrange_unconcat(
        s,
        p5x,
        endb,
        k_comma_shape(),
        seq![shape_letter(sh)] + (k_quote_lines()),
    );
    lemma_subrange_unconcat(
        s,
        p6x,
        endb,
        seq![shape_letter(sh)],
        k_quote_lines(),
    );
    assert(s[p6x] == shape_letter(sh)) by {
        assert(s.subrange(p6x, p6x + 1)[0] == s[p6x]);
    }
}

/// Split the whole figure header into its two halves.
proof fn lemma_fig_header_parts(
    s: Seq<u8>,
    i: int,
    gx: int,
    gy: int,
    sx: int,
    sy: int,
    rd: int,
    rv: bool,
    sh: TessellationShape,
)
    requires
        0 <= i,
        rd >= 0,
        fig_header_at(s, i, gx, gy, sx, sy, rd, rv, sh),
    ensures
        ({
            let q = i + fig_header_scalars(gx, gy, sx, sy, rd).len();
            &&& i + fig_header_scalars(gx, gy, sx, sy, rd).len() < s.len()
            &&& s.subrange(i, i + fig_header_scalars(gx, gy, sx, sy, rd).len())
                == fig_header_scalars(gx, gy, sx, sy, rd)
            &&& !is_digit(s[i + fig_header_scalars(gx, gy, sx, sy, rd).len()])
            &&& q + fig_header_tail(rv, sh).len() <= s.len()
            &&& s.subrange(q, q + fig_header_tail(rv, sh).len()) == fig_header_tail(rv, sh)
            &&& i + fig_header(gx, gy, sx, sy, rd, rv, sh).len() == q + fig_header_tail(
                rv,
                sh,
            ).len()
        }),
{
    let total = i + fig_header(gx, gy, sx, sy, rd, rv, sh).len() as int;
    let q = i + fig_header_scalars(gx, gy, sx, sy, rd).len() as int;
    assert(s.subrange(i, total) == fig_header_scalars(gx, gy, sx, sy, rd) + fig_header_tail(
        rv,
        sh,
    )) by {
        assert(fig_header(gx, gy, sx, sy, rd, rv, sh) =~= fig_header_scalars(gx, gy, sx, sy, rd)
            + fig_header_tail(rv, sh));
    }
    lemma_subrange_unconcat(
        s,
        i,
        total,
        fig_header_scalars(gx, gy, sx, sy, rd),
        fig_header_tail(rv, sh),
    );
    assert(s[q] == k_comma_reversed()[0]) by {
        assert(s.subrange(q, total)[0] == s[q]);
        assert(fig_header_tail(rv, sh)[0] == k_comma_reversed()[0]);
    }
}


/// The scalar half of the header sits at `i` in `s`, followed by a
/// non-digit byte.
pub open spec fn fig_scalars_at(
    s: Seq<u8>,
    i: int,
    gx: int,
    gy: int,
    sx: int,
    sy: int,
    rd: int,
) -> bool {
    &&& i + fig_header_scalars(gx, gy, sx, sy, rd).len() < s.len()
    &&& s.subrange(i, i + fig_header_scalars(gx, gy, sx, sy, rd).len()) == fig_header_scalars(
        gx,
        gy,
        sx,
        sy,
        rd,
    )
    &&& !is_digit(s[i + fig_header_scalars(gx, gy, sx, sy, rd).len()])
}

/// Read the lattice parameters of the header at `i`.
#[verifier::rlimit(100)]
#[verifier::spinoff_prover]
fn parse_fig_scalars(s: &[u8], i: usize) -> (r: Result<
    ((i64, i64, i64, i64, u32), usize),
    ParseError,
>)
    requires
        i <= s@.len(),
    ensures
        r matches Ok(ok) ==> {
            &&& i < ok.1 <= s@.len()
            &&& s@.subrange(i as int, ok.1 as int) == fig_header_scalars(
                ok.0.0 as int,
                ok.0.1 as int,
                ok.0.2 as int,
                ok.0.3 as int,
                ok.0.4 as int,
            )
            &&& crate::num::abs_i(ok.0.0 as int) <= crate::point::COORD_LIMIT as int
            &&& crate::num::abs_i(ok.0.1 as int) <= crate::point::COORD_LIMIT as int
            &&& crate::num::abs_i(ok.0.2 as int) <= crate::point::COORD_LIMIT as int
            &&& crate::num::abs_i(ok.0.3 as int) <= crate::point::COORD_LIMIT as int
        },
        forall|gx: int, gy: int, sx: int, sy: int, rd: int|
            crate::num::abs_i(gx) <= crate::point::COORD_LIMIT && crate::num::abs_i(gy)
                <= crate::point::COORD_LIMIT && crate::num::abs_i(sx)
                <= crate::point::COORD_LIMIT && crate::num::abs_i(sy)
                <= crate::point::COORD_LIMIT && 0 <= rd <= u32::MAX
                && #[trigger] fig_scalars_at(s@, i as int, gx, gy, sx, sy, rd) ==> (r matches Ok(
                ok,
            ) && ok.0.0 as int == gx && ok.0.1 as int == gy && ok.0.2 as int == sx && ok.0.3
                as int == sy && ok.0.4 as int == rd && ok.1 as int == i + fig_header_scalars(
                gx,
                gy,
                sx,
                sy,
                rd,
            ).len()),
{
    let c1 = match eat_obj_gridincx(s, i) {
        Ok(j) => j,
        Err(e) => {
            proof {
                assert forall|gx: int, gy: int, sx: int, sy: int, rd: int| crate::num::abs_i(gx)
                    <= crate::point::COORD_LIMIT && crate::num::abs_i(gy)
                    <= crate::point::COORD_LIMIT && crate::num::abs_i(sx)
                    <= crate::point::COORD_LIMIT && crate::num::abs_i(sy)
                    <= crate::point::COORD_LIMIT && 0 <= rd <= u32::MAX
                    && #[trigger] fig_scalars_at(s@, i as int, gx, gy, sx, sy, rd) implies
                    false by {
                    lemma_fig_header_scalars(s@, i as int, gx, gy, sx, sy, rd);
                }
            }
            return Err(e);
        },
    };
    let rgx = match parse_i64(s, c1) {
        Ok(ok) => ok,
        Err(e) => {
            proof {
                assert forall|gx: int, gy: int, sx: int, sy: int, rd: int| crate::num::abs_i(gx)
                    <= crate::point::COORD_LIMIT && crate::num::abs_i(gy)
                    <= crate::point::COORD_LIMIT && crate::num::abs_i(sx)
                    <= crate::point::COORD_LIMIT && crate::num::abs_i(sy)
                    <= crate::point::COORD_LIMIT && 0 <= rd <= u32::MAX
                    && #[trigger] fig_scalars_at(s@, i as int, gx, gy, sx, sy, rd) implies
                    false by {
                    lemma_fig_header_scalars(s@, i as int, gx, gy, sx, sy, rd);
                }
            }
            return Err(e);
        },
    };
    let (gx, c2) = rgx;
    let c3 = match eat_comma_gridincy(s, c2) {
        Ok(j) => j,
        Err(e) => {
            proof {
                assert forall|gx0: int, gy: int, sx: int, sy: int, rd: int| crate::num::abs_i(
                    gx0,
                ) <= crate::point::COORD_LIMIT && crate::num::abs_i(gy)
                    <= crate::point::COORD_LIMIT && crate::num::abs_i(sx)
                    <= crate::point::COORD_LIMIT && crate::num::abs_i(sy)
                    <= crate::point::COORD_LIMIT && 0 <= rd <= u32::MAX
                    && #[trigger] fig_scalars_at(s@, i as int, gx0, gy, sx, sy, rd) implies
                    false by {
                    lemma_fig_header_scalars(s@, i as int, gx0, gy, sx, sy, rd);
                }
            }
            return Err(e);
        },
    };
    let rgy = match parse_i64(s, c3) {
        Ok(ok) => ok,
        Err(e) => {
            proof {
                assert forall|gx0: int, gy: int, sx: int, sy: int, rd: int| crate::num::abs_i(
                    gx0,
                ) <= crate::point::COORD_LIMIT && crate::num::abs_i(gy)
                    <= crate::point::COORD_LIMIT && crate::num::abs_i(sx)
                    <= crate::point::COORD_LIMIT && crate::num::abs_i(sy)
                    <= crate::point::COORD_LIMIT && 0 <= rd <= u32::MAX
                    && #[trigger] fig_scalars_at(s@, i as int, gx0, gy, sx, sy, rd) implies
                    false by {
                    lemma_fig_header_scalars(s@, i as int, gx0, gy, sx, sy, rd);
                }
            }
            return Err(e);
        },
    };
    let (gy, c4) = rgy;
    let c5 = match eat_comma_shiftx(s, c4) {
        Ok(j) => j,
        Err(e) => {
            proof {
                assert forall|gx0: int, gy0: int, sx: int, sy: int, rd: int| crate::num::abs_i(
                    gx0,
                ) <= crate::point::COORD_LIMIT && crate::num::abs_i(gy0)
                    <= crate::point::COORD_LIMIT && crate::num::abs_i(sx)
                    <= crate::point::COORD_LIMIT && crate::num::abs_i(sy)
                    <= crate::point::COORD_LIMIT && 0 <= rd <= u32::MAX
                    && #[trigger] fig_scalars_at(s@, i as int, gx0, gy0, sx, sy, rd) implies
                    false by {
                    lemma_fig_header_scalars(s@, i as int, gx0, gy0, sx, sy, rd);
                }
            }
            return Err(e);
        },
    };
    let rsx = match parse_i64(s, c5) {
        Ok(ok) => ok,
        Err(e) => {
            proof {
                assert forall|gx0: int, gy0: int, sx: int, sy: int, rd: int| crate::num::abs_i(
                    gx0,
                ) <= crate::point::COORD_LIMIT && crate::num::abs_i(gy0)
                    <= crate::point::COORD_LIMIT && crate::num::abs_i(sx)
                    <= crate::point::COORD_LIMIT && crate::num::abs_i(sy)
                    <= crate::point::COORD_LIMIT && 0 <= rd <= u32::MAX
                    && #[trigger] fig_scalars_at(s@, i as int, gx0, gy0, sx, sy, rd) implies
                    false by {
                    lemma_fig_header_scalars(s@, i as int, gx0, gy0, sx, sy, rd);
                }
            }
            return Err(e);
        },
    };
    let (sx, c6) = rsx;
    let c7 = match eat_comma_shifty(s, c6) {
        Ok(j) => j,
        Err(e) => {
            proof {
                assert forall|gx0: int, gy0: int, sx0: int, sy: int, rd: int| crate::num::abs_i(
                    gx0,
                ) <= crate::point::COORD_LIMIT && crate::num::abs_i(gy0)
                    <= crate::point::COORD_LIMIT && crate::num::abs_i(sx0)
                    <= crate::point::COORD_LIMIT && crate::num::abs_i(sy)
                    <= crate::point::COORD_LIMIT && 0 <= rd <= u32::MAX
                    && #[trigger] fig_scalars_at(s@, i as int, gx0, gy0, sx0, sy, rd) implies
                    false by {
                    lemma_fig_header_scalars(s@, i as int, gx0, gy0, sx0, sy, rd);
                }
            }
            return Err(e);
        },
    };
    let rsy = match parse_i64(s, c7) {
        Ok(ok) => ok,
        Err(e) => {
            proof {
                assert forall|gx0: int, gy0: int, sx0: int, sy: int, rd: int| crate::num::abs_i(
                    gx0,
                ) <= crate::point::COORD_LIMIT && crate::num::abs_i(gy0)
                    <= crate::point::COORD_LIMIT && crate::num::abs_i(sx0)
                    <= crate::point::COORD_LIMIT && crate::num::abs_i(sy)
                    <= crate::point::COORD_LIMIT && 0 <= rd <= u32::MAX
                    && #[trigger] fig_scalars_at(s@, i as int, gx0, gy0, sx0, sy, rd) implies
                    false by {
                    lemma_fig_header_scalars(s@, i as int, gx0, gy0, sx0, sy, rd);
                }
            }
            return Err(e);
        },
    };
    let (sy, c8) = rsy;
    let c9 = match eat_comma_rotdiv(s, c8) {
        Ok(j) => j,
        Err(e) => {
            proof {
                assert forall|gx0: int, gy0: int, sx0: int, sy0: int, rd: int| crate::num::abs_i(
                    gx0,
                ) <= crate::point::COORD_LIMIT && crate::num::abs_i(gy0)
                    <= crate::point::COORD_LIMIT && crate::num::abs_i(sx0)
                    <= crate::point::COORD_LIMIT && crate::num::abs_i(sy0)
                    <= crate::point::COORD_LIMIT && 0 <= rd <= u32::MAX
                    && #[trigger] fig_scalars_at(s@, i as int, gx0, gy0, sx0, sy0, rd) implies
                    false by {
                    lemma_fig_header_scalars(s@, i as int, gx0, gy0, sx0, sy0, rd);
                }
            }
            return Err(e);
        },
    };
    let rrd = match parse_u64(s, c9) {
        Ok(ok) => ok,
        Err(e) => {
            proof {
                assert forall|gx0: int, gy0: int, sx0: int, sy0: int, rd: int| crate::num::abs_i(
                    gx0,
                ) <= crate::point::COORD_LIMIT && crate::num::abs_i(gy0)
                    <= crate::point::COORD_LIMIT && crate::num::abs_i(sx0)
                    <= crate::point::COORD_LIMIT && crate::num::abs_i(sy0)
                    <= crate::point::COORD_LIMIT && 0 <= rd <= u32::MAX
                    && #[trigger] fig_scalars_at(s@, i as int, gx0, gy0, sx0, sy0, rd) implies
                    false by {
                    lemma_fig_header_scalars(s@, i as int, gx0, gy0, sx0, sy0, rd);
                }
            }
            return Err(e);
        },
    };
    let (rd, c10) = rrd;
    let bounded = gx >= -(crate::point::COORD_LIMIT) && gx <= crate::point::COORD_LIMIT && gy
        >= -(crate::point::COORD_LIMIT) && gy <= crate::point::COORD_LIMIT && sx
        >= -(crate::point::COORD_LIMIT) && sx <= crate::point::COORD_LIMIT && sy
        >= -(crate::point::COORD_LIMIT) && sy <= crate::point::COORD_LIMIT && rd
        <= 0xffff_ffffu64;
    if !bounded {
        proof {
            assert forall|gx0: int, gy0: int, sx0: int, sy0: int, rd0: int| crate::num::abs_i(
                gx0,
            ) <= crate::point::COORD_LIMIT && crate::num::abs_i(gy0)
                <= crate::point::COORD_LIMIT && crate::num::abs_i(sx0)
                <= crate::point::COORD_LIMIT && crate::num::abs_i(sy0)
                <= crate::point::COORD_LIMIT && 0 <= rd0 <= u32::MAX
                && #[trigger] fig_scalars_at(s@, i as int, gx0, gy0, sx0, sy0, rd0) implies
                false by {
                lemma_fig_header_scalars(s@, i as int, gx0, gy0, sx0, sy0, rd0);
            }
        }
        return Err(ParseError { at: i, kind: ParseIssue::InvalidFigure });
    }
    proof {
        lemma_subrange_concat(s@, i as int, c1 as int, c2 as int);
        lemma_subrange_concat(s@, i as int, c2 as int, c3 as int);
        lemma_subrange_concat(s@, i as int, c3 as int, c4 as int);
        lemma_subrange_concat(s@, i as int, c4 as int, c5 as int);
        lemma_subrange_concat(s@, i as int, c5 as int, c6 as int);
        lemma_subrange_concat(s@, i as int, c6 as int, c7 as int);
        lemma_subrange_concat(s@, i as int, c7 as int, c8 as int);
        lemma_subrange_concat(s@, i as int, c8 as int, c9 as int);
        lemma_subrange_concat(s@, i as int, c9 as int, c10 as int);
        assert(s@.subrange(i as int, c10 as int) =~= fig_header_scalars(
            gx as int,
            gy as int,
            sx as int,
            sy as int,
            rd as int,
        ));
        assert forall|gx0: int, gy0: int, sx0: int, sy0: int, rd0: int| crate::num::abs_i(gx0)
            <= crate::point::COORD_LIMIT && crate::num::abs_i(gy0) <= crate::point::COORD_LIMIT
            && crate::num::abs_i(sx0) <= crate::point::COORD_LIMIT && crate::num::abs_i(sy0)
            <= crate::point::COORD_LIMIT && 0 <= rd0 <= u32::MAX && #[trigger] fig_scalars_at(
            s@,
            i as int,
            gx0,
            gy0,
            sx0,
            sy0,
            rd0,
        ) implies gx as int == gx0 && gy as int == gy0 && sx as int == sx0 && sy as int == sy0
            && rd as int == rd0 && c10 as int == i + fig_header_scalars(
            gx0,
            gy0,
            sx0,
            sy0,
            rd0,
        ).len() by {
            lemma_fig_header_scalars(s@, i as int, gx0, gy0, sx0, sy0, rd0);
        }
    }
    Ok(((gx, gy, sx, sy, rd as u32), c10))
}


/// Split the full persisted form of a well-formed figure into the header,
/// the line array, and the closing bytes.
#[verifier::rlimit(100)]
proof fn lemma_figure_at_parts(s: Seq<u8>, f: TessellationFigure)
    requires
        f.wf(),
        s == json_figure(f),
    ensures
        ({
            let gx = f.gridincx as int;
            let gy = f.gridincy as int;
            let sx = f.shiftx as int;
            let sy = f.shifty as int;
            let rd = f.rotdiv as int;
            let rv = f.is_reversed;
            let sh = f.shape;
            let hlen = fig_header(gx, gy, sx, sy, rd, rv, sh).len() as int;
            &&& fig_scalars_at(s, 0, gx, gy, sx, sy, rd)
            &&& fig_header_at(s, 0, gx, gy, sx, sy, rd, rv, sh)
            &&& lines_items_at(s, hlen, f.lines@)
            &&& s.len() == hlen + json_lines_body(f.lines@).len() + 2
            &&& s[s.len() - 1] == 125
        }),
{
    let gx = f.gridincx as int;
    let gy = f.gridincy as int;
    let sx = f.shiftx as int;
    let sy = f.shifty as int;
    let rd = f.rotdiv as int;
    let rv = f.is_reversed;
    let sh = f.shape;
    let hlen = fig_header(gx, gy, sx, sy, rd, rv, sh).len() as int;
    let blen = json_lines_body(f.lines@).len() as int;
    let total = s.len() as int;
    assert(k_close_figure() =~= seq![93u8, 125u8]);
    assert(s.subrange(0, total) =~= s);
    assert(s.subrange(0, total) == fig_header(gx, gy, sx, sy, rd, rv, sh) + ((json_lines_body(
        f.lines@,
    ) + seq![93u8]) + seq![125u8])) by {
        assert(json_figure(f) =~= fig_header(gx, gy, sx, sy, rd, rv, sh) + ((json_lines_body(
            f.lines@,
        ) + seq![93u8]) + seq![125u8]));
    }
    lemma_subrange_unconcat(
        s,
        0,
        total,
        fig_header(gx, gy, sx, sy, rd, rv, sh),
        (json_lines_body(f.lines@) + seq![93u8]) + seq![125u8],
    );
    lemma_subrange_unconcat(
        s,
        hlen,
        total,
        json_lines_body(f.lines@) + seq![93u8],
        seq![125u8],
    );
    assert(s[total - 1] == 125) by {
        assert(s.subrange(hlen + blen + 1, total)[0] == s[hlen + blen + 1]);
    }
    assert(fig_header_at(s, 0, gx, gy, sx, sy, rd, rv, sh));
    lemma_fig_header_parts(s, 0, gx, gy, sx, sy, rd, rv, sh);
    assert(fig_scalars_at(s, 0, gx, gy, sx, sy, rd));
}



/// The selector-and-tag half of the header sits at `q` in `s`.
pub open spec fn fig_tail_at(s: Seq<u8>, q: int, rv: bool, sh: TessellationShape) -> bool {
    &&& q + fig_header_tail(rv, sh).len() <= s.len()
    &&& s.subrange(q, q + fig_header_tail(rv, sh).len()) == fig_header_tail(rv, sh)
}


/// The reversed-selector field sits at `q` in `s`.
pub open spec fn reversed_at(s: Seq<u8>, q: int, rv: bool) -> bool {
    &&& q + 12 + json_bool(rv).len() <= s.len()
    &&& s.subrange(q, q + 12 + json_bool(rv).len()) == k_comma_reversed() + json_bool(rv)
}

/// Read the reversed selector at `q`.
#[verifier::rlimit(60)]
fn parse_reversed(s: &[u8], q: usize) -> (r: Result<(bool, usize), ParseError>)
    requires
        q <= s@.len(),
    ensures
        r matches Ok(ok) ==> {
            &&& q < ok.1 <= s@.len()
            &&& s@.subrange(q as int, ok.1 as int) == k_comma_reversed() + json_bool(ok.0)
        },
        forall|rv0: bool|
            #[trigger] reversed_at(s@, q as int, rv0) ==> (r matches Ok(ok) && ok.0 == rv0
                && ok.1 as int == q + 12 + json_bool(rv0).len()),
{
    let c11 = match eat_comma_reversed(s, q) {
        Ok(j) => j,
        Err(e) => {
            proof {
                assert forall|rv0: bool| #[trigger] reversed_at(s@, q as int, rv0) implies
                    false by {
                    lemma_subrange_unconcat(
                        s@,
                        q as int,
                        q as int + 12 + json_bool(rv0).len(),
                        k_comma_reversed(),
                        json_bool(rv0),
                    );
                }
            }
            return Err(e);
        },
    };
    match eat_word_true(s, c11) {
        Ok(j) => {
            proof {
                assert forall|rv0: bool| #[trigger] reversed_at(s@, q as int, rv0) implies rv0
                    == true && j as int == q + 12 + json_bool(rv0).len() by {
                    lemma_subrange_unconcat(
                        s@,
                        q as int,
                        q as int + 12 + json_bool(rv0).len(),
                        k_comma_reversed(),
                        json_bool(rv0),
                    );
                    if !rv0 {
                        assert(s@.subrange(c11 as int, c11 + 5int) == k_word_false());
                        assert(s@[c11 as int] == k_word_false()[0]) by {
                            assert(s@.subrange(c11 as int, c11 + 5int)[0] == s@[c11 as int]);
                        }
                        assert(s@[c11 as int] == k_word_true()[0]) by {
                            assert(s@.subrange(c11 as int, c11 + 4int)[0] == s@[c11 as int]);
                        }
                        assert(false);
                    }
                }
            }
            Ok((true, j))
        },
        Err(_) => {
            match eat_word_false(s, c11) {
                Ok(j) => {
                    proof {
                        assert forall|rv0: bool| #[trigger] reversed_at(
                            s@,
                            q as int,
                            rv0,
                        ) implies rv0 == false && j as int == q + 12 + json_bool(rv0).len() by {
                            lemma_subrange_unconcat(
                                s@,
                                q as int,
                                q as int + 12 + json_bool(rv0).len(),
                                k_comma_reversed(),
                                json_bool(rv0),
                            );
                            if rv0 {
                                assert(s@.subrange(c11 as int, c11 + 4int) == k_word_true());
                                assert(s@[c11 as int] == k_word_true()[0]) by {
                                    assert(s@.subrange(c11 as int, c11 + 4int)[0] == s@[c11
                                        as int]);
                                }
                                assert(s@[c11 as int] == k_word_false()[0]) by {
                                    assert(s@.subrange(c11 as int, c11 + 5int)[0] == s@[c11
                                        as int]);
                                }
                                assert(false);
                            }
                        }
                    }
                    Ok((false, j))
                },
                Err(e) => {
                    proof {
                        assert forall|rv0: bool| #[trigger] reversed_at(
                            s@,
                            q as int,
                            rv0,
                        ) implies false by {
                            lemma_subrange_unconcat(
                                s@,
                                q as int,
                                q as int + 12 + json_bool(rv0).len(),
                                k_comma_reversed(),
                                json_bool(rv0),
                            );
                        }
                    }
                    Err(e)
                },
            }
        },
    }
}

/// The template tag and the opening of the line array sit at `p` in `s`.
pub open spec fn shape_tail_at(s: Seq<u8>, p: int, sh: TessellationShape) -> bool {
    &&& p + 22 <= s.len()
    &&& s.subrange(p, p + 22) == k_comma_shape() + seq![shape_letter(sh)] + k_quote_lines()
}

/// Read the template tag and the opening of the line array at `p`.
#[verifier::rlimit(60)]
fn parse_shape_tail(s: &[u8], p: usize) -> (r: Result<(TessellationShape, usize), ParseError>)
    requires
        p <= s@.len(),
    ensures
        r matches Ok(ok) ==> {
            &&& p < ok.1 <= s@.len()
            &&& s@.subrange(p as int, ok.1 as int) == k_comma_shape() + seq![shape_letter(ok.0)]
                + k_quote_lines()
        },
        forall|sh0: TessellationShape|
            #[trigger] shape_tail_at(s@, p as int, sh0) ==> (r matches Ok(ok) && ok.0 == sh0
                && ok.1 as int == p + 22),
{
    let n: usize = s.len();
    let c13 = match eat_comma_shape(s, p) {
        Ok(j) => j,
        Err(e) => {
            proof {
                assert forall|sh0: TessellationShape| #[trigger] shape_tail_at(
                    s@,
                    p as int,
                    sh0,
                ) implies false by {
                    lemma_shape_tail_parts(s@, p as int, sh0);
                }
            }
            return Err(e);
        },
    };
    if c13 >= n {
        proof {
            assert forall|sh0: TessellationShape| #[trigger] shape_tail_at(
                s@,
                p as int,
                sh0,
            ) implies false by {
                lemma_shape_tail_parts(s@, p as int, sh0);
            }
        }
        return Err(ParseError { at: n, kind: ParseIssue::EndOfInput });
    }
    let letter: u8 = s[c13];
    let sh: TessellationShape = if letter == 83 {
        TessellationShape::S
    } else if letter == 85 {
        TessellationShape::U
    } else if letter == 73 {
        TessellationShape::I
    } else if letter == 74 {
        TessellationShape::J
    } else {
        proof {
            assert forall|sh0: TessellationShape| #[trigger] shape_tail_at(
                s@,
                p as int,
                sh0,
            ) implies false by {
                lemma_shape_tail_parts(s@, p as int, sh0);
            }
        }
        return Err(ParseError { at: c13, kind: ParseIssue::UnexpectedByte });
    };
    let c14 = match eat_quote_lines(s, c13 + 1) {
        Ok(j) => j,
        Err(e) => {
            proof {
                assert forall|sh0: TessellationShape| #[trigger] shape_tail_at(
                    s@,
                    p as int,
                    sh0,
                ) implies false by {
                    lemma_shape_tail_parts(s@, p as int, sh0);
                }
            }
            return Err(e);
        },
    };
    proof {
        assert(s@.subrange(c13 as int, c13 + 1int) =~= seq![shape_letter(sh)]);
        lemma_subrange_concat(s@, p as int, c13 as int, c13 + 1int);
        lemma_subrange_concat(s@, p as int, c13 + 1int, c14 as int);
        assert(s@.subrange(p as int, c14 as int) =~= k_comma_shape() + seq![shape_letter(sh)]
            + k_quote_lines());
        assert forall|sh0: TessellationShape| #[trigger] shape_tail_at(
            s@,
            p as int,
            sh0,
        ) implies sh == sh0 && c14 as int == p + 22 by {
            lemma_shape_tail_parts(s@, p as int, sh0);
        }
    }
    Ok((sh, c14))
}

/// Split the tag-and-array-opening emission into its parts.
proof fn lemma_shape_tail_parts(s: Seq<u8>, p: int, sh: TessellationShape)
    requires
        0 <= p,
        shape_tail_at(s, p, sh),
    ensures
        s.subrange(p, p + 10) == k_comma_shape(),
        s[p + 10] == shape_letter(sh),
        s.subrange(p + 11, p + 22) == k_quote_lines(),
{
    assert(s.subrange(p, p + 22) =~= k_comma_shape() + (seq![shape_letter(sh)]
        + k_quote_lines()));
    lemma_subrange_unconcat(s, p, p + 22, k_comma_shape(), seq![shape_letter(sh)]
        + k_quote_lines());
    lemma_subrange_unconcat(s, p + 10, p + 22, seq![shape_letter(sh)], k_quote_lines());
    assert(s[p + 10] == s.subrange(p + 10, p + 11)[0]);
}

/// Read the traversal selector and template tag of the header at `q`.
#[verifier::rlimit(100)]
#[verifier::spinoff_prover]
fn parse_fig_tail(s: &[u8], q: usize) -> (r: Result<
    ((bool, TessellationShape), usize),
    ParseError,
>)
    requires
        q <= s@.len(),
    ensures
        r matches Ok(ok) ==> {
            &&& q < ok.1 <= s@.len()
            &&& s@.subrange(q as int, ok.1 as int) == fig_header_tail(ok.0.0, ok.0.1)
        },
        forall|rv0: bool, sh0: TessellationShape|
            #[trigger] fig_tail_at(s@, q as int, rv0, sh0) ==> (r matches Ok(ok) && ok.0.0 == rv0
                && ok.0.1 == sh0 && ok.1 as int == q + fig_header_tail(rv0, sh0).len()),
{
    let rvp = match parse_reversed(s, q) {
        Ok(ok) => ok,
        Err(e) => {
            proof {
                assert forall|rv0: bool, sh0: TessellationShape| #[trigger] fig_tail_at(
                    s@,
                    q as int,
                    rv0,
                    sh0,
                ) implies false by {
                    lemma_fig_tail_split(s@, q as int, rv0, sh0);
                }
            }
            return Err(e);
        },
    };
    let (rv, c12) = rvp;
    let shp = match parse_shape_tail(s, c12) {
        Ok(ok) => ok,
        Err(e) => {
            proof {
                assert forall|rv0: bool, sh0: TessellationShape| #[trigger] fig_tail_at(
                    s@,
                    q as int,
                    rv0,
                    sh0,
                ) implies false by {
                    lemma_fig_tail_split(s@, q as int, rv0, sh0);
                }
            }
            return Err(e);
        },
    };
    let (sh, c14) = shp;
    proof {
        lemma_subrange_concat(s@, q as int, c12 as int, c14 as int);
        assert(s@.subrange(q as int, c14 as int) =~= fig_header_tail(rv, sh));
        assert forall|rv0: bool, sh0: TessellationShape| #[trigger] fig_tail_at(
            s@,
            q as int,
            rv0,
            sh0,
        ) implies rv == rv0 && sh == sh0 && c14 as int == q + fig_header_tail(rv0, sh0).len() by {
            lemma_fig_tail_split(s@, q as int, rv0, sh0);
        }
    }
    Ok(((rv, sh), c14))
}

/// Split the tail emission into the selector and the tag parts.
proof fn lemma_fig_tail_split(s: Seq<u8>, q: int, rv: bool, sh: TessellationShape)
    requires
        0 <= q,
        fig_tail_at(s, q, rv, sh),
    ensures
        reversed_at(s, q, rv),
        shape_tail_at(s, q + 12 + json_bool(rv).len(), sh),
        fig_header_tail(rv, sh).len() == 34 + json_bool(rv).len(),
{
    let total = q + fig_header_tail(rv, sh).len() as int;
    assert(s.subrange(q, total) == (k_comma_reversed() + json_bool(rv)) + (k_comma_shape()
        + seq![shape_letter(sh)] + k_quote_lines())) by {
        assert(fig_header_tail(rv, sh) =~= (k_comma_reversed() + json_bool(rv)) + (
        k_comma_shape() + seq![shape_letter(sh)] + k_quote_lines()));
    }
    lemma_subrange_unconcat(
        s,
        q,
        total,
        k_comma_reversed() + json_bool(rv),
        k_comma_shape() + seq![shape_letter(sh)] + k_quote_lines(),
    );
}

/// Read the whole figure header at `i`.
#[verifier::rlimit(100)]
#[verifier::spinoff_prover]
fn parse_fig_header(s: &[u8], i: usize) -> (r: Result<
    ((i64, i64, i64, i64, u32, bool, TessellationShape), usize),
    ParseError,
>)
    requires
        i <= s@.len(),
    ensures
        r matches Ok(ok) ==> {
            &&& i < ok.1 <= s@.len()
            &&& s@.subrange(i as int, ok.1 as int) == fig_header(
                ok.0.0 as int,
                ok.0.1 as int,
                ok.0.2 as int,
                ok.0.3 as int,
                ok.0.4 as int,
                ok.0.5,
                ok.0.6,
            )
            &&& crate::num::abs_i(ok.0.0 as int) <= crate::point::COORD_LIMIT as int
            &&& crate::num::abs_i(ok.0.1 as int) <= crate::point::COORD_LIMIT as int
            &&& crate::num::abs_i(ok.0.2 as int) <= crate::point::COORD_LIMIT as int
            &&& crate::num::abs_i(ok.0.3 as int) <= crate::point::COORD_LIMIT as int
        },
        forall|gx0: int, gy0: int, sx0: int, sy0: int, rd0: int, rv0: bool, sh0:
            TessellationShape|
            crate::num::abs_i(gx0) <= crate::point::COORD_LIMIT && crate::num::abs_i(gy0)
                <= crate::point::COORD_LIMIT && crate::num::abs_i(sx0)
                <= crate::point::COORD_LIMIT && crate::num::abs_i(sy0)
                <= crate::point::COORD_LIMIT && 0 <= rd0 <= u32::MAX
                && #[trigger] fig_header_at(s@, i as int, gx0, gy0, sx0, sy0, rd0, rv0, sh0)
                ==> (r matches Ok(ok) && ok.0.0 as int == gx0 && ok.0.1 as int == gy0 && ok.0.2
                as int == sx0 && ok.0.3 as int == sy0 && ok.0.4 as int == rd0 && ok.0.5 == rv0
                && ok.0.6 == sh0 && ok.1 as int == i + fig_header(
                gx0,
                gy0,
                sx0,
                sy0,
                rd0,
                rv0,
                sh0,
            ).len()),
{
    let sc = match parse_fig_scalars(s, i) {
        Ok(ok) => ok,
        Err(e) => {
            proof {
                assert forall|gx0: int, gy0: int, sx0: int, sy0: int, rd0: int, rv0: bool, sh0:
                    TessellationShape| crate::num::abs_i(gx0) <= crate::point::COORD_LIMIT
                    && crate::num::abs_i(gy0) <= crate::point::COORD_LIMIT && crate::num::abs_i(
                    sx0,
                ) <= crate::point::COORD_LIMIT && crate::num::abs_i(sy0)
                    <= crate::point::COORD_LIMIT && 0 <= rd0 <= u32::MAX
                    && #[trigger] fig_header_at(
                    s@,
                    i as int,
                    gx0,
                    gy0,
                    sx0,
                    sy0,
                    rd0,
                    rv0,
                    sh0,
                ) implies false by {
                    lemma_fig_header_parts(s@, i as int, gx0, gy0, sx0, sy0, rd0, rv0, sh0);
                    assert(fig_scalars_at(s@, i as int, gx0, gy0, sx0, sy0, rd0));
                }
            }
            return Err(e);
        },
    };
    let ((gx, gy, sx, sy, rd), c10) = sc;
    let tl = match parse_fig_tail(s, c10) {
        Ok(ok) => ok,
        Err(e) => {
            proof {
                assert forall|gx0: int, gy0: int, sx0: int, sy0: int, rd0: int, rv0: bool, sh0:
                    TessellationShape| crate::num::abs_i(gx0) <= crate::point::COORD_LIMIT
                    && crate::num::abs_i(gy0) <= crate::point::COORD_LIMIT && crate::num::abs_i(
                    sx0,
                ) <= crate::point::COORD_LIMIT && crate::num::abs_i(sy0)
                    <= crate::point::COORD_LIMIT && 0 <= rd0 <= u32::MAX
                    && #[trigger] fig_header_at(
                    s@,
                    i as int,
                    gx0,
                    gy0,
                    sx0,
                    sy0,
                    rd0,
                    rv0,
                    sh0,
                ) implies false by {
                    lemma_fig_header_parts(s@, i as int, gx0, gy0, sx0, sy0, rd0, rv0, sh0);
                    assert(fig_scalars_at(s@, i as int, gx0, gy0, sx0, sy0, rd0));
                    assert(fig_tail_at(
                        s@,
                        i as int + fig_header_scalars(gx0, gy0, sx0, sy0, rd0).len(),
                        rv0,
                        sh0,
                    ));
                }
            }
            return Err(e);
        },
    };
    let ((rv, sh), c14) = tl;
    proof {
        lemma_subrange_concat(s@, i as int, c10 as int, c14 as int);
        assert(s@.subrange(i as int, c14 as int) =~= fig_header(
            gx as int,
            gy as int,
            sx as int,
            sy as int,
            rd as int,
            rv,
            sh,
        ));
        assert forall|gx0: int, gy0: int, sx0: int, sy0: int, rd0: int, rv0: bool, sh0:
            TessellationShape| crate::num::abs_i(gx0) <= crate::point::COORD_LIMIT
            && crate::num::abs_i(gy0) <= crate::point::COORD_LIMIT && crate::num::abs_i(sx0)
            <= crate::point::COORD_LIMIT && crate::num::abs_i(sy0) <= crate::point::COORD_LIMIT
            && 0 <= rd0 <= u32::MAX && #[trigger] fig_header_at(
            s@,
            i as int,
            gx0,
            gy0,
            sx0,
            sy0,
            rd0,
            rv0,
            sh0,
        ) implies gx as int == gx0 && gy as int == gy0 && sx as int == sx0 && sy as int == sy0
            && rd as int == rd0 && rv == rv0 && sh == sh0 && c14 as int == i + fig_header(
            gx0,
            gy0,
            sx0,
            sy0,
            rd0,
            rv0,
            sh0,
        ).len() by {
            lemma_fig_header_parts(s@, i as int, gx0, gy0, sx0, sy0, rd0, rv0, sh0);
            assert(fig_scalars_at(s@, i as int, gx0, gy0, sx0, sy0, rd0));
            assert(fig_tail_at(
                s@,
                i as int + fig_header_scalars(gx0, gy0, sx0, sy0, rd0).len(),
                rv0,
                sh0,
            ));
        }
    }
    Ok(((gx, gy, sx, sy, rd, rv, sh), c14))
}

impl TessellationFigure {
    /// Read a figure from its persisted JSON form.  The reader accepts
    /// exactly the canonical persisted form of a well-formed figure:
    /// whatever it accepts is well-formed and re-serializes to the very
    /// same bytes, and the persisted form of every well-formed figure is
    /// read back with the same line models and lattice parameters.
    #[verifier::rlimit(100)]
    #[verifier::spinoff_prover]
    pub fn from_json(s: &[u8]) -> (r: Result<TessellationFigure, ParseError>)
        ensures
            r matches Ok(g) ==> g.wf() && s@ == json_figure(g),
            forall|f: TessellationFigure|
                f.wf() && s@ == #[trigger] json_figure(f) ==> (r matches Ok(g)
                    && crate::figure::lines_match(g.lines@, f.lines@)
                    && crate::figure::fig_scalars_eq(g, f)),
    {
        let n: usize = s.len();
        let hd = match parse_fig_header(s, 0) {
            Ok(ok) => ok,
            Err(e) => {
                proof {
                    assert forall|f: TessellationFigure| f.wf() && s@ == #[trigger] json_figure(
                        f,
                    ) implies false by {
                        lemma_figure_at_parts(s@, f);
                    }
                }
                return Err(e);
            },
        };
        let ((gx, gy, sx, sy, rd, rv, sh), c14) = hd;
        proof {
            assert forall|f: TessellationFigure| f.wf() && s@ == #[trigger] json_figure(
                f,
            ) implies gx as int == f.gridincx as int && gy as int == f.gridincy as int && sx
                as int == f.shiftx as int && sy as int == f.shifty as int && rd as int
                == f.rotdiv as int && rv == f.is_reversed && sh == f.shape && lines_items_at(
                s@,
                c14 as int,
                f.lines@,
            ) by {
                lemma_figure_at_parts(s@, f);
            }
        }
        let li = match parse_lines_items(s, c14) {
            Ok(ok) => ok,
            Err(e) => {
                proof {
                    assert forall|f: TessellationFigure| f.wf() && s@ == #[trigger] json_figure(
                        f,
                    ) implies false by {
                        assert(forall|k: int|
                            0 <= k < f.lines@.len() ==> (#[trigger] f.lines@[k]).wf());
                        assert(forall|k: int|
                            0 <= k < f.lines@.len() ==> (#[trigger] f.lines@[k]).points@.len()
                                >= 2);
                    }
                }
                return Err(e);
            },
        };
        let (lines, c15) = li;
        if !(c15 < n && s[c15] == 125 && c15 + 1 == n) {
            proof {
                assert forall|f: TessellationFigure| f.wf() && s@ == #[trigger] json_figure(
                    f,
                ) implies false by {
                    lemma_figure_at_parts(s@, f);
                    assert(forall|k: int|
                        0 <= k < f.lines@.len() ==> (#[trigger] f.lines@[k]).wf());
                    assert(forall|k: int|
                        0 <= k < f.lines@.len() ==> (#[trigger] f.lines@[k]).points@.len() >= 2);
                    lemma_lines_body_congruent(lines@, f.lines@);
                }
            }
            return Err(ParseError { at: c15, kind: ParseIssue::UnexpectedByte });
        }
        let g = TessellationFigure {
            lines,
            gridincx: gx,
            gridincy: gy,
            shiftx: sx,
            shifty: sy,
            rotdiv: rd,
            is_reversed: rv,
            shape: sh,
        };
        proof {
            lemma_subrange_concat(s@, 0, c14 as int, c15 as int);
            assert(s@.subrange(c15 as int, c15 + 1int) =~= seq![125u8]);
            lemma_subrange_concat(s@, 0, c15 as int, c15 + 1int);
            assert(k_close_figure() =~= seq![93u8, 125u8]);
            assert(s@.subrange(0, n as int) =~= s@);
            assert(s@ =~= json_figure(g));
            assert forall|f: TessellationFigure| f.wf() && s@ == #[trigger] json_figure(
                f,
            ) implies crate::figure::lines_match(g.lines@, f.lines@)
                && crate::figure::fig_scalars_eq(g, f) by {
                assert(forall|k: int| 0 <= k < f.lines@.len() ==> (#[trigger] f.lines@[k]).wf());
                assert(forall|k: int|
                    0 <= k < f.lines@.len() ==> (#[trigger] f.lines@[k]).points@.len() >= 2);
            }
        }
        Ok(g)
    }
}

} // verus!
