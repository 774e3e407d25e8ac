//! The stateless lattice generator: rows of placement points covering a
//! viewport plus a two-period margin on every side, with the row stagger
//! and wrap adjustment that lets non-orthogonal bases tile correctly.

use crate::figure::TessellationFigure;
use crate::num::{div_exec, div_trunc, SCALE};
use crate::point::{Point, COORD_LIMIT};
use vstd::prelude::*;

verus! {

/// The stateless lattice generator; holds no data.
#[derive(Clone, Copy, Debug)]
pub struct TessellationPlane {}

/// One row of the lattice: columns emitted from just past `sx` up to one
/// step past `maxx`, stepping by `igx`.
pub open spec fn grid_row(sx: int, sy: int, maxx: int, igx: int) -> Seq<Point>
    decreases maxx + igx - sx,
{
    if igx < 1 || sx > maxx {
        Seq::empty()
    } else {
        seq![Point { x: (sx + igx) as i64, y: sy as i64 }] + grid_row(sx + igx, sy, maxx, igx)
    }
}

/// The rows of the lattice: the row start advances by `shx` per row and
/// wraps by one column period when it passes `-igx`, additionally lowering
/// the vertical bound by `shy` on each wrap.
pub open spec fn grid_rows(
    minx: int,
    miny: int,
    maxx: int,
    maxy: int,
    igx: int,
    igy: int,
    shx: int,
    shy: int,
) -> Seq<Seq<Point>>
    decreases
            (if miny > maxy {
                0int
            } else {
                maxy + igy - miny
            }),
{
    if igy < 1 || shy < 0 || miny > maxy {
        Seq::empty()
    } else {
        let row = grid_row(minx, miny, maxx, igx);
        let minx2 = minx + shx;
        let wrap = minx2 > -igx;
        seq![row] + grid_rows(
            if wrap {
                minx2 - igx
            } else {
                minx2
            },
            miny + igy,
            maxx,
            if wrap {
                maxy - shy
            } else {
                maxy
            },
            igx,
            igy,
            shx,
            shy,
        )
    }
}

impl TessellationPlane {
    /// The scaled horizontal lattice period of a figure.
    pub open spec fn step_x(figure: TessellationFigure, scale: int) -> int {
        div_trunc(scale * figure.gridincx, SCALE as int)
    }

    /// The scaled vertical lattice period of a figure.
    pub open spec fn step_y(figure: TessellationFigure, scale: int) -> int {
        div_trunc(scale * figure.gridincy, SCALE as int)
    }

    /// The scaled row stagger of a figure.
    pub open spec fn stagger_x(figure: TessellationFigure, scale: int) -> int {
        div_trunc(scale * figure.shiftx, SCALE as int)
    }

    /// The scaled wrap adjustment of a figure.
    pub open spec fn stagger_y(figure: TessellationFigure, scale: int) -> int {
        div_trunc(scale * figure.shifty, SCALE as int)
    }

    /// The whole lattice for a viewport: row starts at twice the vertical
    /// period above the viewport and rows advance while within one period
    /// below it; columns likewise with a two-period margin.
    pub open spec fn grid_s(
        figure: TessellationFigure,
        width: int,
        height: int,
        scale: int,
    ) -> Seq<Seq<Point>> {
        let igx = Self::step_x(figure, scale);
        let igy = Self::step_y(figure, scale);
        grid_rows(
            -2 * igx,
            -2 * igy,
            width + igx,
            height + igy,
            igx,
            igy,
            Self::stagger_x(figure, scale),
            Self::stagger_y(figure, scale),
        )
    }

    /// Generate the grid of placement points for `figure` covering the
    /// viewport `[0, width] x [0, height]` at `scale`, plus a two-period
    /// margin on every side.
    pub fn grid(
        &self,
        figure: &TessellationFigure,
        width: i64,
        height: i64,
        scale: i64,
    ) -> (grid: Vec<Vec<Point>>)
        requires
            figure.wf(),
            0 <= width <= COORD_LIMIT,
            0 <= height <= COORD_LIMIT,
            1 <= scale <= COORD_LIMIT,
            1 <= Self::step_x(*figure, scale as int),
            1 <= Self::step_y(*figure, scale as int),
            0 <= Self::stagger_x(*figure, scale as int) <= Self::step_x(*figure, scale as int),
            0 <= Self::stagger_y(*figure, scale as int) <= Self::step_y(*figure, scale as int),
        ensures
            grid@.len() == Self::grid_s(*figure, width as int, height as int, scale as int).len(),
            forall|i: int|
                0 <= i < grid@.len() ==> #[trigger] grid@[i]@ == Self::grid_s(
                    *figure,
                    width as int,
                    height as int,
                    scale as int,
                )[i],
    {
        let ghost full = Self::grid_s(*figure, width as int, height as int, scale as int);
        proof {
            assert(crate::num::abs_i(scale as int * figure.gridincx as int)
                <= 1_000_000_000_000_000_000 && crate::num::abs_i(
                scale as int * figure.gridincy as int,
            ) <= 1_000_000_000_000_000_000 && crate::num::abs_i(
                scale as int * figure.shiftx as int,
            ) <= 1_000_000_000_000_000_000 && crate::num::abs_i(
                scale as int * figure.shifty as int,
            ) <= 1_000_000_000_000_000_000) by (nonlinear_arith)
                requires
                    1 <= scale as int <= 1_000_000_000,
                    crate::num::abs_i(figure.gridincx as int) <= 1_000_000_000,
                    crate::num::abs_i(figure.gridincy as int) <= 1_000_000_000,
                    crate::num::abs_i(figure.shiftx as int) <= 1_000_000_000,
                    crate::num::abs_i(figure.shifty as int) <= 1_000_000_000,
            ;
            crate::num::lemma_div_trunc_bound(
                scale as int * figure.gridincx as int,
                SCALE as int,
                1_000_000_000_000_000_000,
            );
            crate::num::lemma_div_trunc_bound(
                scale as int * figure.gridincy as int,
                SCALE as int,
                1_000_000_000_000_000_000,
            );
            crate::num::lemma_div_trunc_bound(
                scale as int * figure.shiftx as int,
                SCALE as int,
                1_000_000_000_000_000_000,
            );
            crate::num::lemma_div_trunc_bound(
                scale as int * figure.shifty as int,
                SCALE as int,
                1_000_000_000_000_000_000,
            );
        }
        let igx: i64 = div_exec(scale * figure.gridincx, SCALE);
        let igy: i64 = div_exec(scale * figure.gridincy, SCALE);
        let shx: i64 = div_exec(scale * figure.shiftx, SCALE);
        let shy: i64 = div_exec(scale * figure.shifty, SCALE);
        let maxx: i64 = width + igx;
        let mut maxy: i64 = height + igy;
        let mut minx: i64 = -2 * igx;
        let mut miny: i64 = -2 * igy;
        let mut out: Vec<Vec<Point>> = Vec::new();
        while miny <= maxy
            invariant
                1 <= igx <= 1_000_000_000_000,
                1 <= igy <= 1_000_000_000_000,
                0 <= shx <= igx,
                0 <= shy <= igy,
                maxx == width + igx,
                0 <= width <= COORD_LIMIT,
                0 <= height <= COORD_LIMIT,
                -2 * igx <= minx <= 0,
                -2 * igy <= miny,
                miny <= height + 2 * igy,
                maxy <= height + igy,
                maxy >= miny - igy - shy,
                full == Seq::new(out@.len() as nat, |i: int| out@[i]@) + grid_rows(
                    minx as int,
                    miny as int,
                    maxx as int,
                    maxy as int,
                    igx as int,
                    igy as int,
                    shx as int,
                    shy as int,
                ),
            decreases
                    (if miny <= maxy {
                        maxy + igy - miny
                    } else {
                        0int
                    }),
        {
            let sy: i64 = miny;
            let mut sx: i64 = minx;
            let mut row: Vec<Point> = Vec::new();
            while sx <= maxx
                invariant
                    1 <= igx <= 1_000_000_000_000,
                    1 <= igy <= 1_000_000_000_000,
                    0 <= shy <= igy,
                    maxx == width + igx,
                    0 <= width <= COORD_LIMIT,
                    0 <= height <= COORD_LIMIT,
                    -2 * igx <= minx <= 0,
                    minx <= sx <= maxx + igx,
                    miny <= maxy,
                    maxy <= height + igy,
                    -2 * igy <= miny,
                    grid_row(minx as int, sy as int, maxx as int, igx as int) == row@ + grid_row(
                        sx as int,
                        sy as int,
                        maxx as int,
                        igx as int,
                    ),
                decreases maxx + igx - sx,
            {
                sx = sx + igx;
                row.push(Point { x: sx, y: sy });
                proof {
                    assert(row@ == (row@.drop_last()).push(Point { x: sx, y: sy }));
                    assert((row@.drop_last()).push(Point { x: sx, y: sy }) + grid_row(
                        sx as int,
                        sy as int,
                        maxx as int,
                        igx as int,
                    ) =~= row@.drop_last() + (seq![Point { x: sx, y: sy }] + grid_row(
                        sx as int,
                        sy as int,
                        maxx as int,
                        igx as int,
                    )));
                }
            }
            out.push(row);
            minx = minx + shx;
            miny = miny + igy;
            if minx > -igx {
                minx = minx - igx;
                maxy = maxy - shy;
            }
            proof {
                assert(Seq::new(out@.len() as nat, |i: int| out@[i]@) =~= Seq::new(
                    (out@.len() - 1) as nat,
                    |i: int| out@[i]@,
                ).push(row@));
                assert(Seq::new((out@.len() - 1) as nat, |i: int| out@[i]@).push(row@)
                    + grid_rows(
                    minx as int,
                    miny as int,
                    maxx as int,
                    maxy as int,
                    igx as int,
                    igy as int,
                    shx as int,
                    shy as int,
                ) =~= Seq::new((out@.len() - 1) as nat, |i: int| out@[i]@) + (seq![row@]
                    + grid_rows(
                    minx as int,
                    miny as int,
                    maxx as int,
                    maxy as int,
                    igx as int,
                    igy as int,
                    shx as int,
                    shy as int,
                )));
            }
        }
        proof {
            assert(full =~= Seq::new(out@.len() as nat, |i: int| out@[i]@));
        }
        out
    }
}

} // verus!
