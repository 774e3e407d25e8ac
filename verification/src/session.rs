//! The editing session: an explicit interaction state machine owned by
//! the caller.  Discrete input events drive the transitions, and the
//! figure is mutated only inside the transition handler — never from
//! input callbacks directly.  Positions are in figure-local coordinates;
//! mapping from device space is the caller's concern.

use crate::figure::{
    fig_inserted, fig_updated, lemma_fig_hitline_bounds, lemma_fig_hitpoint_bounds,
    lemma_fig_lens, TessellationFigure,
};
use crate::line::PointIndexPath;
use crate::num::abs_i;
use crate::point::{Point, COORD_LIMIT};
use vstd::prelude::*;

verus! {

/// One discrete input event, in figure-local coordinates.
#[derive(Clone, Copy, Debug, PartialEq, Eq, Structural)]
pub enum EditEvent {
    Press(Point),
    Move(Point),
    Release,
}

/// What the session currently holds.
#[derive(Clone, Copy, Debug, PartialEq, Eq, Structural)]
pub enum EditState {
    Idle,
    PointSelected(PointIndexPath),
    Dragging(PointIndexPath, Point),
}

/// One editing session over one figure.
#[derive(Clone, Copy, Debug)]
pub struct EditSession {
    pub state: EditState,
}

impl EditSession {
    /// Any path the session holds addresses an existing point of `f`.
    pub open spec fn consistent_with(self, f: TessellationFigure) -> bool {
        match self.state {
            EditState::Idle => true,
            EditState::PointSelected(path) => f.path_in_bounds(path),
            EditState::Dragging(path, _) => f.path_in_bounds(path),
        }
    }

    /// A fresh session holding nothing.
    pub fn new() -> (s: EditSession)
        ensures
            s.state == EditState::Idle,
    {
        EditSession { state: EditState::Idle }
    }

    /// Feed one event into the session.  A press selects the interior
    /// point under the cursor, or breaks the segment under the cursor and
    /// selects the new point, or selects nothing; a move drags the
    /// selected point; a release lets go.
    pub fn step(&mut self, figure: &mut TessellationFigure, event: EditEvent, tol: i64)
        requires
            old(figure).wf(),
            old(self).consistent_with(*old(figure)),
            0 <= tol <= COORD_LIMIT,
            match event {
                EditEvent::Press(p) => p.within(COORD_LIMIT as int),
                EditEvent::Move(p) => p.within(COORD_LIMIT as int),
                EditEvent::Release => true,
            },
        ensures
            final(figure).wf(),
            final(self).consistent_with(*final(figure)),
            match event {
                EditEvent::Press(p) => {
                    match old(figure).hitpoints_s(p, tol as int) {
                        Some(h) => *final(figure) == *old(figure) && final(self).state
                            == EditState::PointSelected(h),
                        None => {
                            match old(figure).hitline_s(p, tol as int) {
                                Some(h) => fig_inserted(*old(figure), *final(figure), h, p)
                                    && final(self).state == EditState::PointSelected(
                                    PointIndexPath {
                                        line_index: h.line_index,
                                        point_index: (h.point_index + 1) as usize,
                                        corrp: h.corrp,
                                    },
                                ),
                                None => *final(figure) == *old(figure) && final(self).state
                                    == EditState::Idle,
                            }
                        },
                    }
                },
                EditEvent::Move(p) => {
                    match old(self).state {
                        EditState::Idle => *final(figure) == *old(figure) && final(self).state
                            == EditState::Idle,
                        EditState::PointSelected(h) => fig_updated(
                            *old(figure),
                            *final(figure),
                            h,
                            p,
                        ) && final(self).state == EditState::Dragging(h, p),
                        EditState::Dragging(h, _) => fig_updated(*old(figure), *final(figure), h, p)
                            && final(self).state == EditState::Dragging(h, p),
                    }
                },
                EditEvent::Release => *final(figure) == *old(figure) && final(self).state
                    == EditState::Idle,
            },
    {
        match event {
            EditEvent::Press(p) => {
                match figure.hitpoints(p, tol) {
                    Some(h) => {
                        proof {
                            lemma_fig_lens(*figure);
                            lemma_fig_hitpoint_bounds(figure.lines@, p, tol as int, 0, h);
                        }
                        self.state = EditState::PointSelected(h);
                    },
                    None => {
                        match figure.hitline(p, tol) {
                            Some(h) => {
                                proof {
                                    lemma_fig_lens(*figure);
                                    lemma_fig_hitline_bounds(figure.lines@, p, tol as int, 0, h);
                                }
                                figure.insert(h, p);
                                self.state = EditState::PointSelected(
                                    PointIndexPath {
                                        line_index: h.line_index,
                                        point_index: h.point_index + 1,
                                        corrp: h.corrp,
                                    },
                                );
                            },
                            None => {
                                self.state = EditState::Idle;
                            },
                        }
                    },
                }
            },
            EditEvent::Move(p) => {
                match self.state {
                    EditState::Idle => {
                    },
                    EditState::PointSelected(h) => {
                        figure.update(h, p);
                        self.state = EditState::Dragging(h, p);
                    },
                    EditState::Dragging(h, _) => {
                        figure.update(h, p);
                        self.state = EditState::Dragging(h, p);
                    },
                }
            },
            EditEvent::Release => {
                self.state = EditState::Idle;
            },
        }
    }
}

} // verus!
