//! A verified core for designing one tile of a periodic, edge-to-edge
//! tessellation and repeating it across a plane.
//!
//! Geometry is carried out exactly, in fixed-point units of one millionth of a
//! world unit, so every contract in this crate speaks about the precise
//! integers a caller receives.  The crate covers the edge/correspondence
//! model (`TessellationLine`), the figure boundary composer
//! (`TessellationFigure`), point and segment hit-testing and editing, the
//! lattice grid generator (`TessellationPlane`), the persisted JSON layout,
//! and the editing-session state machine.  Rendering and input devices are
//! the caller's concern.

mod num;
mod point;
mod transform;
mod line;
mod shape;
mod figure;
mod presets;
mod plane;
mod session;
mod laws;
mod closure;
mod persist;
mod restore;

pub use num::SCALE;
pub use point::{Point, COORD_LIMIT};
pub use transform::{Rotation, Transform};
pub use line::{breakline, distance, hit, PointIndexPath, TessellationLine, HIT_INPUT_LIMIT};
pub use shape::TessellationShape;
pub use figure::TessellationFigure;
pub use plane::TessellationPlane;
pub use session::{EditEvent, EditSession, EditState};
pub use laws::{lemma_corrp_update_identity, lemma_insert_then_hitpoint, lemma_reversal_keeps_point_multiset, lemma_same_model_same_boundary};
pub use persist::{dec_i, dec_u, json_figure, json_line, json_point};
pub use restore::{ParseError, ParseIssue};
pub use closure::{is_closed_loop, near, lemma_brick_closure, lemma_diamond_closure, lemma_hexagon_closure, lemma_square90_closure, lemma_square_closure, lemma_triangle_closure, CLOSURE_TOL};
