//! The pencil: freehand drawing.

use crate::canvas::{lines_view, Drawpoint, Rgba};
use crate::geometry::Point;
use vstd::prelude::*;

verus! {

/// Basic tool to create lines.  On each active sample it appends one new
/// point to the last stroke of the current page; the gesture start (pointer
/// down) has already pushed a fresh empty stroke, the pencil never creates
/// strokes itself.
pub struct Pencil {}

impl Pencil {
    pub fn new() -> (t: Pencil) {
        Pencil {}
    }

    /// Append `Drawpoint(position, pen_size, rgba)` to the last stroke while
    /// the pen is active; do nothing otherwise.
    pub fn manipulate(
        &self,
        lines: &mut Vec<Vec<Drawpoint>>,
        position: Point,
        pen_size: i64,
        pen_is_active: bool,
        rgba: Rgba,
    )
        requires
            pen_is_active ==> old(lines).len() > 0,
        ensures
            pen_is_active ==> lines_view(*final(lines)) == lines_view(*old(lines)).update(
                old(lines)@.len() - 1,
                lines_view(*old(lines)).last().push(
                    Drawpoint { position, line_width: pen_size, rgba },
                ),
            ),
            !pen_is_active ==> *final(lines) == *old(lines),
    {
        if pen_is_active {
            let n = lines.len();
            let last = &mut lines[n - 1];
            last.push(Drawpoint::new(position, pen_size, rgba));
            proof {
                assert(lines_view(*lines) =~~= lines_view(*old(lines)).update(
                    old(lines)@.len() - 1,
                    lines_view(*old(lines)).last().push(
                        Drawpoint { position, line_width: pen_size, rgba },
                    ),
                ));
            }
        }
    }
}

} // verus!
