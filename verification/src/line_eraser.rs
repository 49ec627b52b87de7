//! The line eraser: removes whole strokes on contact.

use crate::canvas::{clone_stroke, lines_in_bounds, lines_view, Drawpoint};
use crate::geometry::{in_bounds, is_within_reach, within_reach, Point, MAX_COORD};
use vstd::prelude::*;

verus! {

/// Whether some point of the stroke is within erasing reach of the pointer.
pub open spec fn stroke_hit(stroke: Seq<Drawpoint>, position: Point, pen_size: i64) -> bool {
    exists|j: int| 0 <= j < stroke.len() && within_reach(stroke[j].position, position, pen_size)
}

/// The strokes that survive one line-eraser sample, in their original
/// order: every stroke without a point within reach.
pub open spec fn retain_missed(
    lines: Seq<Seq<Drawpoint>>,
    position: Point,
    pen_size: i64,
) -> Seq<Seq<Drawpoint>>
    decreases lines.len(),
{
    if lines.len() == 0 {
        Seq::empty()
    } else {
        let front = retain_missed(lines.drop_last(), position, pen_size);
        if stroke_hit(lines.last(), position, pen_size) {
            front
        } else {
            front.push(lines.last())
        }
    }
}

/// `stroke_hit`, decided by scanning the stroke.
pub fn stroke_has_point_within(stroke: &Vec<Drawpoint>, position: Point, pen_size: i64) -> (r:
    bool)
    requires
        forall|j: int| 0 <= j < stroke@.len() ==> in_bounds(#[trigger] stroke@[j].position),
        in_bounds(position),
        0 <= pen_size <= MAX_COORD,
    ensures
        r == stroke_hit(stroke@, position, pen_size),
{
    let mut j: usize = 0;
    while j < stroke.len()
        invariant
            j <= stroke@.len(),
            forall|k: int| 0 <= k < stroke@.len() ==> in_bounds(#[trigger] stroke@[k].position),
            in_bounds(position),
            0 <= pen_size <= MAX_COORD,
            forall|k: int| 0 <= k < j ==> !within_reach(stroke@[k].position, position, pen_size),
        decreases stroke@.len() - j,
    {
        if is_within_reach(stroke[j].position, position, pen_size) {
            return true;
        }
        j += 1;
    }
    false
}

/// Erases whole strokes on contact with the tool.
pub struct LineEraser {}

impl LineEraser {
    pub fn new() -> (t: LineEraser) {
        LineEraser {}
    }

    /// On an active sample, remove every stroke that has at least one point
    /// within `pen_size` of `position`, keeping the rest in order.
    pub fn manipulate(
        &self,
        lines: &mut Vec<Vec<Drawpoint>>,
        position: Point,
        pen_size: i64,
        pen_is_active: bool,
    )
        requires
            lines_in_bounds(lines_view(*old(lines))),
            in_bounds(position),
            0 <= pen_size <= MAX_COORD,
        ensures
            pen_is_active ==> lines_view(*final(lines)) == retain_missed(
                lines_view(*old(lines)),
                position,
                pen_size,
            ),
            !pen_is_active ==> *final(lines) == *old(lines),
    {
        if pen_is_active {
            let ghost all = lines_view(*lines);
            let mut kept: Vec<Vec<Drawpoint>> = Vec::new();
            let mut i: usize = 0;
            proof {
                assert(all.take(0) =~= Seq::<Seq<Drawpoint>>::empty());
            }
            while i < lines.len()
                invariant
                    i <= lines.len(),
                    all == lines_view(*lines),
                    lines_in_bounds(all),
                    in_bounds(position),
                    0 <= pen_size <= MAX_COORD,
                    lines_view(kept) == retain_missed(all.take(i as int), position, pen_size),
                decreases lines.len() - i,
            {
                let stroke = &lines[i];
                proof {
                    assert(stroke@ == all[i as int]);
                    assert(forall|k: int|
                        0 <= k < stroke@.len() ==> in_bounds(#[trigger] stroke@[k].position));
                }
                let hit = stroke_has_point_within(stroke, position, pen_size);
                let ghost prev_kept = kept@;
                if !hit {
                    kept.push(clone_stroke(stroke));
                }
                i += 1;
                proof {
                    assert(all.take(i as int).drop_last() =~= all.take(i - 1));
                    assert(all.take(i as int).last() == all[i - 1]);
                    if !hit {
                        assert(kept@ == prev_kept.push(kept@.last()));
                        assert(prev_kept.map_values(|t: Vec<Drawpoint>| t@).len() == prev_kept.len());
                        assert(lines_view(kept) =~~= retain_missed(
                            all.take(i as int),
                            position,
                            pen_size,
                        ));
                    } else {
                        assert(lines_view(kept) =~~= retain_missed(
                            all.take(i as int),
                            position,
                            pen_size,
                        ));
                    }
                }
            }
            proof {
                assert(all.take(all.len() as int) =~= all);
            }
            *lines = kept;
        }
    }
}

} // verus!
