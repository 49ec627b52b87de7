//! The straight-line tool.
//!
//! While the pen is active the tool keeps a fixed starting point — the first
//! already-drawn point of the current stroke, or the sample itself while the
//! stroke is still empty — and on every sample rewrites the whole last
//! stroke from scratch as one straight resampled segment from that start to
//! the pointer.  The number of interpolated points grows with the squared
//! length of the segment, so density is distance-proportional, not a fixed
//! step.

use crate::canvas::{lines_view, Drawpoint, Rgba};
use crate::geometry::{
    dist2, div_trunc, divide_trunc, lemma_div_trunc_bounds, squared_distance, Point,
};
use vstd::arithmetic::div_mod::{lemma_div_is_ordered, lemma_div_pos_is_pos};
use vstd::prelude::*;

verus! {

/// Largest coordinate magnitude the line tool accepts for its two
/// endpoints.  A machine limit: it keeps `delta * i` inside an `i64` for
/// every interpolation step `i`.
pub const MAX_LINE_COORD: i64 = 1_000_000;

/// One interpolated point is laid down for every this-many units of squared
/// segment length.
pub const RESAMPLE_DIVISOR: i64 = 10_000;

/// How many points the rewritten stroke aims at: the squared distance from
/// start to pointer, scaled down.
pub open spec fn resample_count(a: Point, b: Point) -> int {
    dist2(a, b) / (RESAMPLE_DIVISOR as int)
}

/// The fixed starting point of the stroke being drawn: its first point, or
/// the current sample while the stroke is still empty.
pub open spec fn line_start(
    stroke: Seq<Drawpoint>,
    position: Point,
    pen_size: i64,
    rgba: Rgba,
) -> Drawpoint {
    if stroke.len() == 0 {
        Drawpoint { position, line_width: pen_size, rgba }
    } else {
        stroke[0]
    }
}

/// The rewritten stroke: the starting point, then `resample_count - 1`
/// linearly interpolated points toward `position` (integer-truncated), each
/// carrying the current pen size and color.
pub open spec fn resampled_stroke(
    startpt: Drawpoint,
    position: Point,
    pen_size: i64,
    rgba: Rgba,
) -> Seq<Drawpoint> {
    let n = resample_count(startpt.position, position);
    let len = if n <= 1 {
        1
    } else {
        n
    };
    Seq::new(
        len as nat,
        |i: int|
            if i == 0 {
                startpt
            } else {
                Drawpoint {
                    position: Point {
                        x: (startpt.position.x + div_trunc(
                            (position.x - startpt.position.x) * i,
                            n,
                        )) as i64,
                        y: (startpt.position.y + div_trunc(
                            (position.y - startpt.position.y) * i,
                            n,
                        )) as i64,
                    },
                    line_width: pen_size,
                    rgba,
                }
            },
    )
}

/// Whether a point lies within the line tool's endpoint range.
pub open spec fn in_line_bounds(p: Point) -> bool {
    -MAX_LINE_COORD <= p.x <= MAX_LINE_COORD && -MAX_LINE_COORD <= p.y <= MAX_LINE_COORD
}

/// Draws straight lines from the stroke's starting point to the pointer.
pub struct LineTool {}

impl LineTool {
    pub fn new() -> (t: LineTool) {
        LineTool {}
    }

    /// On an active sample, rewrite the last stroke as the straight
    /// resampled segment [`resampled_stroke`] from [`line_start`] to
    /// `position`.
    pub fn manipulate(
        &self,
        lines: &mut Vec<Vec<Drawpoint>>,
        position: Point,
        pen_size: i64,
        pen_is_active: bool,
        rgba: Rgba,
    )
        requires
            pen_is_active ==> old(lines).len() > 0,
            pen_is_active ==> in_line_bounds(position),
            pen_is_active && old(lines)@.last()@.len() > 0 ==> in_line_bounds(
                old(lines)@.last()@[0].position,
            ),
        ensures
            pen_is_active ==> lines_view(*final(lines)) == lines_view(*old(lines)).update(
                old(lines)@.len() - 1,
                resampled_stroke(
                    line_start(lines_view(*old(lines)).last(), position, pen_size, rgba),
                    position,
                    pen_size,
                    rgba,
                ),
            ),
            !pen_is_active ==> *final(lines) == *old(lines),
    {
        if pen_is_active {
            let n_lines = lines.len();
            let last = &mut lines[n_lines - 1];
            let starting_point = if last.len() == 0 {
                Drawpoint::new(position, pen_size, rgba)
            } else {
                last[0]
            };
            let ghost expected = resampled_stroke(starting_point, position, pen_size, rgba);
            proof {
                assert(starting_point == line_start(
                    lines_view(*old(lines)).last(),
                    position,
                    pen_size,
                    rgba,
                ));
            }
            let d2 = squared_distance(starting_point.position, position);
            proof {
                assert(0 <= d2 <= 8_000_000_000_000) by (nonlinear_arith)
                    requires
                        d2 == dist2(starting_point.position, position),
                        in_line_bounds(starting_point.position),
                        in_line_bounds(position),
                ;
                lemma_div_pos_is_pos(d2 as int, RESAMPLE_DIVISOR as int);
                lemma_div_is_ordered(d2 as int, 8_000_000_000_000, RESAMPLE_DIVISOR as int);
            }
            let count = divide_trunc(d2, RESAMPLE_DIVISOR);
            let dx = position.x - starting_point.position.x;
            let dy = position.y - starting_point.position.y;
            last.clear();
            last.push(starting_point);
            let mut i: i64 = 1;
            while i < count
                invariant
                    1 <= i,
                    i <= count || count <= 1,
                    count == resample_count(starting_point.position, position),
                    in_line_bounds(starting_point.position),
                    0 <= count <= 800_000_000,
                    -2_000_000 <= dx <= 2_000_000,
                    -2_000_000 <= dy <= 2_000_000,
                    dx == position.x - starting_point.position.x,
                    dy == position.y - starting_point.position.y,
                    expected == resampled_stroke(starting_point, position, pen_size, rgba),
                    last@ =~= expected.take(if count <= 1 { 1int } else { i as int }),
                decreases count - i,
            {
                proof {
                    assert(-1_600_000_000_000_000 <= dx * i <= 1_600_000_000_000_000
                        && -1_600_000_000_000_000 <= dy * i <= 1_600_000_000_000_000)
                        by (nonlinear_arith)
                        requires
                            -2_000_000 <= dx <= 2_000_000,
                            -2_000_000 <= dy <= 2_000_000,
                            0 <= i <= 800_000_000,
                    ;
                    lemma_div_trunc_bounds(dx * i, count as int);
                    lemma_div_trunc_bounds(dy * i, count as int);
                }
                let qx = divide_trunc(dx * i, count);
                let qy = divide_trunc(dy * i, count);
                let p = Point::new(starting_point.position.x + qx, starting_point.position.y + qy);
                last.push(Drawpoint::new(p, pen_size, rgba));
                proof {
                    assert(expected[i as int] == (Drawpoint {
                        position: p,
                        line_width: pen_size,
                        rgba,
                    }));
                    assert(last@ =~= expected.take(i + 1));
                }
                i += 1;
            }
            proof {
                assert(last@ =~= expected);
            }
            proof {
                assert(lines_view(*lines) =~~= lines_view(*old(lines)).update(
                    old(lines)@.len() - 1,
                    expected,
                ));
            }
        }
    }
}

} // verus!
