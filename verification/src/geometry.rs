//! Distance and containment primitives shared by all tools.
//!
//! Tools compare squared distances throughout: comparison of squared
//! distances orders points exactly as comparison of Euclidean distances
//! does, and stays in integer arithmetic.

use vstd::prelude::*;

verus! {

/// Largest coordinate magnitude the geometry accepts.  A machine limit, not a
/// canvas size: with both operands bounded by it, a squared distance fits in
/// an `i64`.
pub const MAX_COORD: i64 = 1_000_000_000;

/// A position on the canvas, in integer canvas units.
#[derive(Clone, Copy, PartialEq, Eq, Structural, Debug)]
pub struct Point {
    pub x: i64,
    pub y: i64,
}

impl Point {
    pub fn new(x: i64, y: i64) -> (p: Point)
        ensures
            p == (Point { x, y }),
    {
        Point { x, y }
    }
}

/// Whether a point lies within the coordinate range the geometry accepts.
pub open spec fn in_bounds(p: Point) -> bool {
    -MAX_COORD <= p.x <= MAX_COORD && -MAX_COORD <= p.y <= MAX_COORD
}

/// The squared Euclidean distance between two points.
pub open spec fn dist2(a: Point, b: Point) -> int {
    (a.x - b.x) * (a.x - b.x) + (a.y - b.y) * (a.y - b.y)
}

/// `(a.x - b.x)^2 + (a.y - b.y)^2`.
pub fn squared_distance(a: Point, b: Point) -> (d: i64)
    requires
        in_bounds(a),
        in_bounds(b),
    ensures
        d == dist2(a, b),
{
    let dx = a.x - b.x;
    let dy = a.y - b.y;
    proof {
        assert(0 <= dx * dx <= 4_000_000_000_000_000_000
            && 0 <= dy * dy <= 4_000_000_000_000_000_000) by (nonlinear_arith)
            requires
                -2_000_000_000 <= dx <= 2_000_000_000,
                -2_000_000_000 <= dy <= 2_000_000_000,
        ;
    }
    dx * dx + dy * dy
}

/// Whether a point is within erasing reach of the pointer: closer than
/// `pen_size`.  A pen of non-positive size reaches nothing.
pub open spec fn within_reach(p: Point, position: Point, pen_size: i64) -> bool {
    pen_size > 0 && dist2(p, position) < pen_size * pen_size
}

/// `dist(p, position) < pen_size`, compared in squared form.
pub fn is_within_reach(p: Point, position: Point, pen_size: i64) -> (r: bool)
    requires
        in_bounds(p),
        in_bounds(position),
        0 <= pen_size <= MAX_COORD,
    ensures
        r == within_reach(p, position, pen_size),
{
    if pen_size <= 0 {
        return false;
    }
    proof {
        assert(0 <= pen_size * pen_size <= 1_000_000_000_000_000_000) by (nonlinear_arith)
            requires
                0 < pen_size <= 1_000_000_000,
        ;
    }
    squared_distance(p, position) < pen_size * pen_size
}

/// Quotient of `a` by `b` rounded toward zero — the semantics Rust's integer
/// division has on signed operands.  Meaningful for `b > 0`.
pub open spec fn div_trunc(a: int, b: int) -> int {
    if a >= 0 {
        a / b
    } else {
        -((-a) / b)
    }
}

/// Truncating division never grows a value's magnitude, and keeps its sign.
pub proof fn lemma_div_trunc_bounds(a: int, b: int)
    requires
        b >= 1,
    ensures
        a >= 0 ==> 0 <= div_trunc(a, b) <= a,
        a < 0 ==> a <= div_trunc(a, b) <= 0,
{
    if a >= 0 {
        vstd::arithmetic::div_mod::lemma_div_pos_is_pos(a, b);
        vstd::arithmetic::div_mod::lemma_div_nonincreasing(a, b);
    } else {
        vstd::arithmetic::div_mod::lemma_div_pos_is_pos(-a, b);
        vstd::arithmetic::div_mod::lemma_div_nonincreasing(-a, b);
    }
}

/// `a / b`, rounded toward zero.
pub fn divide_trunc(a: i64, b: i64) -> (q: i64)
    requires
        b > 0,
        a > i64::MIN,
    ensures
        q == div_trunc(a as int, b as int),
{
    proof {
        if a >= 0 {
            vstd::arithmetic::div_mod::lemma_div_pos_is_pos(a as int, b as int);
            vstd::arithmetic::div_mod::lemma_div_nonincreasing(a as int, b as int);
        } else {
            vstd::arithmetic::div_mod::lemma_div_pos_is_pos(-(a as int), b as int);
            vstd::arithmetic::div_mod::lemma_div_nonincreasing(-(a as int), b as int);
        }
    }
    match a.checked_div(b) {
        Some(q) => q,
        None => {
            proof {
                assert(false);
            }
            0
        },
    }
}

} // verus!
