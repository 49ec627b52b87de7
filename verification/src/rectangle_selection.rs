//! The rectangle-selection tool.
//!
//! A two-phase tool.  A gesture that starts outside the current rectangle
//! spans a new axis-aligned rectangle between its starting position and the
//! pointer (selection phase); a gesture that starts strictly inside the
//! rectangle translates the rectangle and every selected stroke by
//! `position - start`, against baselines captured at gesture start, exactly
//! as the drag tool does.  Membership in the selection is decided once, at
//! gesture start, against the stale, pre-drag rectangle — strictly inside on
//! all four sides, so a point exactly on an edge is never selected.

use crate::canvas::{clone_lines, lines_in_bounds, lines_view, Drawpoint};
use crate::drag::{drag_stroke, translate_stroke};
use crate::geometry::{in_bounds, Point, MAX_COORD};
use vstd::pervasive::VecAdditionalExecFns;
use vstd::prelude::*;

verus! {

/// An axis-aligned rectangle: left/top and right/bottom corners.
#[derive(Clone, Copy, PartialEq, Eq, Structural, Debug)]
pub struct Rect {
    pub x0: i64,
    pub y0: i64,
    pub x1: i64,
    pub y1: i64,
}

/// The rectangle tool's two phases.
#[derive(Clone, Copy, PartialEq, Eq, Structural, Debug)]
pub enum RectangleSelectionMode {
    Selection,
    Translation,
}

/// Whether a point lies strictly inside the rectangle; edges are excluded
/// on all four sides.
pub open spec fn in_rect(r: Rect, p: Point) -> bool {
    p.x > r.x0 && p.y > r.y0 && p.x < r.x1 && p.y < r.y1
}

/// Whether some point of the stroke lies strictly inside the rectangle.
pub open spec fn stroke_in_rect(r: Rect, stroke: Seq<Drawpoint>) -> bool {
    exists|j: int| 0 <= j < stroke.len() && in_rect(r, stroke[j].position)
}

/// The axis-aligned rectangle spanned between two corners, whichever way
/// the drag went.
pub open spec fn rect_between(a: Point, b: Point) -> Rect {
    Rect {
        x0: if a.x < b.x {
            a.x
        } else {
            b.x
        },
        x1: if a.x < b.x {
            b.x
        } else {
            a.x
        },
        y0: if a.y < b.y {
            a.y
        } else {
            b.y
        },
        y1: if a.y < b.y {
            b.y
        } else {
            a.y
        },
    }
}

/// A rectangle translated by a drag vector.
pub open spec fn translate_rect(r: Rect, v: Point) -> Rect {
    Rect {
        x0: (r.x0 + v.x) as i64,
        y0: (r.y0 + v.y) as i64,
        x1: (r.x1 + v.x) as i64,
        y1: (r.y1 + v.y) as i64,
    }
}

/// Whether a rectangle's corners lie within the geometry's range.
pub open spec fn rect_in_bounds(r: Rect) -> bool {
    -MAX_COORD <= r.x0 <= MAX_COORD && -MAX_COORD <= r.y0 <= MAX_COORD && -MAX_COORD <= r.x1
        <= MAX_COORD && -MAX_COORD <= r.y1 <= MAX_COORD
}

/// The selection after scanning the first `n` strokes: each stroke index
/// with a point strictly inside the rectangle is appended once, in
/// ascending order, to what was already selected.
pub open spec fn selected_upto(
    sel: Seq<usize>,
    lines: Seq<Seq<Drawpoint>>,
    r: Rect,
    n: int,
) -> Seq<usize>
    decreases n,
{
    if n <= 0 {
        sel
    } else {
        let s = selected_upto(sel, lines, r, n - 1);
        if stroke_in_rect(r, lines[n - 1]) && !s.contains((n - 1) as usize) {
            s.push((n - 1) as usize)
        } else {
            s
        }
    }
}

/// The selection after scanning the whole page.
pub open spec fn selected_after(sel: Seq<usize>, lines: Seq<Seq<Drawpoint>>, r: Rect) -> Seq<
    usize,
> {
    selected_upto(sel, lines, r, lines.len() as int)
}

/// Scanning can only add indices of existing strokes.
pub proof fn lemma_selected_upto_range(sel: Seq<usize>, lines: Seq<Seq<Drawpoint>>, r: Rect, n: int)
    requires
        n <= lines.len(),
        forall|t: int| 0 <= t < sel.len() ==> #[trigger] sel[t] < lines.len(),
    ensures
        forall|t: int|
            0 <= t < selected_upto(sel, lines, r, n).len() ==> #[trigger] selected_upto(
                sel,
                lines,
                r,
                n,
            )[t] < lines.len(),
    decreases n,
{
    if n > 0 {
        lemma_selected_upto_range(sel, lines, r, n - 1);
        let s = selected_upto(sel, lines, r, n - 1);
        let s2 = selected_upto(sel, lines, r, n);
        assert forall|t: int| 0 <= t < s2.len() implies s2[t] < lines.len() by {
            if t < s.len() {
                assert(s[t] < lines.len());
            }
        }
    }
}

/// The translated page: every selected stroke, in selection order, replaced
/// by its baseline translated by `v`.
pub open spec fn translate_selected(
    lines: Seq<Seq<Drawpoint>>,
    sel: Seq<usize>,
    base: Seq<Seq<Drawpoint>>,
    v: Point,
) -> Seq<Seq<Drawpoint>>
    decreases sel.len(),
{
    if sel.len() == 0 {
        lines
    } else {
        let i = sel.first() as int;
        translate_selected(
            lines.update(i, drag_stroke(lines[i], base[i], v)),
            sel.drop_first(),
            base,
            v,
        )
    }
}

/// Whether the selection names a stroke index `i`.
pub fn selection_contains(sel: &Vec<usize>, i: usize) -> (r: bool)
    ensures
        r == sel@.contains(i),
{
    let mut t: usize = 0;
    while t < sel.len()
        invariant
            t <= sel@.len(),
            forall|k: int| 0 <= k < t ==> sel@[k] != i,
        decreases sel@.len() - t,
    {
        if sel[t] == i {
            return true;
        }
        t += 1;
    }
    false
}

/// Whether some point of the stroke lies strictly inside the rectangle,
/// decided by scanning the stroke.
pub fn stroke_has_point_in_rect(stroke: &Vec<Drawpoint>, r: Rect) -> (hit: bool)
    ensures
        hit == stroke_in_rect(r, stroke@),
{
    let mut j: usize = 0;
    while j < stroke.len()
        invariant
            j <= stroke@.len(),
            forall|k: int| 0 <= k < j ==> !in_rect(r, stroke@[k].position),
        decreases stroke@.len() - j,
    {
        let p = stroke[j].position;
        if p.x > r.x0 && p.y > r.y0 && p.x < r.x1 && p.y < r.y1 {
            return true;
        }
        j += 1;
    }
    false
}

/// Groups strokes inside a rectangle and repositions them.
///
/// The captured previous values are the baselines every translation during
/// one gesture is computed against.
pub struct RectangleSelection {
    pub rectangle: Rect,
    pub previous_rectangle: Rect,
    pub selection: Vec<usize>,
    pub starting_position: Point,
    pub previous_pen_is_active: bool,
    pub previous_lines: Vec<Vec<Drawpoint>>,
    pub mode: RectangleSelectionMode,
}

impl RectangleSelection {
    pub fn new() -> (t: RectangleSelection)
        ensures
            t.rectangle == (Rect { x0: 0, y0: 0, x1: 0, y1: 0 }),
            t.previous_rectangle == (Rect { x0: 0, y0: 0, x1: 0, y1: 0 }),
            t.selection@ == Seq::<usize>::empty(),
            t.starting_position == (Point { x: 0, y: 0 }),
            t.previous_pen_is_active == false,
            lines_view(t.previous_lines) == Seq::<Seq<Drawpoint>>::empty(),
            t.mode == RectangleSelectionMode::Selection,
    {
        let t = RectangleSelection {
            rectangle: Rect { x0: 0, y0: 0, x1: 0, y1: 0 },
            previous_rectangle: Rect { x0: 0, y0: 0, x1: 0, y1: 0 },
            selection: Vec::new(),
            starting_position: Point::new(0, 0),
            previous_pen_is_active: false,
            previous_lines: Vec::new(),
            mode: RectangleSelectionMode::Selection,
        };
        proof {
            assert(lines_view(t.previous_lines) =~= Seq::<Seq<Drawpoint>>::empty());
        }
        t
    }

    /// Whether `position` lies strictly inside the current rectangle; edge
    /// cases are excluded.
    pub fn is_in_rectangle(&self, position: Point) -> (r: bool)
        ensures
            r == in_rect(self.rectangle, position),
    {
        position.x > self.rectangle.x0 && position.y > self.rectangle.y0 && position.x
            < self.rectangle.x1 && position.y < self.rectangle.y1
    }

    /// Add every stroke with a point strictly inside the current rectangle
    /// to the selection.
    pub fn update_selection(&mut self, lines: &Vec<Vec<Drawpoint>>)
        ensures
            final(self).selection@ == selected_after(
                old(self).selection@,
                lines_view(*lines),
                old(self).rectangle,
            ),
            final(self).rectangle == old(self).rectangle,
            final(self).previous_rectangle == old(self).previous_rectangle,
            final(self).starting_position == old(self).starting_position,
            final(self).previous_pen_is_active == old(self).previous_pen_is_active,
            final(self).previous_lines == old(self).previous_lines,
            final(self).mode == old(self).mode,
    {
        let ghost all = lines_view(*lines);
        let ghost sel0 = self.selection@;
        let r = self.rectangle;
        let mut i: usize = 0;
        while i < lines.len()
            invariant
                i <= lines@.len(),
                all == lines_view(*lines),
                r == self.rectangle,
                self.selection@ == selected_upto(sel0, all, r, i as int),
                self.rectangle == old(self).rectangle,
                self.previous_rectangle == old(self).previous_rectangle,
                self.starting_position == old(self).starting_position,
                self.previous_pen_is_active == old(self).previous_pen_is_active,
                self.previous_lines == old(self).previous_lines,
                self.mode == old(self).mode,
                sel0 == old(self).selection@,
            decreases lines@.len() - i,
        {
            let stroke = &lines[i];
            proof {
                assert(stroke@ == all[i as int]);
            }
            if stroke_has_point_in_rect(stroke, r) {
                if !selection_contains(&self.selection, i) {
                    self.selection.push(i);
                }
            }
            i += 1;
        }
        proof {
            assert(self.selection@ == selected_after(sel0, all, r));
        }
    }

    /// Respan the rectangle between the starting position and the pointer,
    /// axis-aligned whichever way the drag went.
    pub fn update_rectangle(&mut self, position: Point)
        ensures
            final(self).rectangle == rect_between(old(self).starting_position, position),
            final(self).previous_rectangle == old(self).previous_rectangle,
            final(self).selection == old(self).selection,
            final(self).starting_position == old(self).starting_position,
            final(self).previous_pen_is_active == old(self).previous_pen_is_active,
            final(self).previous_lines == old(self).previous_lines,
            final(self).mode == old(self).mode,
    {
        if self.starting_position.x < position.x {
            self.rectangle.x0 = self.starting_position.x;
            self.rectangle.x1 = position.x;
        } else {
            self.rectangle.x0 = position.x;
            self.rectangle.x1 = self.starting_position.x;
        }
        if self.starting_position.y < position.y {
            self.rectangle.y0 = self.starting_position.y;
            self.rectangle.y1 = position.y;
        } else {
            self.rectangle.y0 = position.y;
            self.rectangle.y1 = self.starting_position.y;
        }
    }

    /// Translate the rectangle and every selected stroke from the captured
    /// baselines by `position - starting_position`.
    pub fn translate_positions(&mut self, lines: &mut Vec<Vec<Drawpoint>>, position: Point)
        requires
            in_bounds(old(self).starting_position),
            in_bounds(position),
            rect_in_bounds(old(self).previous_rectangle),
            lines_in_bounds(lines_view(old(self).previous_lines)),
            forall|t: int|
                0 <= t < old(self).selection@.len() ==> #[trigger] old(self).selection@[t] < old(lines)@.len() && old(self).selection@[t] < old(self).previous_lines@.len(),
        ensures
            final(self).rectangle == translate_rect(
                old(self).previous_rectangle,
                Point {
                    x: (position.x - old(self).starting_position.x) as i64,
                    y: (position.y - old(self).starting_position.y) as i64,
                },
            ),
            lines_view(*final(lines)) == translate_selected(
                lines_view(*old(lines)),
                old(self).selection@,
                lines_view(old(self).previous_lines),
                Point {
                    x: (position.x - old(self).starting_position.x) as i64,
                    y: (position.y - old(self).starting_position.y) as i64,
                },
            ),
            final(self).previous_rectangle == old(self).previous_rectangle,
            final(self).selection == old(self).selection,
            final(self).starting_position == old(self).starting_position,
            final(self).previous_pen_is_active == old(self).previous_pen_is_active,
            final(self).previous_lines == old(self).previous_lines,
            final(self).mode == old(self).mode,
    {
        let vector = Point::new(
            position.x - self.starting_position.x,
            position.y - self.starting_position.y,
        );
        self.rectangle.x0 = self.previous_rectangle.x0 + vector.x;
        self.rectangle.y0 = self.previous_rectangle.y0 + vector.y;
        self.rectangle.x1 = self.previous_rectangle.x1 + vector.x;
        self.rectangle.y1 = self.previous_rectangle.y1 + vector.y;
        let ghost all0 = lines_view(*lines);
        let ghost base = lines_view(self.previous_lines);
        let ghost sel = self.selection@;
        let mut t: usize = 0;
        proof {
            assert(sel.skip(0) =~= sel);
        }
        while t < self.selection.len()
            invariant
                t <= self.selection@.len(),
                sel == self.selection@,
                base == lines_view(self.previous_lines),
                lines_in_bounds(base),
                in_bounds(self.starting_position),
                in_bounds(position),
                -2 * MAX_COORD <= vector.x <= 2 * MAX_COORD,
                -2 * MAX_COORD <= vector.y <= 2 * MAX_COORD,
                forall|k: int|
                    0 <= k < sel.len() ==> #[trigger] sel[k] < lines@.len() && sel[k]
                        < self.previous_lines@.len(),
                translate_selected(lines_view(*lines), sel.skip(t as int), base, vector)
                    == translate_selected(all0, sel, base, vector),
                self.rectangle == translate_rect(self.previous_rectangle, vector),
                self.previous_rectangle == old(self).previous_rectangle,
                self.selection == old(self).selection,
                self.starting_position == old(self).starting_position,
                self.previous_pen_is_active == old(self).previous_pen_is_active,
                self.previous_lines == old(self).previous_lines,
                self.mode == old(self).mode,
            decreases self.selection@.len() - t,
        {
            let ghost before = lines_view(*lines);
            let i = self.selection[t];
            proof {
                assert(sel.skip(t as int).first() == i);
                assert(sel.skip(t as int).drop_first() =~= sel.skip(t + 1));
                assert(base[i as int] == lines_view(self.previous_lines)[i as int]);
                assert(forall|k: int|
                    0 <= k < base[i as int].len() ==> in_bounds(
                        #[trigger] base[i as int][k].position,
                    ));
            }
            let translated = translate_stroke(&lines[i], &self.previous_lines[i], vector);
            lines.set(i, translated);
            proof {
                assert(lines_view(*lines) =~~= before.update(
                    i as int,
                    drag_stroke(before[i as int], base[i as int], vector),
                ));
            }
            t += 1;
        }
        proof {
            assert(sel.skip(sel.len() as int) =~= Seq::<usize>::empty());
        }
    }

    /// Enter translation mode when the gesture starts strictly inside the
    /// rectangle, selection mode otherwise.
    pub fn set_mode(&mut self)
        ensures
            final(self).mode == (if in_rect(old(self).rectangle, old(self).starting_position) {
                RectangleSelectionMode::Translation
            } else {
                RectangleSelectionMode::Selection
            }),
            final(self).rectangle == old(self).rectangle,
            final(self).previous_rectangle == old(self).previous_rectangle,
            final(self).selection == old(self).selection,
            final(self).starting_position == old(self).starting_position,
            final(self).previous_pen_is_active == old(self).previous_pen_is_active,
            final(self).previous_lines == old(self).previous_lines,
    {
        if self.is_in_rectangle(self.starting_position) {
            self.mode = RectangleSelectionMode::Translation;
        } else {
            self.mode = RectangleSelectionMode::Selection;
        }
    }

    /// One pointer sample.  On the inactive-to-active edge the tool
    /// captures its baselines, decides its phase from the stale rectangle,
    /// and recomputes the selection against that stale rectangle; on every
    /// active sample it either respans the rectangle (selection phase) or
    /// translates rectangle and selected strokes from the baselines
    /// (translation phase).  On release it clears the last stroke, the
    /// ephemeral rectangle outline the renderer consumed.
    pub fn manipulate(
        &mut self,
        lines: &mut Vec<Vec<Drawpoint>>,
        position: Point,
        _pen_size: i64,
        pen_is_active: bool,
    )
        requires
            pen_is_active && !old(self).previous_pen_is_active ==> in_bounds(position)
                && lines_in_bounds(lines_view(*old(lines))) && rect_in_bounds(old(self).rectangle),
            pen_is_active && old(self).previous_pen_is_active && old(self).mode
                == RectangleSelectionMode::Translation ==> in_bounds(position) && in_bounds(
                old(self).starting_position,
            ) && rect_in_bounds(old(self).previous_rectangle) && lines_in_bounds(
                lines_view(old(self).previous_lines),
            ) && (forall|t: int|
                0 <= t < old(self).selection@.len() ==> #[trigger] old(self).selection@[t] < old(lines)@.len() && old(self).selection@[t] < old(self).previous_lines@.len()),
            !pen_is_active && old(self).previous_pen_is_active ==> old(lines)@.len() > 0,
        ensures
            final(self).previous_pen_is_active == pen_is_active,
            !pen_is_active && !old(self).previous_pen_is_active ==> *final(lines) == *old(lines)
                && final(self).rectangle == old(self).rectangle && final(self).previous_rectangle
                == old(self).previous_rectangle && final(self).selection == old(self).selection
                && final(self).starting_position == old(self).starting_position && final(self).previous_lines == old(self).previous_lines && final(self).mode == old(self).mode,
            !pen_is_active && old(self).previous_pen_is_active ==> lines_view(*final(lines))
                == lines_view(*old(lines)).update(
                old(lines)@.len() - 1,
                Seq::<Drawpoint>::empty(),
            ) && final(self).rectangle == old(self).rectangle && final(self).previous_rectangle
                == old(self).previous_rectangle && final(self).selection == old(self).selection
                && final(self).starting_position == old(self).starting_position && final(self).previous_lines == old(self).previous_lines && final(self).mode == old(self).mode,
            pen_is_active ==> final(self).starting_position == (if !old(self).previous_pen_is_active {
                position
            } else {
                old(self).starting_position
            }) && final(self).previous_rectangle == (if !old(self).previous_pen_is_active {
                old(self).rectangle
            } else {
                old(self).previous_rectangle
            }) && final(self).mode == (if !old(self).previous_pen_is_active {
                if in_rect(old(self).rectangle, position) {
                    RectangleSelectionMode::Translation
                } else {
                    RectangleSelectionMode::Selection
                }
            } else {
                old(self).mode
            }) && final(self).selection@ == (if !old(self).previous_pen_is_active {
                selected_after(Seq::<usize>::empty(), lines_view(*old(lines)), old(self).rectangle)
            } else {
                old(self).selection@
            }),
            pen_is_active && !old(self).previous_pen_is_active ==> lines_view(
                final(self).previous_lines,
            ) == lines_view(*old(lines)),
            pen_is_active && old(self).previous_pen_is_active ==> final(self).previous_lines
                == old(self).previous_lines,
            pen_is_active && final(self).mode == RectangleSelectionMode::Selection ==> *final(lines) == *old(lines) && final(self).rectangle == rect_between(
                final(self).starting_position,
                position,
            ),
            pen_is_active && final(self).mode == RectangleSelectionMode::Translation ==> final(self).rectangle == translate_rect(
                final(self).previous_rectangle,
                Point {
                    x: (position.x - final(self).starting_position.x) as i64,
                    y: (position.y - final(self).starting_position.y) as i64,
                },
            ) && lines_view(*final(lines)) == translate_selected(
                lines_view(*old(lines)),
                final(self).selection@,
                lines_view(final(self).previous_lines),
                Point {
                    x: (position.x - final(self).starting_position.x) as i64,
                    y: (position.y - final(self).starting_position.y) as i64,
                },
            ),
    {
        if pen_is_active {
            if !self.previous_pen_is_active {
                self.starting_position = position;
                self.previous_lines = clone_lines(lines);
                proof {
                    assert(lines_view(self.previous_lines) =~~= lines_view(*lines));
                }
                self.previous_rectangle = self.rectangle;
                self.selection.clear();
                self.set_mode();
                self.update_selection(lines);
                proof {
                    lemma_selected_upto_range(
                        Seq::<usize>::empty(),
                        lines_view(*lines),
                        self.previous_rectangle,
                        lines@.len() as int,
                    );
                }
            }
            match self.mode {
                RectangleSelectionMode::Translation => {
                    self.translate_positions(lines, position);
                },
                RectangleSelectionMode::Selection => {
                    self.update_rectangle(position);
                },
            }
        } else {
            if self.previous_pen_is_active {
                let n = lines.len();
                let last = &mut lines[n - 1];
                last.clear();
                proof {
                    assert(lines_view(*lines) =~~= lines_view(*old(lines)).update(
                        old(lines)@.len() - 1,
                        Seq::<Drawpoint>::empty(),
                    ));
                }
            }
        }
        self.previous_pen_is_active = pen_is_active;
    }
}

} // verus!
