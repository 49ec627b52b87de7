//! Laws the library keeps: statements that relate several operations, each
//! proved here over the same spec functions and views the operations'
//! contracts use.

use crate::canvas::{Drawpoint, Rgba};
use crate::editor::{redo_step, undo_step, HistModel};
use crate::eraser::{apply_splits, erase_matches, erase_result, split_at};
use crate::geometry::Point;
use crate::line_tool::{line_start, resampled_stroke};
use crate::rectangle_selection::{in_rect, selected_upto, stroke_in_rect, Rect};
use vstd::prelude::*;

verus! {

/// The page after one pencil sample: the new point appended to the last
/// stroke, as the pencil's contract describes.
pub open spec fn pencil_apply(lines: Seq<Seq<Drawpoint>>, sample: Drawpoint) -> Seq<
    Seq<Drawpoint>,
> {
    lines.update(lines.len() - 1, lines.last().push(sample))
}

/// The page after a whole run of active pencil samples, applied in order.
pub open spec fn pencil_run(lines: Seq<Seq<Drawpoint>>, samples: Seq<Drawpoint>) -> Seq<
    Seq<Drawpoint>,
>
    decreases samples.len(),
{
    if samples.len() == 0 {
        lines
    } else {
        pencil_run(pencil_apply(lines, samples.first()), samples.drop_first())
    }
}

/// For any run of active pencil samples during one gesture, the resulting
/// last stroke is the original last stroke extended by exactly those
/// samples, in sample order — so its point count grows by the number of
/// samples; no other stroke is touched.
pub proof fn lemma_pencil_run(lines: Seq<Seq<Drawpoint>>, samples: Seq<Drawpoint>)
    requires
        lines.len() > 0,
    ensures
        pencil_run(lines, samples).len() == lines.len(),
        pencil_run(lines, samples).last() == lines.last() + samples,
        pencil_run(lines, samples).last().len() == lines.last().len() + samples.len(),
        forall|i: int|
            0 <= i < lines.len() - 1 ==> #[trigger] pencil_run(lines, samples)[i] == lines[i],
    decreases samples.len(),
{
    if samples.len() == 0 {
        assert(lines.last() + samples =~= lines.last());
    } else {
        let next = pencil_apply(lines, samples.first());
        lemma_pencil_run(next, samples.drop_first());
        assert(next.last() == lines.last().push(samples.first()));
        assert(next.last() + samples.drop_first() =~= lines.last() + samples);
        assert(forall|i: int| 0 <= i < lines.len() - 1 ==> #[trigger] next[i] == lines[i]);
    }
}

/// Erasing at exactly one matched point of one stroke, at neither end of
/// it, replaces that stroke by its two halves: the points before the match
/// and the points from the match onward.  No point is lost: the two halves
/// together hold exactly the original stroke's points.
pub proof fn lemma_eraser_split(
    lines: Seq<Seq<Drawpoint>>,
    position: Point,
    pen_size: i64,
    i: int,
    j: int,
)
    requires
        0 <= i < lines.len(),
        0 < j < lines[i].len(),
        erase_matches(lines, position, pen_size) == seq![(i, j)],
    ensures
        erase_result(lines, position, pen_size) == lines.update(i, lines[i].subrange(0, j)).insert(
            i + 1,
            lines[i].subrange(j, lines[i].len() as int),
        ),
        erase_result(lines, position, pen_size).len() == lines.len() + 1,
        erase_result(lines, position, pen_size)[i] == lines[i].subrange(0, j),
        erase_result(lines, position, pen_size)[i + 1] == lines[i].subrange(
            j,
            lines[i].len() as int,
        ),
        erase_result(lines, position, pen_size)[i].len() + erase_result(
            lines,
            position,
            pen_size,
        )[i + 1].len() == lines[i].len(),
{
    let q = erase_matches(lines, position, pen_size);
    assert(q.first() == (i, j));
    assert(q.drop_first() =~= Seq::<(int, int)>::empty());
    let split = split_at(lines, i, j);
    assert(apply_splits(lines, q, 0) == apply_splits(split, q.drop_first(), 1));
    assert(apply_splits(split, q.drop_first(), 1) == split);
    lines.update(i, lines[i].subrange(0, j)).insert_ensures(
        i + 1,
        lines[i].subrange(j, lines[i].len() as int),
    );
}

/// The straight-line rewrite is idempotent: rewriting a stroke that is
/// itself the result of a rewrite toward the same pointer position, with
/// the same pen, yields the identical stroke — the starting point the
/// second rewrite reads back out of the stroke is the one the first wrote.
pub proof fn lemma_line_tool_idempotent(
    stroke: Seq<Drawpoint>,
    position: Point,
    pen_size: i64,
    rgba: Rgba,
)
    ensures
        resampled_stroke(
            line_start(
                resampled_stroke(
                    line_start(stroke, position, pen_size, rgba),
                    position,
                    pen_size,
                    rgba,
                ),
                position,
                pen_size,
                rgba,
            ),
            position,
            pen_size,
            rgba,
        ) == resampled_stroke(line_start(stroke, position, pen_size, rgba), position, pen_size, rgba),
{
    let start0 = line_start(stroke, position, pen_size, rgba);
    let once = resampled_stroke(start0, position, pen_size, rgba);
    assert(once.len() >= 1);
    assert(once[0] == start0);
    assert(line_start(once, position, pen_size, rgba) == start0);
}

/// A point exactly on a rectangle edge is never strictly inside it.
pub proof fn lemma_edge_not_inside(r: Rect, p: Point)
    requires
        p.x == r.x0 || p.x == r.x1 || p.y == r.y0 || p.y == r.y1,
    ensures
        !in_rect(r, p),
{
}

/// A stroke without a single point strictly inside the rectangle — for
/// instance one whose points all sit exactly on its edges — never enters
/// the selection, however much of the page is scanned.
pub proof fn lemma_untouched_stroke_never_selected(
    sel: Seq<usize>,
    lines: Seq<Seq<Drawpoint>>,
    r: Rect,
    n: int,
    i: usize,
)
    requires
        0 <= i < lines.len(),
        n <= lines.len(),
        lines.len() <= usize::MAX,
        !stroke_in_rect(r, lines[i as int]),
        !sel.contains(i),
    ensures
        !selected_upto(sel, lines, r, n).contains(i),
    decreases n,
{
    if n > 0 {
        lemma_untouched_stroke_never_selected(sel, lines, r, n - 1, i);
        let s = selected_upto(sel, lines, r, n - 1);
        let s2 = selected_upto(sel, lines, r, n);
        if s2 != s {
            assert(s2 == s.push((n - 1) as usize));
            assert(stroke_in_rect(r, lines[n - 1]));
            if s2.contains(i) {
                let k = choose|k: int| 0 <= k < s2.len() && s2[k] == i;
                if k < s.len() {
                    assert(s.contains(i));
                } else {
                    assert(i == (n - 1) as usize);
                }
            }
        }
    }
}

/// Undoing one completed state and redoing it restores the document, both
/// stacks included — provided the live document is the state last
/// completed, as it is right after any gesture ends.
pub proof fn lemma_redo_undoes_undo(s: HistModel)
    requires
        s.history.len() > 1,
        s.pages == s.history.last(),
    ensures
        redo_step(undo_step(s)) == s,
{
    let u = undo_step(s);
    assert(u.undone.len() > 0);
    assert(redo_step(u).history =~= s.history);
    assert(redo_step(u).undone =~= s.undone);
    assert(redo_step(u) =~~= s);
}

/// `k` undo steps applied in order, the later ones outermost.
pub open spec fn undo_n(s: HistModel, k: nat) -> HistModel
    decreases k,
{
    if k == 0 {
        s
    } else {
        undo_step(undo_n(s, (k - 1) as nat))
    }
}

/// `k` redo steps applied in order.
pub open spec fn redo_n(s: HistModel, k: nat) -> HistModel
    decreases k,
{
    if k == 0 {
        s
    } else {
        redo_n(redo_step(s), (k - 1) as nat)
    }
}

/// Every undo in a run below the stack's bottom leaves the live document
/// equal to the top of the shrunken stack.
pub proof fn lemma_undo_n_shape(s: HistModel, k: nat)
    requires
        s.pages == s.history.last(),
        k + 1 <= s.history.len(),
    ensures
        undo_n(s, k).history.len() == s.history.len() - k,
        undo_n(s, k).pages == undo_n(s, k).history.last(),
    decreases k,
{
    if k > 0 {
        lemma_undo_n_shape(s, (k - 1) as nat);
        let y = undo_n(s, (k - 1) as nat);
        assert(undo_step(y).history.last() == y.history.drop_last().last());
    }
}

/// Undo/redo round trip: after any number of completed gestures, undoing
/// `k` states and then redoing `k` states restores the document and both
/// history stacks exactly, for every `k` the undo stack can serve.  The
/// starting point must be a completed state — the live document equal to
/// the top snapshot, as it is right after a gesture ends or a load.
pub proof fn lemma_undo_redo_round_trip(s: HistModel, k: nat)
    requires
        s.pages == s.history.last(),
        k + 1 <= s.history.len(),
    ensures
        redo_n(undo_n(s, k), k) == s,
    decreases k,
{
    if k > 0 {
        let y = undo_n(s, (k - 1) as nat);
        lemma_undo_n_shape(s, (k - 1) as nat);
        assert(y.history.len() > 1);
        lemma_redo_undoes_undo(y);
        lemma_undo_redo_round_trip(s, (k - 1) as nat);
        assert(undo_n(s, k) == undo_step(y));
        assert(redo_n(undo_n(s, k), k) == redo_n(redo_step(undo_step(y)), (k - 1) as nat));
        assert(redo_n(undo_n(s, k), k) == redo_n(y, (k - 1) as nat));
        assert(redo_n(y, (k - 1) as nat) == redo_n(undo_n(s, (k - 1) as nat), (k - 1) as nat));
    }
}

} // verus!
