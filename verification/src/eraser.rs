//! The eraser: splits strokes at every point it touches.
//!
//! One active sample collects every point within reach into a removal queue
//! (in scanning order) and then splits each owning stroke at the matched
//! index: the stroke is truncated there and the remainder is inserted right
//! after it as a stroke of its own.  Earlier splits in the same pass shift
//! later stroke indices, so the application step carries a running insertion
//! offset, exactly as the queue is replayed.

use crate::canvas::{lines_in_bounds, lines_view, Drawpoint};
use crate::geometry::{in_bounds, is_within_reach, within_reach, Point, MAX_COORD};
use vstd::prelude::*;

verus! {

/// The matches one stroke contributes to the removal queue: `(i, j)` for
/// every point index `j` within reach, in increasing order.
pub open spec fn stroke_matches(
    i: int,
    stroke: Seq<Drawpoint>,
    position: Point,
    pen_size: i64,
) -> Seq<(int, int)>
    decreases stroke.len(),
{
    if stroke.len() == 0 {
        Seq::empty()
    } else {
        let front = stroke_matches(i, stroke.drop_last(), position, pen_size);
        if within_reach(stroke.last().position, position, pen_size) {
            front.push((i, stroke.len() - 1))
        } else {
            front
        }
    }
}

/// The whole removal queue of one sample, in scanning order: stroke by
/// stroke, point by point.
pub open spec fn erase_matches(
    lines: Seq<Seq<Drawpoint>>,
    position: Point,
    pen_size: i64,
) -> Seq<(int, int)>
    decreases lines.len(),
{
    if lines.len() == 0 {
        Seq::empty()
    } else {
        erase_matches(lines.drop_last(), position, pen_size) + stroke_matches(
            lines.len() - 1,
            lines.last(),
            position,
            pen_size,
        )
    }
}

/// Splitting stroke `i` at point index `j`: the stroke is truncated to
/// `[0, j)` and the remainder `[j, end)` becomes a new stroke right after
/// it.
pub open spec fn split_at(lines: Seq<Seq<Drawpoint>>, i: int, j: int) -> Seq<Seq<Drawpoint>> {
    lines.update(i, lines[i].subrange(0, j)).insert(
        i + 1,
        lines[i].subrange(j, lines[i].len() as int),
    )
}

/// Replaying the removal queue left to right.  `inserted` counts the splits
/// already applied: it shifts each queued stroke index, and queue entries
/// whose shifted position no longer names a stroke point are skipped.
pub open spec fn apply_splits(
    lines: Seq<Seq<Drawpoint>>,
    queue: Seq<(int, int)>,
    inserted: int,
) -> Seq<Seq<Drawpoint>>
    decreases queue.len(),
{
    if queue.len() == 0 {
        lines
    } else {
        let i = queue.first().0 + inserted;
        let j = queue.first().1;
        if 0 <= i < lines.len() && 0 <= j < lines[i].len() {
            apply_splits(split_at(lines, i, j), queue.drop_first(), inserted + 1)
        } else {
            apply_splits(lines, queue.drop_first(), inserted)
        }
    }
}

/// What one active eraser sample leaves of the page.
pub open spec fn erase_result(
    lines: Seq<Seq<Drawpoint>>,
    position: Point,
    pen_size: i64,
) -> Seq<Seq<Drawpoint>> {
    apply_splits(lines, erase_matches(lines, position, pen_size), 0)
}

/// The view of an exec removal queue.
pub open spec fn queue_view(q: Seq<(usize, usize)>) -> Seq<(int, int)>
    decreases q.len(),
{
    if q.len() == 0 {
        Seq::empty()
    } else {
        queue_view(q.drop_last()).push((q.last().0 as int, q.last().1 as int))
    }
}

/// The queue view maps the queue elementwise.
pub proof fn lemma_queue_view_index(q: Seq<(usize, usize)>)
    ensures
        queue_view(q).len() == q.len(),
        forall|k: int|
            0 <= k < q.len() ==> queue_view(q)[k] == (
                (#[trigger] q[k]).0 as int,
                q[k].1 as int,
            ),
    decreases q.len(),
{
    if q.len() > 0 {
        lemma_queue_view_index(q.drop_last());
        assert(forall|k: int| 0 <= k < q.len() - 1 ==> q.drop_last()[k] == #[trigger] q[k]);
    }
}

/// Erases draw points and splits the owning stroke where a point was
/// erased.
pub struct Eraser {}

impl Eraser {
    pub fn new() -> (t: Eraser) {
        Eraser {}
    }

    /// On an active sample, split every stroke at every point within
    /// `pen_size` of `position`, as [`erase_result`] describes.
    pub fn manipulate(
        &self,
        lines: &mut Vec<Vec<Drawpoint>>,
        position: Point,
        pen_size: i64,
        pen_is_active: bool,
    )
        requires
            lines_in_bounds(lines_view(*old(lines))),
            in_bounds(position),
            0 <= pen_size <= MAX_COORD,
        ensures
            pen_is_active ==> lines_view(*final(lines)) == erase_result(
                lines_view(*old(lines)),
                position,
                pen_size,
            ),
            !pen_is_active ==> *final(lines) == *old(lines),
    {
        if pen_is_active {
            let ghost all = lines_view(*lines);
            let queue = Self::collect_matches(lines, position, pen_size);
            let ghost q = queue_view(queue@);
            let mut t: usize = 0;
            let mut inserted: usize = 0;
            proof {
                lemma_queue_view_index(queue@);
                assert(q.skip(0) =~= q);
            }
            while t < queue.len()
                invariant
                    t <= queue@.len(),
                    inserted <= t,
                    q == queue_view(queue@),
                    apply_splits(lines_view(*lines), q.skip(t as int), inserted as int)
                        == apply_splits(all, q, 0),
                decreases queue@.len() - t,
            {
                let ghost before = lines_view(*lines);
                let (qi, qj) = queue[t];
                let nlines = lines.len();
                proof {
                    lemma_queue_view_index(queue@);
                    assert(nlines == lines@.len());
                    assert(q[t as int] == (qi as int, qj as int));
                    assert(q.skip(t as int).first() == (qi as int, qj as int));
                    assert(q.skip(t as int).drop_first() =~= q.skip(t + 1));
                }
                match qi.checked_add(inserted) {
                    Some(i) => {
                        if i < lines.len() {
                            let stroke_len = lines[i].len();
                            if qj < stroke_len {
                                let stroke = &mut lines[i];
                                let rest = stroke.split_off(qj);
                                lines.insert(i + 1, rest);
                                inserted += 1;
                                proof {
                                    assert(lines_view(*lines) =~~= split_at(
                                        before,
                                        i as int,
                                        qj as int,
                                    ));
                                }
                            }
                        }
                    },
                    None => {
                        proof {
                            assert(qi + inserted > usize::MAX);
                            assert(qi + inserted >= lines@.len());
                        }
                    },
                }
                t += 1;
            }
            proof {
                assert(q.skip(q.len() as int) =~= Seq::<(int, int)>::empty());
            }
        }
    }

    /// Scan every point of every stroke and collect the indices of those
    /// within reach, in scanning order.
    fn collect_matches(lines: &Vec<Vec<Drawpoint>>, position: Point, pen_size: i64) -> (queue: Vec<
        (usize, usize),
    >)
        requires
            lines_in_bounds(lines_view(*lines)),
            in_bounds(position),
            0 <= pen_size <= MAX_COORD,
        ensures
            queue_view(queue@) == erase_matches(lines_view(*lines), position, pen_size),
    {
        let ghost all = lines_view(*lines);
        let mut queue: Vec<(usize, usize)> = Vec::new();
        let mut i: usize = 0;
        proof {
            assert(all.take(0) =~= Seq::<Seq<Drawpoint>>::empty());
            assert(queue_view(queue@) =~= erase_matches(all.take(0), position, pen_size));
        }
        while i < lines.len()
            invariant
                i <= lines.len(),
                all == lines_view(*lines),
                lines_in_bounds(all),
                in_bounds(position),
                0 <= pen_size <= MAX_COORD,
                queue_view(queue@) == erase_matches(all.take(i as int), position, pen_size),
            decreases lines.len() - i,
        {
            let stroke = &lines[i];
            let ghost srow = all[i as int];
            let mut j: usize = 0;
            proof {
                assert(srow == stroke@);
                assert(srow.take(0) =~= Seq::<Drawpoint>::empty());
                assert(queue_view(queue@) == erase_matches(all.take(i as int), position, pen_size)
                    + stroke_matches(i as int, srow.take(0), position, pen_size));
            }
            while j < stroke.len()
                invariant
                    j <= stroke@.len(),
                    i < lines.len(),
                    all == lines_view(*lines),
                    stroke@ == all[i as int],
                    srow == all[i as int],
                    lines_in_bounds(all),
                    in_bounds(position),
                    0 <= pen_size <= MAX_COORD,
                    queue_view(queue@) == erase_matches(all.take(i as int), position, pen_size)
                        + stroke_matches(i as int, srow.take(j as int), position, pen_size),
                decreases stroke@.len() - j,
            {
                proof {
                    assert(all[i as int][j as int] == stroke@[j as int]);
                    assert(srow.take(j + 1).drop_last() =~= srow.take(j as int));
                    assert(srow.take(j + 1).last() == srow[j as int]);
                }
                let ghost prev_q = queue@;
                if is_within_reach(stroke[j].position, position, pen_size) {
                    queue.push((i, j));
                    proof {
                        assert(queue@ == prev_q.push((i, j)));
                        assert(queue@.drop_last() =~= prev_q);
                        assert(queue_view(queue@) == queue_view(prev_q).push((i as int, j as int)));
                        assert(stroke_matches(i as int, srow.take(j + 1), position, pen_size)
                            == stroke_matches(i as int, srow.take(j as int), position, pen_size).push(
                            (i as int, j as int),
                        ));
                        assert(queue_view(queue@) =~= erase_matches(
                            all.take(i as int),
                            position,
                            pen_size,
                        ) + stroke_matches(i as int, srow.take(j + 1), position, pen_size));
                    }
                }
                j += 1;
            }
            proof {
                assert(srow.take(srow.len() as int) =~= srow);
                assert(all.take(i + 1).drop_last() =~= all.take(i as int));
                assert(all.take(i + 1).last() == all[i as int]);
            }
            i += 1;
        }
        proof {
            assert(all.take(all.len() as int) =~= all);
        }
        queue
    }
}

} // verus!
