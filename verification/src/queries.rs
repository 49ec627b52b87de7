//! Nearest-point queries over the current page.
//!
//! Every tool that targets "the closest thing to the pointer" scans a list of
//! candidate points and keeps the first one of globally minimal distance.
//! The scan is specified by [`best_of`], a left fold that replaces the
//! current best only on strictly smaller squared distance — so ties keep the
//! earliest candidate, exactly as the scanning order encounters them.

use crate::canvas::{lines_in_bounds, lines_view, Drawpoint};
use crate::geometry::{dist2, in_bounds, squared_distance, Point};
use vstd::prelude::*;

verus! {

/// The first candidate of minimal squared distance to `pos`, folding from
/// the left; each candidate is an index paired with a point.
pub open spec fn best_of(cands: Seq<(int, Point)>, pos: Point) -> Option<(int, Point)>
    decreases cands.len(),
{
    if cands.len() == 0 {
        None
    } else {
        let prev = best_of(cands.drop_last(), pos);
        let c = cands.last();
        match prev {
            None => Some(c),
            Some(b) => if dist2(c.1, pos) < dist2(b.1, pos) {
                Some(c)
            } else {
                Some(b)
            },
        }
    }
}

/// The candidates a single stroke contributes: its points, all under the
/// stroke's index.
pub open spec fn stroke_candidates(i: int, stroke: Seq<Drawpoint>) -> Seq<(int, Point)> {
    Seq::new(stroke.len(), |j: int| (i, stroke[j].position))
}

/// All candidate points of a stroke list, in scanning order: stroke by
/// stroke, point by point.
pub open spec fn line_candidates(lines: Seq<Seq<Drawpoint>>) -> Seq<(int, Point)>
    decreases lines.len(),
{
    if lines.len() == 0 {
        Seq::empty()
    } else {
        line_candidates(lines.drop_last()) + stroke_candidates(
            lines.len() - 1,
            lines.last(),
        )
    }
}

/// What the nearest-stroke-point query returns.
pub open spec fn closest_line_point(lines: Seq<Seq<Drawpoint>>, pos: Point) -> Option<
    (int, Point),
> {
    best_of(line_candidates(lines), pos)
}

/// Extending the scan by one candidate keeps the old best unless the new
/// candidate is strictly closer.
pub proof fn lemma_best_of_push(cands: Seq<(int, Point)>, c: (int, Point), pos: Point)
    ensures
        best_of(cands.push(c), pos) == (match best_of(cands, pos) {
            None => Some(c),
            Some(b) => if dist2(c.1, pos) < dist2(b.1, pos) {
                Some(c)
            } else {
                Some(b)
            },
        }),
{
    assert(cands.push(c).drop_last() =~= cands);
    assert(cands.push(c).last() == c);
}

/// A returned best candidate is one of the candidates.
pub proof fn lemma_best_of_in(cands: Seq<(int, Point)>, pos: Point)
    requires
        best_of(cands, pos) is Some,
    ensures
        cands.contains(best_of(cands, pos)->Some_0),
    decreases cands.len(),
{
    let b = best_of(cands, pos)->Some_0;
    if cands.len() > 0 {
        if b == cands.last() {
            assert(cands[cands.len() - 1] == b);
        } else {
            lemma_best_of_in(cands.drop_last(), pos);
            let i = choose|i: int|
                0 <= i < cands.drop_last().len() && cands.drop_last()[i] == b;
            assert(cands[i] == b);
        }
    }
}

/// The returned best candidate is at minimal squared distance among all
/// candidates.
pub proof fn lemma_best_of_min(cands: Seq<(int, Point)>, pos: Point)
    requires
        best_of(cands, pos) is Some,
    ensures
        forall|k: int|
            0 <= k < cands.len() ==> dist2(best_of(cands, pos)->Some_0.1, pos) <= dist2(
                (#[trigger] cands[k]).1,
                pos,
            ),
    decreases cands.len(),
{
    if cands.len() > 0 {
        if best_of(cands.drop_last(), pos) is Some {
            lemma_best_of_min(cands.drop_last(), pos);
            assert(forall|k: int|
                0 <= k < cands.len() - 1 ==> cands.drop_last()[k] == #[trigger] cands[k]);
        }
    }
}

/// The scan comes back empty-handed exactly when there are no candidates.
pub proof fn lemma_best_of_none(cands: Seq<(int, Point)>, pos: Point)
    ensures
        best_of(cands, pos) is None <==> cands.len() == 0,
    decreases cands.len(),
{
    if cands.len() > 0 {
        lemma_best_of_none(cands.drop_last(), pos);
    }
}

/// Candidate lists grow stroke by stroke along a prefix of the page.
pub proof fn lemma_line_candidates_step(lines: Seq<Seq<Drawpoint>>, i: int)
    requires
        0 <= i < lines.len(),
    ensures
        line_candidates(lines.take(i + 1)) == line_candidates(lines.take(i)) + stroke_candidates(
            i,
            lines[i],
        ),
{
    let t = lines.take(i + 1);
    assert(t.drop_last() =~= lines.take(i));
    assert(t.last() == lines[i]);
    assert(line_candidates(t) == line_candidates(lines.take(i)) + stroke_candidates(i, lines[i]));
}

/// Every candidate of a stroke list carries a stroke index in range and the
/// position of one of that stroke's points.
pub proof fn lemma_line_candidates_elem(lines: Seq<Seq<Drawpoint>>, k: int)
    requires
        0 <= k < line_candidates(lines).len(),
    ensures
        0 <= line_candidates(lines)[k].0 < lines.len(),
        exists|j: int|
            0 <= j < lines[line_candidates(lines)[k].0].len() && lines[line_candidates(
                lines,
            )[k].0][j].position == line_candidates(lines)[k].1,
    decreases lines.len(),
{
    if lines.len() > 0 {
        let front = line_candidates(lines.drop_last());
        if k < front.len() {
            lemma_line_candidates_elem(lines.drop_last(), k);
            let c = line_candidates(lines)[k];
            assert(c == front[k]);
            assert(lines.drop_last()[c.0] == lines[c.0]);
        } else {
            let j = k - front.len();
            let c = line_candidates(lines)[k];
            assert(c == stroke_candidates(lines.len() - 1, lines.last())[j]);
            assert(lines[lines.len() - 1][j].position == c.1);
        }
    }
}

/// A page with no points has no candidates, and conversely.
pub proof fn lemma_line_candidates_empty(lines: Seq<Seq<Drawpoint>>)
    ensures
        line_candidates(lines).len() == 0 <==> (forall|i: int|
            0 <= i < lines.len() ==> (#[trigger] lines[i]).len() == 0),
    decreases lines.len(),
{
    if lines.len() > 0 {
        lemma_line_candidates_empty(lines.drop_last());
        assert(forall|i: int|
            0 <= i < lines.len() - 1 ==> lines.drop_last()[i] == #[trigger] lines[i]);
        if line_candidates(lines).len() == 0 {
            assert(lines[lines.len() - 1].len() == 0);
        }
    }
}

/// Every stroke point appears among the candidates, under its stroke's
/// index.
pub proof fn lemma_point_is_candidate(lines: Seq<Seq<Drawpoint>>, a: int, b: int)
    requires
        0 <= a < lines.len(),
        0 <= b < lines[a].len(),
    ensures
        line_candidates(lines).contains((a, lines[a][b].position)),
    decreases lines.len(),
{
    let front = line_candidates(lines.drop_last());
    if a == lines.len() - 1 {
        assert(line_candidates(lines)[front.len() + b] == (a, lines[a][b].position));
    } else {
        assert(lines.drop_last()[a] == lines[a]);
        lemma_point_is_candidate(lines.drop_last(), a, b);
        let k = choose|k: int| 0 <= k < front.len() && front[k] == (a, lines[a][b].position);
        assert(line_candidates(lines)[k] == (a, lines[a][b].position));
    }
}

/// A nearest-point query on an in-range page returns an in-range point.
pub proof fn lemma_closest_line_in_bounds(lines: Seq<Seq<Drawpoint>>, pos: Point)
    requires
        lines_in_bounds(lines),
        closest_line_point(lines, pos) is Some,
    ensures
        in_bounds(closest_line_point(lines, pos)->Some_0.1),
{
    let cands = line_candidates(lines);
    lemma_best_of_in(cands, pos);
    let b = best_of(cands, pos)->Some_0;
    let k = choose|k: int| 0 <= k < cands.len() && cands[k] == b;
    lemma_line_candidates_elem(lines, k);
}

/// Scans every point of every stroke on the page and returns the index of
/// the owning stroke and the position of the point of globally minimal
/// distance to `position`; ties go to the first point encountered (lowest
/// stroke index, then lowest point index).  `None` when the page has no
/// points at all.
pub fn closest_line_position(lines: &Vec<Vec<Drawpoint>>, position: Point) -> (r: Option<
    (usize, Point),
>)
    requires
        lines_in_bounds(lines_view(*lines)),
        in_bounds(position),
    ensures
        (match r {
            None => closest_line_point(lines_view(*lines), position) is None,
            Some((i, p)) => {
                closest_line_point(lines_view(*lines), position) == Some((i as int, p))
                    && i < lines.len()
            },
        }),
        (r is None <==> (forall|a: int|
            0 <= a < lines_view(*lines).len() ==> (#[trigger] lines_view(*lines)[a]).len() == 0)),
        (r matches Some((i, p)) ==> forall|a: int, b: int|
            0 <= a < lines_view(*lines).len() && 0 <= b < lines_view(*lines)[a].len() ==> dist2(
                p,
                position,
            ) <= dist2((#[trigger] lines_view(*lines)[a][b]).position, position)),
{
    let ghost all = lines_view(*lines);
    let mut best: Option<(usize, Point)> = None;
    let mut best_d2: i64 = 0;
    let mut i: usize = 0;
    proof {
        assert(all.take(0) =~= Seq::<Seq<Drawpoint>>::empty());
    }
    while i < lines.len()
        invariant
            i <= lines.len(),
            lines_in_bounds(all),
            in_bounds(position),
            all == lines_view(*lines),
            (match best {
                None => best_of(line_candidates(all.take(i as int)), position) is None,
                Some((bi, bp)) => {
                    best_of(line_candidates(all.take(i as int)), position) == Some((bi as int, bp))
                        && bi < i && best_d2 == dist2(bp, position)
                },
            }),
        decreases lines.len() - i,
    {
        let stroke = &lines[i];
        let ghost srow = all[i as int];
        let mut j: usize = 0;
        proof {
            assert(srow == lines@[i as int]@);
            assert(stroke_candidates(i as int, srow.take(0)) =~= Seq::<(int, Point)>::empty());
            assert(line_candidates(all.take(i as int)) + stroke_candidates(i as int, srow.take(0))
                =~= line_candidates(all.take(i as int)));
        }
        while j < stroke.len()
            invariant
                j <= stroke.len(),
                i < lines.len(),
                lines_in_bounds(all),
                in_bounds(position),
                all == lines_view(*lines),
                stroke@ == all[i as int],
                srow == all[i as int],
                (match best {
                    None => best_of(
                        line_candidates(all.take(i as int)) + stroke_candidates(
                            i as int,
                            srow.take(j as int),
                        ),
                        position,
                    ) is None,
                    Some((bi, bp)) => {
                        best_of(
                            line_candidates(all.take(i as int)) + stroke_candidates(
                                i as int,
                                srow.take(j as int),
                            ),
                            position,
                        ) == Some((bi as int, bp)) && bi <= i && best_d2 == dist2(
                            bp,
                            position,
                        )
                    },
                }),
            decreases stroke.len() - j,
        {
            let p = stroke[j].position;
            proof {
                assert(all[i as int][j as int] == stroke@[j as int]);
                assert(in_bounds(p));
                let prefix = line_candidates(all.take(i as int)) + stroke_candidates(
                    i as int,
                    srow.take(j as int),
                );
                assert(prefix.push((i as int, p)) =~= line_candidates(all.take(i as int))
                    + stroke_candidates(i as int, srow.take(j + 1)));
                lemma_best_of_push(prefix, (i as int, p), position);
            }
            let d = squared_distance(p, position);
            match best {
                None => {
                    best = Some((i, p));
                    best_d2 = d;
                },
                Some((_bi, _bp)) => {
                    if d < best_d2 {
                        best = Some((i, p));
                        best_d2 = d;
                    }
                },
            }
            j += 1;
        }
        proof {
            assert(srow.take(srow.len() as int) =~= srow);
            lemma_line_candidates_step(all, i as int);
        }
        i += 1;
    }
    proof {
        assert(all.take(all.len() as int) =~= all);
        lemma_best_of_none(line_candidates(all), position);
        lemma_line_candidates_empty(all);
        if best is Some {
            lemma_best_of_min(line_candidates(all), position);
            let bp = best_of(line_candidates(all), position)->Some_0.1;
            assert forall|a: int, b: int|
                0 <= a < all.len() && 0 <= b < all[a].len() implies dist2(bp, position) <= dist2(
                (#[trigger] all[a][b]).position,
                position,
            ) by {
                lemma_point_is_candidate(all, a, b);
                let cands = line_candidates(all);
                let k = choose|k: int|
                    0 <= k < cands.len() && cands[k] == (a, all[a][b].position);
                assert(dist2(bp, position) <= dist2(cands[k].1, position));
            }
        }
    }
    best
}

} // verus!
