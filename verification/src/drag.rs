//! The drag tool: moves the closest stroke or image with the pointer.
//!
//! On the first active sample of a gesture the tool decides what it drags —
//! the nearest stroke point versus the nearest image handle, ties favoring
//! the stroke — and captures the starting position together with a full
//! copy of the page's strokes as a translation baseline.  Every later
//! sample translates the captured baseline by `position - start`, never the
//! live, already-moved state, so error does not compound across samples.

use crate::canvas::{
    clone_lines, images_view, lines_in_bounds, lines_view, BufferedImage, Drawpoint, Image,
    ImageView, Rgba,
};
use crate::geometry::{
    dist2, div_trunc, divide_trunc, in_bounds, lemma_div_trunc_bounds, squared_distance, Point,
    MAX_COORD,
};
use crate::queries::{
    best_of, closest_line_point, closest_line_position, lemma_best_of_min, lemma_best_of_none,
    lemma_best_of_push, lemma_closest_line_in_bounds,
};
use vstd::pervasive::VecAdditionalExecFns;
use vstd::prelude::*;

verus! {

/// Largest magnitude the drag tool accepts for image anchor coordinates and
/// raster dimensions.  A machine limit: it keeps every computed handle
/// position within the geometry's coordinate range.
pub const MAX_IMAGE_COORD: i64 = 500_000_000;

/// What the drag tool has taken hold of.
#[derive(Clone, Copy, PartialEq, Eq, Structural, Debug)]
pub enum DragMode {
    Line,
    BufferedImage,
    NoTarget,
}

/// A point translated by a drag vector.
pub open spec fn translate_point(p: Point, v: Point) -> Point {
    Point { x: (p.x + v.x) as i64, y: (p.y + v.y) as i64 }
}

/// A live stroke with every position replaced by the translated baseline
/// position; pen width and color stay those of the live point.  Where the
/// live stroke is longer than the baseline, the tail is left alone.
pub open spec fn drag_stroke(live: Seq<Drawpoint>, base: Seq<Drawpoint>, v: Point) -> Seq<
    Drawpoint,
> {
    Seq::new(
        live.len(),
        |k: int|
            if k < base.len() {
                Drawpoint {
                    position: translate_point(base[k].position, v),
                    line_width: live[k].line_width,
                    rgba: live[k].rgba,
                }
            } else {
                live[k]
            },
    )
}

/// An image's drag handle: `position + (raster_size - position) / 2`,
/// componentwise with truncating division — the midpoint between the
/// anchor and the raster's extent.  Deliberately asymmetric: drag
/// targeting depends on exactly this formula.
pub open spec fn handle_position(im: ImageView, b: BufferedImage) -> Point {
    Point {
        x: (im.position.x + div_trunc(b.width - im.position.x, 2)) as i64,
        y: (im.position.y + div_trunc(b.height - im.position.y, 2)) as i64,
    }
}

/// Whether an image's anchor lies within the drag tool's range.
pub open spec fn image_in_bounds(im: ImageView) -> bool {
    -MAX_IMAGE_COORD <= im.position.x <= MAX_IMAGE_COORD && -MAX_IMAGE_COORD <= im.position.y
        <= MAX_IMAGE_COORD
}

/// Whether a raster's dimensions lie within the drag tool's range.
pub open spec fn buffer_in_bounds(b: BufferedImage) -> bool {
    -MAX_IMAGE_COORD <= b.width <= MAX_IMAGE_COORD && -MAX_IMAGE_COORD <= b.height
        <= MAX_IMAGE_COORD
}

/// Whether a whole image list and its decoded buffer lie within range.
pub open spec fn images_in_bounds(images: Seq<ImageView>, buffer: Seq<BufferedImage>) -> bool {
    &&& forall|i: int| 0 <= i < images.len() ==> image_in_bounds(#[trigger] images[i])
    &&& forall|i: int| 0 <= i < buffer.len() ==> buffer_in_bounds(#[trigger] buffer[i])
}

/// A handle computed from in-range inputs lies within the geometry's range.
pub proof fn lemma_handle_in_bounds(im: ImageView, b: BufferedImage)
    requires
        image_in_bounds(im),
        buffer_in_bounds(b),
    ensures
        in_bounds(handle_position(im, b)),
{
    lemma_div_trunc_bounds(b.width - im.position.x, 2);
    lemma_div_trunc_bounds(b.height - im.position.y, 2);
    assert(div_trunc(b.width - im.position.x, 2) <= 500_000_000) by {
        if b.width - im.position.x >= 0 {
            vstd::arithmetic::div_mod::lemma_div_is_ordered(
                b.width - im.position.x,
                1_000_000_000,
                2,
            );
        }
    }
    assert(div_trunc(b.height - im.position.y, 2) <= 500_000_000) by {
        if b.height - im.position.y >= 0 {
            vstd::arithmetic::div_mod::lemma_div_is_ordered(
                b.height - im.position.y,
                1_000_000_000,
                2,
            );
        }
    }
}

/// A nearest-handle query on in-range images returns an in-range handle.
pub proof fn lemma_closest_image_in_bounds(
    images: Seq<ImageView>,
    buffer: Seq<BufferedImage>,
    pos: Point,
)
    requires
        images.len() == buffer.len(),
        images_in_bounds(images, buffer),
        closest_image_point(images, buffer, pos) is Some,
    ensures
        in_bounds(closest_image_point(images, buffer, pos)->Some_0.1),
{
    let cands = image_candidates(images, buffer);
    crate::queries::lemma_best_of_in(cands, pos);
    let b = best_of(cands, pos)->Some_0;
    let k = choose|k: int| 0 <= k < cands.len() && cands[k] == b;
    lemma_handle_in_bounds(images[k], buffer[k]);
}

/// The candidates of the image scan: each image's handle under its index.
pub open spec fn image_candidates(images: Seq<ImageView>, buffer: Seq<BufferedImage>) -> Seq<
    (int, Point),
> {
    Seq::new(images.len(), |i: int| (i, handle_position(images[i], buffer[i])))
}

/// What the nearest-image-handle query returns.
pub open spec fn closest_image_point(
    images: Seq<ImageView>,
    buffer: Seq<BufferedImage>,
    pos: Point,
) -> Option<(int, Point)> {
    best_of(image_candidates(images, buffer), pos)
}

/// The mode a gesture starts in: the nearer of the closest stroke point and
/// the closest image handle, ties (compared by squared distance) favoring
/// the stroke; whatever the page lacks drops out of the comparison.
pub open spec fn drag_mode_of(
    lines: Seq<Seq<Drawpoint>>,
    images: Seq<ImageView>,
    buffer: Seq<BufferedImage>,
    pos: Point,
) -> DragMode {
    match closest_line_point(lines, pos) {
        Some(lc) => match closest_image_point(images, buffer, pos) {
            Some(ic) => if dist2(lc.1, pos) <= dist2(ic.1, pos) {
                DragMode::Line
            } else {
                DragMode::BufferedImage
            },
            None => DragMode::Line,
        },
        None => match closest_image_point(images, buffer, pos) {
            Some(_) => DragMode::BufferedImage,
            None => DragMode::NoTarget,
        },
    }
}

/// Where a dragged image's anchor lands: the captured handle position plus
/// the drag vector, pulled back by half the raster size so the handle (the
/// image's visual center) tracks the pointer.
pub open spec fn dragged_image_anchor(prev: Point, v: Point, b: BufferedImage) -> Point {
    Point {
        x: (prev.x + v.x - div_trunc(b.width as int, 2)) as i64,
        y: (prev.y + v.y - div_trunc(b.height as int, 2)) as i64,
    }
}

/// Translate one stroke against its baseline: the live stroke with every
/// position replaced by the baseline position plus `vector`, as
/// [`drag_stroke`] describes.
pub fn translate_stroke(live: &Vec<Drawpoint>, base: &Vec<Drawpoint>, vector: Point) -> (r: Vec<
    Drawpoint,
>)
    requires
        forall|k: int| 0 <= k < base@.len() ==> in_bounds(#[trigger] base@[k].position),
        -2 * MAX_COORD <= vector.x <= 2 * MAX_COORD,
        -2 * MAX_COORD <= vector.y <= 2 * MAX_COORD,
    ensures
        r@ == drag_stroke(live@, base@, vector),
{
    let ghost target = drag_stroke(live@, base@, vector);
    let mut r: Vec<Drawpoint> = Vec::new();
    let mut k: usize = 0;
    while k < live.len()
        invariant
            k <= live@.len(),
            target == drag_stroke(live@, base@, vector),
            forall|t: int| 0 <= t < base@.len() ==> in_bounds(#[trigger] base@[t].position),
            -2 * MAX_COORD <= vector.x <= 2 * MAX_COORD,
            -2 * MAX_COORD <= vector.y <= 2 * MAX_COORD,
            r@ =~= target.take(k as int),
        decreases live@.len() - k,
    {
        let live_point = live[k];
        if k < base.len() {
            let base_point = base[k];
            let p = Point::new(base_point.position.x + vector.x, base_point.position.y + vector.y);
            r.push(Drawpoint::new(p, live_point.line_width, live_point.rgba));
        } else {
            r.push(live_point);
        }
        k += 1;
        proof {
            assert(r@ =~= target.take(k as int));
        }
    }
    proof {
        assert(r@ =~= target);
    }
    r
}

/// Drags the closest stroke or image, one at a time.
///
/// The captured previous values are the baselines every translation during
/// one gesture is computed against.
pub struct Drag {
    pub selection_index: usize,
    pub starting_position: Point,
    pub previous_pen_is_active: bool,
    pub previous_lines: Vec<Vec<Drawpoint>>,
    pub buffered_image_position: Point,
    pub previous_buffered_image_position: Point,
    pub mode: DragMode,
}

impl Drag {
    pub fn new() -> (t: Drag)
        ensures
            t.selection_index == 0,
            t.starting_position == (Point { x: 0, y: 0 }),
            t.previous_pen_is_active == false,
            lines_view(t.previous_lines) == Seq::<Seq<Drawpoint>>::empty(),
            t.buffered_image_position == (Point { x: 0, y: 0 }),
            t.previous_buffered_image_position == (Point { x: 0, y: 0 }),
            t.mode == DragMode::NoTarget,
    {
        let t = Drag {
            selection_index: 0,
            starting_position: Point::new(0, 0),
            previous_pen_is_active: false,
            previous_lines: Vec::new(),
            buffered_image_position: Point::new(0, 0),
            previous_buffered_image_position: Point::new(0, 0),
            mode: DragMode::NoTarget,
        };
        proof {
            assert(lines_view(t.previous_lines) =~= Seq::<Seq<Drawpoint>>::empty());
        }
        t
    }

    /// Scans every image handle of the current page (each image paired with
    /// its decoded raster) and returns the index and handle position of the
    /// handle of globally minimal distance to `position`; ties go to the
    /// lowest index.  `None` when there are no images.
    pub fn closest_image(
        images: &Vec<Image>,
        image_buffer: &Vec<BufferedImage>,
        position: Point,
    ) -> (r: Option<(usize, Point)>)
        requires
            images@.len() == image_buffer@.len(),
            images_in_bounds(images_view(*images), image_buffer@),
            in_bounds(position),
        ensures
            (match r {
                None => closest_image_point(images_view(*images), image_buffer@, position) is None,
                Some((i, p)) => {
                    closest_image_point(images_view(*images), image_buffer@, position) == Some(
                        (i as int, p),
                    ) && i < images@.len()
                },
            }),
            (r is None <==> images@.len() == 0),
            (r matches Some((i, p)) ==> forall|k: int|
                0 <= k < images@.len() ==> dist2(p, position) <= dist2(
                    #[trigger] handle_position(images_view(*images)[k], image_buffer@[k]),
                    position,
                )),
    {
        let ghost imv = images_view(*images);
        let ghost bufv = image_buffer@;
        let mut best: Option<(usize, Point)> = None;
        let mut best_d2: i64 = 0;
        let mut i: usize = 0;
        proof {
            assert(image_candidates(imv, bufv).take(0) =~= Seq::<(int, Point)>::empty());
        }
        while i < images.len()
            invariant
                i <= images@.len(),
                images@.len() == image_buffer@.len(),
                imv == images_view(*images),
                bufv == image_buffer@,
                images_in_bounds(imv, bufv),
                in_bounds(position),
                (match best {
                    None => best_of(image_candidates(imv, bufv).take(i as int), position) is None,
                    Some((bi, bp)) => {
                        best_of(image_candidates(imv, bufv).take(i as int), position) == Some(
                            (bi as int, bp),
                        ) && bi < i && best_d2 == dist2(bp, position)
                    },
                }),
            decreases images@.len() - i,
        {
            proof {
                assert(images@[i as int]@ == imv[i as int]);
            }
            let h = Self::get_handle_position(&images[i], &image_buffer[i]);
            proof {
                assert(h == handle_position(imv[i as int], bufv[i as int]));
                lemma_handle_in_bounds(imv[i as int], bufv[i as int]);
                assert(image_candidates(imv, bufv).take(i as int).push((i as int, h))
                    =~= image_candidates(imv, bufv).take(i + 1));
                lemma_best_of_push(
                    image_candidates(imv, bufv).take(i as int),
                    (i as int, h),
                    position,
                );
            }
            let d = squared_distance(h, position);
            match best {
                None => {
                    best = Some((i, h));
                    best_d2 = d;
                },
                Some((_bi, _bp)) => {
                    if d < best_d2 {
                        best = Some((i, h));
                        best_d2 = d;
                    }
                },
            }
            i += 1;
        }
        proof {
            assert(image_candidates(imv, bufv).take(images@.len() as int) =~= image_candidates(
                imv,
                bufv,
            ));
            lemma_best_of_none(image_candidates(imv, bufv), position);
            if best is Some {
                lemma_best_of_min(image_candidates(imv, bufv), position);
                let bp = best_of(image_candidates(imv, bufv), position)->Some_0.1;
                assert forall|k: int|
                    0 <= k < imv.len() implies dist2(bp, position) <= dist2(
                    #[trigger] handle_position(imv[k], bufv[k]),
                    position,
                ) by {
                    assert(image_candidates(imv, bufv)[k] == (k, handle_position(imv[k], bufv[k])));
                }
            }
        }
        best
    }

    /// The drag handle of one image: its visual center, computed from the
    /// anchor and the decoded raster's dimensions.
    pub fn get_handle_position(image: &Image, buffered_image: &BufferedImage) -> (h: Point)
        requires
            image_in_bounds(image@),
            buffer_in_bounds(*buffered_image),
        ensures
            h == handle_position(image@, *buffered_image),
    {
        let hx = image.position.x + divide_trunc(buffered_image.width - image.position.x, 2);
        let hy = image.position.y + divide_trunc(buffered_image.height - image.position.y, 2);
        proof {
            lemma_div_trunc_bounds(buffered_image.width - image.position.x as int, 2);
            lemma_div_trunc_bounds(buffered_image.height - image.position.y as int, 2);
        }
        Point::new(hx, hy)
    }

    /// Decide what the gesture drags, from the pointer position.
    fn set_mode(
        &mut self,
        lines: &Vec<Vec<Drawpoint>>,
        images: &Vec<Image>,
        image_buffer: &Vec<BufferedImage>,
        position: Point,
    )
        requires
            lines_in_bounds(lines_view(*lines)),
            images@.len() == image_buffer@.len(),
            images_in_bounds(images_view(*images), image_buffer@),
            in_bounds(position),
        ensures
            final(self).mode == drag_mode_of(
                lines_view(*lines),
                images_view(*images),
                image_buffer@,
                position,
            ),
            final(self).selection_index == old(self).selection_index,
            final(self).starting_position == old(self).starting_position,
            final(self).previous_pen_is_active == old(self).previous_pen_is_active,
            final(self).previous_lines == old(self).previous_lines,
            final(self).buffered_image_position == old(self).buffered_image_position,
            final(self).previous_buffered_image_position == old(self).previous_buffered_image_position,
    {
        self.mode = match closest_line_position(lines, position) {
            Some((_, closest_line_pos)) => {
                proof {
                    lemma_closest_line_in_bounds(lines_view(*lines), position);
                }
                match Self::closest_image(images, image_buffer, position) {
                    Some((_, closest_buffered_image_pos)) => {
                        proof {
                            lemma_closest_image_in_bounds(
                                images_view(*images),
                                image_buffer@,
                                position,
                            );
                        }
                        let line_distance = squared_distance(closest_line_pos, position);
                        let buffered_image_distance = squared_distance(
                            closest_buffered_image_pos,
                            position,
                        );
                        if line_distance <= buffered_image_distance {
                            DragMode::Line
                        } else {
                            DragMode::BufferedImage
                        }
                    },
                    None => DragMode::Line,
                }
            },
            None => match Self::closest_image(images, image_buffer, position) {
                Some(_) => DragMode::BufferedImage,
                None => DragMode::NoTarget,
            },
        };
    }

    /// Translate the target stroke from the captured baseline by `vector`;
    /// on the first active sample the baseline is captured first.
    fn line_drag(
        &mut self,
        lines: &mut Vec<Vec<Drawpoint>>,
        line_index: usize,
        vector: Point,
    )
        requires
            line_index < old(lines)@.len(),
            !old(self).previous_pen_is_active || line_index < old(self).previous_lines@.len(),
            lines_in_bounds(lines_view(*old(lines))),
            old(self).previous_pen_is_active ==> lines_in_bounds(
                lines_view(old(self).previous_lines),
            ),
            -2 * MAX_COORD <= vector.x <= 2 * MAX_COORD,
            -2 * MAX_COORD <= vector.y <= 2 * MAX_COORD,
        ensures
            !old(self).previous_pen_is_active ==> lines_view(final(self).previous_lines)
                == lines_view(*old(lines)),
            old(self).previous_pen_is_active ==> final(self).previous_lines == old(self).previous_lines,
            lines_view(*final(lines)) == lines_view(*old(lines)).update(
                line_index as int,
                drag_stroke(
                    lines_view(*old(lines))[line_index as int],
                    lines_view(final(self).previous_lines)[line_index as int],
                    vector,
                ),
            ),
            final(self).selection_index == old(self).selection_index,
            final(self).starting_position == old(self).starting_position,
            final(self).previous_pen_is_active == old(self).previous_pen_is_active,
            final(self).buffered_image_position == old(self).buffered_image_position,
            final(self).previous_buffered_image_position == old(self).previous_buffered_image_position,
            final(self).mode == old(self).mode,
    {
        if !self.previous_pen_is_active {
            self.previous_lines = clone_lines(lines);
            proof {
                assert(lines_view(self.previous_lines) =~~= lines_view(*lines));
            }
        }
        let ghost base_all = lines_view(self.previous_lines);
        let live_len = lines[line_index].len();
        let base_len = self.previous_lines[line_index].len();
        let bound = if live_len < base_len {
            live_len
        } else {
            base_len
        };
        let mut translated: Vec<Drawpoint> = Vec::new();
        let mut k: usize = 0;
        let ghost live = lines_view(*lines)[line_index as int];
        let ghost base = base_all[line_index as int];
        let ghost target = drag_stroke(live, base, vector);
        while k < bound
            invariant
                k <= bound,
                bound <= live_len,
                (if live_len < base_len {
                    bound == live_len
                } else {
                    bound == base_len
                }),
                live_len == live.len(),
                base_len == base.len(),
                line_index < lines@.len(),
                line_index < self.previous_lines@.len(),
                live == lines_view(*lines)[line_index as int],
                base == lines_view(self.previous_lines)[line_index as int],
                target == drag_stroke(live, base, vector),
                lines_in_bounds(lines_view(self.previous_lines)),
                -2 * MAX_COORD <= vector.x <= 2 * MAX_COORD,
                -2 * MAX_COORD <= vector.y <= 2 * MAX_COORD,
                translated@ =~= target.take(k as int),
            decreases bound - k,
        {
            let base_point = self.previous_lines[line_index][k];
            let live_point = lines[line_index][k];
            proof {
                assert(base[k as int] == base_point);
                assert(live[k as int] == live_point);
                assert(in_bounds(base_point.position));
            }
            let p = Point::new(base_point.position.x + vector.x, base_point.position.y + vector.y);
            translated.push(
                Drawpoint::new(p, live_point.line_width, live_point.rgba),
            );
            k += 1;
            proof {
                assert(translated@ =~= target.take(k as int));
            }
        }
        let mut j: usize = bound;
        while j < live_len
            invariant
                bound <= j,
                j <= live_len,
                live_len == live.len(),
                line_index < lines@.len(),
                live == lines_view(*lines)[line_index as int],
                target == drag_stroke(live, base, vector),
                bound >= base.len() || bound >= live.len(),
                translated@ =~= target.take(j as int),
            decreases live_len - j,
        {
            let live_point = lines[line_index][j];
            proof {
                assert(live[j as int] == live_point);
                assert(target[j as int] == live_point);
            }
            translated.push(live_point);
            j += 1;
            proof {
                assert(translated@ =~= target.take(j as int));
            }
        }
        proof {
            assert(translated@ =~= target);
        }
        lines.set(line_index, translated);
        proof {
            assert(lines_view(*lines) =~~= lines_view(*old(lines)).update(
                line_index as int,
                target,
            ));
        }
    }

    /// Translate the target image from the captured handle position by
    /// `vector`, offset by minus half the raster size; on the first active
    /// sample the handle position is captured first.
    fn buffered_image_drag(
        &mut self,
        images: &mut Vec<Image>,
        image_buffer: &Vec<BufferedImage>,
        buffered_image_index: usize,
        closest_buffered_image_position: Point,
        vector: Point,
    )
        requires
            buffered_image_index < old(images)@.len(),
            buffered_image_index < image_buffer@.len(),
            buffer_in_bounds(image_buffer@[buffered_image_index as int]),
            in_bounds(closest_buffered_image_position),
            old(self).previous_pen_is_active ==> in_bounds(
                old(self).previous_buffered_image_position,
            ),
            -2 * MAX_COORD <= vector.x <= 2 * MAX_COORD,
            -2 * MAX_COORD <= vector.y <= 2 * MAX_COORD,
        ensures
            final(self).previous_buffered_image_position == (if !old(self).previous_pen_is_active {
                closest_buffered_image_position
            } else {
                old(self).previous_buffered_image_position
            }),
            images_view(*final(images)) == images_view(*old(images)).update(
                buffered_image_index as int,
                ImageView {
                    path: images_view(*old(images))[buffered_image_index as int].path,
                    position: dragged_image_anchor(
                        final(self).previous_buffered_image_position,
                        vector,
                        image_buffer@[buffered_image_index as int],
                    ),
                },
            ),
            final(self).selection_index == old(self).selection_index,
            final(self).starting_position == old(self).starting_position,
            final(self).previous_pen_is_active == old(self).previous_pen_is_active,
            final(self).previous_lines == old(self).previous_lines,
            final(self).buffered_image_position == old(self).buffered_image_position,
            final(self).mode == old(self).mode,
    {
        if !self.previous_pen_is_active {
            self.previous_buffered_image_position = closest_buffered_image_position;
        }
        let b = image_buffer[buffered_image_index];
        proof {
            lemma_div_trunc_bounds(b.width as int, 2);
            lemma_div_trunc_bounds(b.height as int, 2);
        }
        let half_w = divide_trunc(b.width, 2);
        let half_h = divide_trunc(b.height, 2);
        let px = self.previous_buffered_image_position.x + vector.x - half_w;
        let py = self.previous_buffered_image_position.y + vector.y - half_h;
        let im = &mut images[buffered_image_index];
        im.position = Point::new(px, py);
        proof {
            assert(images_view(*images) =~~= images_view(*old(images)).update(
                buffered_image_index as int,
                ImageView {
                    path: images_view(*old(images))[buffered_image_index as int].path,
                    position: dragged_image_anchor(
                        self.previous_buffered_image_position,
                        vector,
                        image_buffer@[buffered_image_index as int],
                    ),
                },
            ));
        }
    }

    /// One pointer sample.  On the inactive-to-active edge the tool picks
    /// its mode and target and captures its baselines; on every active
    /// sample it translates the target from the baselines by
    /// `position - starting_position`; an inactive sample only records the
    /// pen state.
    pub fn manipulate(
        &mut self,
        lines: &mut Vec<Vec<Drawpoint>>,
        images: &mut Vec<Image>,
        image_buffer: &Vec<BufferedImage>,
        position: Point,
        _pen_size: i64,
        pen_is_active: bool,
        _rgba: Rgba,
    )
        requires
            old(images)@.len() == image_buffer@.len(),
            pen_is_active ==> in_bounds(position) && lines_in_bounds(lines_view(*old(lines)))
                && images_in_bounds(images_view(*old(images)), image_buffer@),
            pen_is_active && old(self).previous_pen_is_active ==> in_bounds(
                old(self).starting_position,
            ),
            pen_is_active && old(self).previous_pen_is_active && old(self).mode == DragMode::Line
                ==> old(self).selection_index < old(lines)@.len() && old(self).selection_index
                < old(self).previous_lines@.len() && lines_in_bounds(
                lines_view(old(self).previous_lines),
            ),
            pen_is_active && old(self).previous_pen_is_active && old(self).mode
                == DragMode::BufferedImage ==> old(images)@.len() > 0 && old(self).selection_index
                < old(images)@.len() && in_bounds(old(self).previous_buffered_image_position),
        ensures
            final(self).previous_pen_is_active == pen_is_active,
            final(self).buffered_image_position == old(self).buffered_image_position,
            !pen_is_active ==> *final(lines) == *old(lines) && *final(images) == *old(images)
                && final(self).selection_index == old(self).selection_index && final(self).starting_position == old(self).starting_position && final(self).previous_lines == old(self).previous_lines && final(self).previous_buffered_image_position == old(self).previous_buffered_image_position && final(self).mode == old(self).mode,
            pen_is_active ==> final(self).mode == (if !old(self).previous_pen_is_active {
                drag_mode_of(
                    lines_view(*old(lines)),
                    images_view(*old(images)),
                    image_buffer@,
                    position,
                )
            } else {
                old(self).mode
            }),
            pen_is_active ==> final(self).starting_position == (if !old(self).previous_pen_is_active {
                position
            } else {
                old(self).starting_position
            }),
            pen_is_active && final(self).mode == DragMode::NoTarget ==> *final(lines) == *old(
                lines,
            ) && *final(images) == *old(images) && final(self).selection_index == old(self).selection_index && final(self).previous_lines == old(self).previous_lines && final(self).previous_buffered_image_position == old(self).previous_buffered_image_position,
            pen_is_active && final(self).mode == DragMode::Line ==> *final(images) == *old(images)
                && final(self).previous_buffered_image_position == old(self).previous_buffered_image_position && final(self).selection_index == (if !old(self).previous_pen_is_active {
                closest_line_point(lines_view(*old(lines)), position)->Some_0.0 as usize
            } else {
                old(self).selection_index
            }) && (if !old(self).previous_pen_is_active {
                lines_view(final(self).previous_lines) == lines_view(*old(lines))
            } else {
                final(self).previous_lines == old(self).previous_lines
            }) && lines_view(*final(lines)) == lines_view(*old(lines)).update(
                final(self).selection_index as int,
                drag_stroke(
                    lines_view(*old(lines))[final(self).selection_index as int],
                    lines_view(final(self).previous_lines)[final(self).selection_index as int],
                    Point {
                        x: (position.x - final(self).starting_position.x) as i64,
                        y: (position.y - final(self).starting_position.y) as i64,
                    },
                ),
            ),
            pen_is_active && final(self).mode == DragMode::BufferedImage ==> *final(lines) == *old(
                lines,
            ) && final(self).previous_lines == old(self).previous_lines && final(self).selection_index == (if !old(self).previous_pen_is_active {
                closest_image_point(
                    images_view(*old(images)),
                    image_buffer@,
                    position,
                )->Some_0.0 as usize
            } else {
                old(self).selection_index
            }) && final(self).previous_buffered_image_position == (if !old(self).previous_pen_is_active {
                closest_image_point(images_view(*old(images)), image_buffer@, position)->Some_0.1
            } else {
                old(self).previous_buffered_image_position
            }) && images_view(*final(images)) == images_view(*old(images)).update(
                final(self).selection_index as int,
                ImageView {
                    path: images_view(*old(images))[final(self).selection_index as int].path,
                    position: dragged_image_anchor(
                        final(self).previous_buffered_image_position,
                        Point {
                            x: (position.x - final(self).starting_position.x) as i64,
                            y: (position.y - final(self).starting_position.y) as i64,
                        },
                        image_buffer@[final(self).selection_index as int],
                    ),
                },
            ),
    {
        if pen_is_active {
            if !self.previous_pen_is_active {
                self.set_mode(lines, images, image_buffer, position);
                self.starting_position = position;
            }
            let vector = Point::new(
                position.x - self.starting_position.x,
                position.y - self.starting_position.y,
            );
            match self.mode {
                DragMode::Line => {
                    if !self.previous_pen_is_active {
                        match closest_line_position(lines, position) {
                            Some((idx, _p)) => {
                                self.selection_index = idx;
                            },
                            None => {
                                proof {
                                    assert(false);
                                }
                            },
                        }
                    }
                    let idx = self.selection_index;
                    self.line_drag(lines, idx, vector);
                },
                DragMode::BufferedImage => {
                    proof {
                        if self.previous_pen_is_active {
                            lemma_best_of_none(
                                image_candidates(images_view(*images), image_buffer@),
                                position,
                            );
                        }
                    }
                    match Self::closest_image(images, image_buffer, position) {
                        Some((bidx, cpos)) => {
                            if !self.previous_pen_is_active {
                                self.selection_index = bidx;
                            }
                            let idx = self.selection_index;
                            proof {
                                lemma_closest_image_in_bounds(
                                    images_view(*images),
                                    image_buffer@,
                                    position,
                                );
                            }
                            self.buffered_image_drag(images, image_buffer, idx, cpos, vector);
                        },
                        None => {
                            proof {
                                assert(false);
                            }
                        },
                    }
                },
                DragMode::NoTarget => {},
            }
        }
        self.previous_pen_is_active = pen_is_active;
    }
}

} // verus!
