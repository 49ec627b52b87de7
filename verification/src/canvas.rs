//! The canvas data model: draw points, strokes, images, pages.
//!
//! A stroke is an ordered `Vec<Drawpoint>`; a page holds an ordered stroke
//! list and an ordered image list.  Contracts speak about pages through
//! mathematical views (`Seq`-based ghost structs), reached with `@`.

use crate::geometry::{in_bounds, Point};
use vstd::prelude::*;

verus! {

/// Color and opacity of one drawn point, in integer color units.
#[derive(Clone, Copy, PartialEq, Eq, Structural, Debug)]
pub struct Rgba {
    pub red: i64,
    pub green: i64,
    pub blue: i64,
    pub alpha: i64,
}

/// One sampled canvas position plus the pen width and color active at that
/// sample.  A stroke is an ordered sequence of these.
#[derive(Clone, Copy, PartialEq, Eq, Structural, Debug)]
pub struct Drawpoint {
    pub position: Point,
    pub line_width: i64,
    pub rgba: Rgba,
}

impl Drawpoint {
    pub fn new(position: Point, line_width: i64, rgba: Rgba) -> (p: Drawpoint)
        ensures
            p == (Drawpoint { position, line_width, rgba }),
    {
        Drawpoint { position, line_width, rgba }
    }
}

/// A placed raster image: a file path (kept as opaque bytes; the host turns
/// them into a real path) and the top-left anchor position on the canvas.
#[derive(Debug)]
pub struct Image {
    pub path: Vec<u8>,
    pub position: Point,
}

/// Mathematical view of an [`Image`].
#[verifier::ext_equal]
pub ghost struct ImageView {
    pub path: Seq<u8>,
    pub position: Point,
}

impl View for Image {
    type V = ImageView;

    open spec fn view(&self) -> ImageView {
        ImageView { path: self.path@, position: self.position }
    }
}

impl Image {
    pub fn new(path: Vec<u8>, position: Point) -> (im: Image)
        ensures
            im@ == (ImageView { path: path@, position }),
    {
        Image { path, position }
    }
}

impl Clone for Image {
    fn clone(&self) -> (r: Self)
        ensures
            r@ == self@,
    {
        Image { path: clone_bytes(&self.path), position: self.position }
    }
}

/// The decoded-raster side of an image: the pixel dimensions the decode
/// collaborator reported for the image at the same index of the current
/// page's image list.  The raster handle itself stays with the renderer.
#[derive(Clone, Copy, PartialEq, Eq, Structural, Debug)]
pub struct BufferedImage {
    pub width: i64,
    pub height: i64,
}

impl BufferedImage {
    pub fn new(width: i64, height: i64) -> (b: BufferedImage)
        ensures
            b == (BufferedImage { width, height }),
    {
        BufferedImage { width, height }
    }
}

/// One page of the document: its strokes (`lines`, in draw order) and its
/// placed images.
#[derive(Debug)]
pub struct Page {
    pub lines: Vec<Vec<Drawpoint>>,
    pub images: Vec<Image>,
}

/// Mathematical view of a [`Page`].
#[verifier::ext_equal]
pub ghost struct PageView {
    pub lines: Seq<Seq<Drawpoint>>,
    pub images: Seq<ImageView>,
}

/// The view of a stroke list: each stroke as a `Seq`.
pub open spec fn lines_view(lines: Vec<Vec<Drawpoint>>) -> Seq<Seq<Drawpoint>> {
    lines@.map_values(|s: Vec<Drawpoint>| s@)
}

/// The view of an image list.
pub open spec fn images_view(images: Vec<Image>) -> Seq<ImageView> {
    images@.map_values(|im: Image| im@)
}

impl View for Page {
    type V = PageView;

    open spec fn view(&self) -> PageView {
        PageView { lines: lines_view(self.lines), images: images_view(self.images) }
    }
}

impl Page {
    /// A fresh page: no strokes, no images.
    pub fn new() -> (p: Page)
        ensures
            p@.lines =~= Seq::<Seq<Drawpoint>>::empty(),
            p@.images =~= Seq::<ImageView>::empty(),
    {
        Page { lines: Vec::new(), images: Vec::new() }
    }
}

impl Clone for Page {
    fn clone(&self) -> (r: Self)
        ensures
            r@ == self@,
    {
        let r = Page { lines: clone_lines(&self.lines), images: clone_images(&self.images) };
        proof {
            assert(r@.lines =~= self@.lines);
            assert(r@.images =~= self@.images);
            assert(r@ =~= self@);
        }
        r
    }
}

/// The view of a whole page list.
pub open spec fn pages_view(pages: Seq<Page>) -> Seq<PageView> {
    pages.map_values(|p: Page| p@)
}

/// Whether every point of every stroke lies within the coordinate range the
/// geometry accepts.
pub open spec fn lines_in_bounds(lines: Seq<Seq<Drawpoint>>) -> bool {
    forall|i: int, j: int|
        0 <= i < lines.len() && 0 <= j < lines[i].len() ==> in_bounds(
            #[trigger] lines[i][j].position,
        )
}

/// Deep copy of a byte vector.
pub fn clone_bytes(s: &Vec<u8>) -> (r: Vec<u8>)
    ensures
        r@ == s@,
{
    let mut r: Vec<u8> = Vec::new();
    let mut i: usize = 0;
    while i < s.len()
        invariant
            i <= s.len(),
            r@ =~= s@.take(i as int),
        decreases s.len() - i,
    {
        r.push(s[i]);
        i += 1;
    }
    proof {
        assert(r@ =~= s@);
    }
    r
}

/// Deep copy of one stroke.
pub fn clone_stroke(s: &Vec<Drawpoint>) -> (r: Vec<Drawpoint>)
    ensures
        r@ == s@,
{
    let mut r: Vec<Drawpoint> = Vec::new();
    let mut i: usize = 0;
    while i < s.len()
        invariant
            i <= s.len(),
            r@ =~= s@.take(i as int),
        decreases s.len() - i,
    {
        r.push(s[i]);
        i += 1;
    }
    proof {
        assert(r@ =~= s@);
    }
    r
}

/// Deep copy of a stroke list; tools capture such copies as gesture
/// baselines.
pub fn clone_lines(lines: &Vec<Vec<Drawpoint>>) -> (r: Vec<Vec<Drawpoint>>)
    ensures
        lines_view(r) == lines_view(*lines),
{
    let mut r: Vec<Vec<Drawpoint>> = Vec::new();
    let mut i: usize = 0;
    while i < lines.len()
        invariant
            i <= lines.len(),
            lines_view(r) =~~= lines_view(*lines).take(i as int),
        decreases lines.len() - i,
    {
        let ghost prev = r@;
        let s = clone_stroke(&lines[i]);
        r.push(s);
        i += 1;
        proof {
            assert(r@ == prev.push(s));
            assert(prev.map_values(|t: Vec<Drawpoint>| t@).len() == i - 1);
            assert(prev.len() == i - 1);
            assert(lines_view(r).len() == i);
            assert forall|k: int| 0 <= k < i implies lines_view(r)[k] == lines_view(
                *lines,
            ).take(i as int)[k] by {
                if k < i - 1 {
                    assert(lines_view(r)[k] == r@[k]@);
                } else {
                    assert(r@[k] == s);
                }
            }
            assert(lines_view(r) =~~= lines_view(*lines).take(i as int));
        }
    }
    proof {
        assert(lines_view(r) =~~= lines_view(*lines));
    }
    r
}

/// Deep copy of an image list.
pub fn clone_images(images: &Vec<Image>) -> (r: Vec<Image>)
    ensures
        images_view(r) == images_view(*images),
{
    let mut r: Vec<Image> = Vec::new();
    let mut i: usize = 0;
    while i < images.len()
        invariant
            i <= images.len(),
            images_view(r) =~~= images_view(*images).take(i as int),
        decreases images.len() - i,
    {
        let ghost prev = r@;
        let im = images[i].clone();
        r.push(im);
        i += 1;
        proof {
            assert(r@ == prev.push(im));
            assert(prev.map_values(|t: Image| t@).len() == i - 1);
            assert(images_view(r) =~~= images_view(*images).take(i as int));
        }
    }
    proof {
        assert(images_view(r) =~~= images_view(*images));
    }
    r
}

} // verus!

verus! {

/// Deep copy of a whole page list; the history keeps such copies as
/// snapshots, so later edits of the live document never touch them.
pub fn clone_pages(pages: &Vec<Page>) -> (r: Vec<Page>)
    ensures
        pages_view(r@) == pages_view(pages@),
        r@.len() == pages@.len(),
{
    let mut r: Vec<Page> = Vec::new();
    let mut i: usize = 0;
    while i < pages.len()
        invariant
            i <= pages@.len(),
            pages_view(r@) =~~= pages_view(pages@).take(i as int),
            r@.len() == i,
        decreases pages@.len() - i,
    {
        let ghost prev = r@;
        let p = pages[i].clone();
        r.push(p);
        i += 1;
        proof {
            assert(r@ == prev.push(p));
            assert(prev.map_values(|t: Page| t@).len() == prev.len());
            assert(pages_view(r@) =~~= pages_view(pages@).take(i as int));
        }
    }
    proof {
        assert(pages_view(pages@).take(pages@.len() as int) =~= pages_view(pages@));
    }
    r
}

} // verus!
