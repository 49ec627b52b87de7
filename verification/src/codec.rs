//! The persistence codec.
//!
//! A document — the ordered page list — serializes to a textual structured
//! format: a stream of space-terminated decimal numbers and length-prefixed
//! byte strings.  Each page carries its stroke list (each stroke an ordered
//! list of points, every point its position, pen width and color) and its
//! image list (each image its path bytes and position).  Deserialization
//! accepts exactly the canonical encodings and rebuilds the document
//! verbatim; the decoded-raster cache is never persisted.
//!
//! Layout, in order: page count; per page the stroke count, each stroke as
//! its point count followed by `x y width red green blue alpha` per point,
//! then the image count, each image as its path (byte count, the bytes, a
//! terminator) followed by `x y`.

use crate::canvas::{Drawpoint, Image, ImageView, Page, PageView, Rgba};
use crate::geometry::Point;
use vstd::prelude::*;

verus! {

/// The separator that ends every number and every byte string.
pub const SEPARATOR: u8 = 32;

/// The sign that opens a negative number.
pub const MINUS: u8 = 45;

/// Whether a byte is an ASCII decimal digit.
pub open spec fn is_digit(c: u8) -> bool {
    48 <= c <= 57
}

/// The decimal digits of `n`, most significant first, no leading zeros.
pub open spec fn dec_rep(n: nat) -> Seq<u8>
    decreases n,
{
    if n < 10 {
        seq![(48 + n) as u8]
    } else {
        dec_rep(n / 10).push((48 + n % 10) as u8)
    }
}

/// An unsigned number: its digits and the separator.
pub open spec fn ser_u64(n: nat) -> Seq<u8> {
    dec_rep(n) + seq![SEPARATOR]
}

/// A signed number: a minus sign where needed, the magnitude's digits and
/// the separator.
pub open spec fn ser_i64(x: int) -> Seq<u8> {
    if x < 0 {
        seq![MINUS] + dec_rep((-x) as nat) + seq![SEPARATOR]
    } else {
        ser_u64(x as nat)
    }
}

/// A byte string: its length, the raw bytes, and the separator.
pub open spec fn ser_bytes(b: Seq<u8>) -> Seq<u8> {
    ser_u64(b.len()) + b + seq![SEPARATOR]
}

/// A canvas position: both coordinates.
pub open spec fn ser_point(p: Point) -> Seq<u8> {
    ser_i64(p.x as int) + ser_i64(p.y as int)
}

/// One draw point: position, pen width, four color channels.
pub open spec fn ser_drawpoint(d: Drawpoint) -> Seq<u8> {
    ser_point(d.position) + ser_i64(d.line_width as int) + ser_i64(d.rgba.red as int) + ser_i64(
        d.rgba.green as int,
    ) + ser_i64(d.rgba.blue as int) + ser_i64(d.rgba.alpha as int)
}

/// A run of draw points, in order.
pub open spec fn ser_stroke_items(s: Seq<Drawpoint>) -> Seq<u8>
    decreases s.len(),
{
    if s.len() == 0 {
        Seq::empty()
    } else {
        ser_drawpoint(s.first()) + ser_stroke_items(s.drop_first())
    }
}

/// One stroke: its point count, then its points.
pub open spec fn ser_stroke(s: Seq<Drawpoint>) -> Seq<u8> {
    ser_u64(s.len()) + ser_stroke_items(s)
}

/// A run of strokes, in order.
pub open spec fn ser_lines_items(lines: Seq<Seq<Drawpoint>>) -> Seq<u8>
    decreases lines.len(),
{
    if lines.len() == 0 {
        Seq::empty()
    } else {
        ser_stroke(lines.first()) + ser_lines_items(lines.drop_first())
    }
}

/// One placed image: its path bytes and its position.
pub open spec fn ser_image(im: ImageView) -> Seq<u8> {
    ser_bytes(im.path) + ser_point(im.position)
}

/// A run of images, in order.
pub open spec fn ser_images_items(images: Seq<ImageView>) -> Seq<u8>
    decreases images.len(),
{
    if images.len() == 0 {
        Seq::empty()
    } else {
        ser_image(images.first()) + ser_images_items(images.drop_first())
    }
}

/// One page: its stroke count and strokes, then its image count and
/// images.
pub open spec fn ser_page(p: PageView) -> Seq<u8> {
    ser_u64(p.lines.len()) + ser_lines_items(p.lines) + ser_u64(p.images.len())
        + ser_images_items(p.images)
}

/// A run of pages, in order.
pub open spec fn ser_pages_items(pages: Seq<PageView>) -> Seq<u8>
    decreases pages.len(),
{
    if pages.len() == 0 {
        Seq::empty()
    } else {
        ser_page(pages.first()) + ser_pages_items(pages.drop_first())
    }
}

/// The whole document: its page count, then its pages.
pub open spec fn ser_doc(pages: Seq<PageView>) -> Seq<u8> {
    ser_u64(pages.len()) + ser_pages_items(pages)
}

// ---------------------------------------------------------------------
// The specification-level parser.  Each function consumes a prefix of the
// byte stream and yields the parsed value together with the remaining
// suffix, or nothing where the stream is not a canonical encoding.
// ---------------------------------------------------------------------

/// Greedy split of a stream into its leading digit run and the rest.
pub open spec fn p_digits(s: Seq<u8>) -> (Seq<u8>, Seq<u8>)
    decreases s.len(),
{
    if s.len() > 0 && is_digit(s.first()) {
        let (d, r) = p_digits(s.drop_first());
        (seq![s.first()] + d, r)
    } else {
        (Seq::empty(), s)
    }
}

/// The value of a digit run, most significant digit first.
pub open spec fn digits_val(d: Seq<u8>) -> nat
    decreases d.len(),
{
    if d.len() == 0 {
        0
    } else {
        digits_val(d.drop_last()) * 10 + (d.last() - 48) as nat
    }
}

/// Parse an unsigned number: a non-empty digit run without a leading zero,
/// whose value fits a `u64`, ended by the separator.
pub open spec fn p_u64(s: Seq<u8>) -> Option<(nat, Seq<u8>)> {
    let (d, r) = p_digits(s);
    if d.len() >= 1 && (d.len() > 1 ==> d.first() != 48) && digits_val(d) <= u64::MAX && r.len()
        >= 1 && r.first() == SEPARATOR {
        Some((digits_val(d), r.drop_first()))
    } else {
        None
    }
}

/// Parse a signed number: an optional minus sign before a magnitude; the
/// value must fit an `i64` and a minus sign demands a nonzero magnitude.
pub open spec fn p_i64(s: Seq<u8>) -> Option<(int, Seq<u8>)> {
    if s.len() >= 1 && s.first() == MINUS {
        match p_u64(s.drop_first()) {
            Some((m, r)) => if 1 <= m <= 0x8000_0000_0000_0000 {
                Some((-(m as int), r))
            } else {
                None
            },
            None => None,
        }
    } else {
        match p_u64(s) {
            Some((m, r)) => if m <= i64::MAX {
                Some((m as int, r))
            } else {
                None
            },
            None => None,
        }
    }
}

/// Parse a byte string: its length, that many raw bytes, the separator.
pub open spec fn p_bytes(s: Seq<u8>) -> Option<(Seq<u8>, Seq<u8>)> {
    match p_u64(s) {
        Some((n, r)) => if r.len() >= n + 1 && r[n as int] == SEPARATOR {
            Some((r.take(n as int), r.skip(n + 1 as int)))
        } else {
            None
        },
        None => None,
    }
}

/// Parse a canvas position.
pub open spec fn p_point(s: Seq<u8>) -> Option<(Point, Seq<u8>)> {
    match p_i64(s) {
        Some((x, r)) => match p_i64(r) {
            Some((y, r2)) => Some((Point { x: x as i64, y: y as i64 }, r2)),
            None => None,
        },
        None => None,
    }
}

/// Parse one draw point.
pub open spec fn p_drawpoint(s: Seq<u8>) -> Option<(Drawpoint, Seq<u8>)> {
    match p_point(s) {
        Some((pos, r)) => match p_i64(r) {
            Some((w, r2)) => match p_i64(r2) {
                Some((red, r3)) => match p_i64(r3) {
                    Some((green, r4)) => match p_i64(r4) {
                        Some((blue, r5)) => match p_i64(r5) {
                            Some((alpha, r6)) => Some(
                                (
                                    Drawpoint {
                                        position: pos,
                                        line_width: w as i64,
                                        rgba: Rgba {
                                            red: red as i64,
                                            green: green as i64,
                                            blue: blue as i64,
                                            alpha: alpha as i64,
                                        },
                                    },
                                    r6,
                                ),
                            ),
                            None => None,
                        },
                        None => None,
                    },
                    None => None,
                },
                None => None,
            },
            None => None,
        },
        None => None,
    }
}

/// Parse `n` draw points.
pub open spec fn p_stroke_items(n: nat, s: Seq<u8>) -> Option<(Seq<Drawpoint>, Seq<u8>)>
    decreases n,
{
    if n == 0 {
        Some((Seq::empty(), s))
    } else {
        match p_drawpoint(s) {
            Some((d, r)) => match p_stroke_items((n - 1) as nat, r) {
                Some((ds, r2)) => Some((seq![d] + ds, r2)),
                None => None,
            },
            None => None,
        }
    }
}

/// Parse one stroke: its point count, then its points.
pub open spec fn p_stroke(s: Seq<u8>) -> Option<(Seq<Drawpoint>, Seq<u8>)> {
    match p_u64(s) {
        Some((n, r)) => p_stroke_items(n, r),
        None => None,
    }
}

/// Parse `n` strokes.
pub open spec fn p_lines_items(n: nat, s: Seq<u8>) -> Option<(Seq<Seq<Drawpoint>>, Seq<u8>)>
    decreases n,
{
    if n == 0 {
        Some((Seq::empty(), s))
    } else {
        match p_stroke(s) {
            Some((stroke, r)) => match p_lines_items((n - 1) as nat, r) {
                Some((strokes, r2)) => Some((seq![stroke] + strokes, r2)),
                None => None,
            },
            None => None,
        }
    }
}

/// Parse one placed image.
pub open spec fn p_image(s: Seq<u8>) -> Option<(ImageView, Seq<u8>)> {
    match p_bytes(s) {
        Some((path, r)) => match p_point(r) {
            Some((pos, r2)) => Some((ImageView { path, position: pos }, r2)),
            None => None,
        },
        None => None,
    }
}

/// Parse `n` images.
pub open spec fn p_images_items(n: nat, s: Seq<u8>) -> Option<(Seq<ImageView>, Seq<u8>)>
    decreases n,
{
    if n == 0 {
        Some((Seq::empty(), s))
    } else {
        match p_image(s) {
            Some((im, r)) => match p_images_items((n - 1) as nat, r) {
                Some((ims, r2)) => Some((seq![im] + ims, r2)),
                None => None,
            },
            None => None,
        }
    }
}

/// Parse one page.
pub open spec fn p_page(s: Seq<u8>) -> Option<(PageView, Seq<u8>)> {
    match p_u64(s) {
        Some((nlines, r)) => match p_lines_items(nlines, r) {
            Some((lines, r2)) => match p_u64(r2) {
                Some((nimages, r3)) => match p_images_items(nimages, r3) {
                    Some((images, r4)) => Some((PageView { lines, images }, r4)),
                    None => None,
                },
                None => None,
            },
            None => None,
        },
        None => None,
    }
}

/// Parse `n` pages.
pub open spec fn p_pages_items(n: nat, s: Seq<u8>) -> Option<(Seq<PageView>, Seq<u8>)>
    decreases n,
{
    if n == 0 {
        Some((Seq::empty(), s))
    } else {
        match p_page(s) {
            Some((page, r)) => match p_pages_items((n - 1) as nat, r) {
                Some((pages, r2)) => Some((seq![page] + pages, r2)),
                None => None,
            },
            None => None,
        }
    }
}

// ---------------------------------------------------------------------
// The encoding is canonical: parsing a serialization, whatever follows
// it, yields the value back and leaves exactly the tail.
// ---------------------------------------------------------------------

/// The digits of `n` are digits, carry no leading zero, and evaluate back
/// to `n`.
pub proof fn lemma_dec_rep(n: nat)
    ensures
        dec_rep(n).len() >= 1,
        forall|i: int| 0 <= i < dec_rep(n).len() ==> is_digit(#[trigger] dec_rep(n)[i]),
        n >= 1 ==> dec_rep(n).first() != 48,
        digits_val(dec_rep(n)) == n,
    decreases n,
{
    if n < 10 {
        assert(dec_rep(n) == seq![(48 + n) as u8]);
        assert(dec_rep(n).drop_last() =~= Seq::<u8>::empty());
        assert(dec_rep(n).last() == (48 + n) as u8);
        assert(digits_val(dec_rep(n)) == digits_val(Seq::<u8>::empty()) * 10 + ((48 + n) - 48));
    } else {
        lemma_dec_rep(n / 10);
        let d = dec_rep(n);
        let front = dec_rep(n / 10);
        assert(d == front.push((48 + n % 10) as u8));
        assert(d.drop_last() =~= front);
        assert(d.last() == (48 + n % 10) as u8);
        vstd::arithmetic::div_mod::lemma_fundamental_div_mod(n as int, 10);
        assert(digits_val(d) == digits_val(front) * 10 + n % 10);
        assert(d.first() == front.first());
        assert(forall|i: int| 0 <= i < d.len() - 1 ==> d[i] == front[i]);
    }
}

/// The greedy digit split of a digit run followed by a non-digit takes
/// exactly the run.
pub proof fn lemma_p_digits_split(d: Seq<u8>, t: Seq<u8>)
    requires
        forall|i: int| 0 <= i < d.len() ==> is_digit(#[trigger] d[i]),
        t.len() == 0 || !is_digit(t.first()),
    ensures
        p_digits(d + t) == (d, t),
    decreases d.len(),
{
    if d.len() == 0 {
        assert(d + t =~= t);
    } else {
        assert((d + t).first() == d.first());
        assert((d + t).drop_first() =~= d.drop_first() + t);
        lemma_p_digits_split(d.drop_first(), t);
        assert(seq![d.first()] + d.drop_first() =~= d);
    }
}

/// Parsing a serialized unsigned number yields it back.
pub proof fn lemma_p_u64_ser(n: nat, t: Seq<u8>)
    requires
        n <= u64::MAX,
    ensures
        p_u64(ser_u64(n) + t) == Some((n, t)),
{
    lemma_dec_rep(n);
    assert(ser_u64(n) + t =~= dec_rep(n) + (seq![SEPARATOR] + t));
    assert(!is_digit((seq![SEPARATOR] + t).first()));
    lemma_p_digits_split(dec_rep(n), seq![SEPARATOR] + t);
    assert((seq![SEPARATOR] + t).drop_first() =~= t);
}

/// Parsing a serialized signed number yields it back.
pub proof fn lemma_p_i64_ser(x: int, t: Seq<u8>)
    requires
        i64::MIN <= x <= i64::MAX,
    ensures
        p_i64(ser_i64(x) + t) == Some((x, t)),
{
    if x < 0 {
        let m = (-x) as nat;
        lemma_dec_rep(m);
        let s = ser_i64(x) + t;
        assert(s.first() == MINUS);
        assert(s.drop_first() =~= ser_u64(m) + t);
        lemma_p_u64_ser(m, t);
    } else {
        lemma_dec_rep(x as nat);
        let s = ser_i64(x) + t;
        assert(s.first() == dec_rep(x as nat).first());
        assert(is_digit(s.first()));
        assert(s.first() != MINUS);
        lemma_p_u64_ser(x as nat, t);
    }
}

/// Parsing a serialized byte string yields it back.
pub proof fn lemma_p_bytes_ser(b: Seq<u8>, t: Seq<u8>)
    requires
        b.len() <= u64::MAX,
    ensures
        p_bytes(ser_bytes(b) + t) == Some((b, t)),
{
    let n = b.len();
    assert(ser_bytes(b) + t =~= ser_u64(n) + (b + (seq![SEPARATOR] + t)));
    lemma_p_u64_ser(n, b + (seq![SEPARATOR] + t));
    let r = b + (seq![SEPARATOR] + t);
    assert(r.len() == n + 1 + t.len());
    assert(r[n as int] == SEPARATOR);
    assert(r.take(n as int) =~= b);
    assert(r.skip(n + 1 as int) =~= t);
}

/// Parsing a serialized position yields it back.
pub proof fn lemma_p_point_ser(p: Point, t: Seq<u8>)
    ensures
        p_point(ser_point(p) + t) == Some((p, t)),
{
    assert(ser_point(p) + t =~= ser_i64(p.x as int) + (ser_i64(p.y as int) + t));
    lemma_p_i64_ser(p.x as int, ser_i64(p.y as int) + t);
    lemma_p_i64_ser(p.y as int, t);
}

/// Parsing a serialized draw point yields it back.
#[verifier::rlimit(50)]
pub proof fn lemma_p_drawpoint_ser(d: Drawpoint, t: Seq<u8>)
    ensures
        p_drawpoint(ser_drawpoint(d) + t) == Some((d, t)),
{
    let s5 = ser_i64(d.rgba.alpha as int) + t;
    let s4 = ser_i64(d.rgba.blue as int) + s5;
    let s3 = ser_i64(d.rgba.green as int) + s4;
    let s2 = ser_i64(d.rgba.red as int) + s3;
    let s1 = ser_i64(d.line_width as int) + s2;
    assert(ser_drawpoint(d) + t =~= ser_point(d.position) + s1);
    lemma_p_point_ser(d.position, s1);
    lemma_p_i64_ser(d.line_width as int, s2);
    lemma_p_i64_ser(d.rgba.red as int, s3);
    lemma_p_i64_ser(d.rgba.green as int, s4);
    lemma_p_i64_ser(d.rgba.blue as int, s5);
    lemma_p_i64_ser(d.rgba.alpha as int, t);
}

/// Parsing a serialized run of draw points yields it back.
pub proof fn lemma_p_stroke_items_ser(s: Seq<Drawpoint>, t: Seq<u8>)
    ensures
        p_stroke_items(s.len(), ser_stroke_items(s) + t) == Some((s, t)),
    decreases s.len(),
{
    if s.len() == 0 {
        assert(ser_stroke_items(s) + t =~= t);
        assert(p_stroke_items(0, t) == Some((Seq::<Drawpoint>::empty(), t)));
        assert(s =~= Seq::<Drawpoint>::empty());
    } else {
        assert(ser_stroke_items(s) + t =~= ser_drawpoint(s.first()) + (ser_stroke_items(
            s.drop_first(),
        ) + t));
        lemma_p_drawpoint_ser(s.first(), ser_stroke_items(s.drop_first()) + t);
        lemma_p_stroke_items_ser(s.drop_first(), t);
        assert(seq![s.first()] + s.drop_first() =~= s);
    }
}

/// Parsing a serialized stroke yields it back.
pub proof fn lemma_p_stroke_ser(s: Seq<Drawpoint>, t: Seq<u8>)
    requires
        s.len() <= u64::MAX,
    ensures
        p_stroke(ser_stroke(s) + t) == Some((s, t)),
{
    assert(ser_stroke(s) + t =~= ser_u64(s.len()) + (ser_stroke_items(s) + t));
    lemma_p_u64_ser(s.len(), ser_stroke_items(s) + t);
    lemma_p_stroke_items_ser(s, t);
}

/// Whether every count a page would serialize fits a `u64`.
pub open spec fn page_counts_bounded(p: PageView) -> bool {
    &&& p.lines.len() <= u64::MAX
    &&& p.images.len() <= u64::MAX
    &&& forall|i: int| 0 <= i < p.lines.len() ==> (#[trigger] p.lines[i]).len() <= u64::MAX
    &&& forall|i: int| 0 <= i < p.images.len() ==> (#[trigger] p.images[i]).path.len()
        <= u64::MAX
}

/// Whether every count a document would serialize fits a `u64` — a machine
/// limit every document held in memory meets.
pub open spec fn doc_counts_bounded(pages: Seq<PageView>) -> bool {
    &&& pages.len() <= u64::MAX
    &&& forall|i: int| 0 <= i < pages.len() ==> page_counts_bounded(#[trigger] pages[i])
}

/// Parsing a serialized run of strokes yields it back.
pub proof fn lemma_p_lines_items_ser(lines: Seq<Seq<Drawpoint>>, t: Seq<u8>)
    requires
        forall|i: int| 0 <= i < lines.len() ==> (#[trigger] lines[i]).len() <= u64::MAX,
    ensures
        p_lines_items(lines.len(), ser_lines_items(lines) + t) == Some((lines, t)),
    decreases lines.len(),
{
    if lines.len() == 0 {
        assert(ser_lines_items(lines) + t =~= t);
        assert(lines =~= Seq::<Seq<Drawpoint>>::empty());
    } else {
        assert(ser_lines_items(lines) + t =~= ser_stroke(lines.first()) + (ser_lines_items(
            lines.drop_first(),
        ) + t));
        lemma_p_stroke_ser(lines.first(), ser_lines_items(lines.drop_first()) + t);
        assert(forall|i: int|
            0 <= i < lines.drop_first().len() ==> (#[trigger] lines.drop_first()[i]).len()
                <= u64::MAX);
        lemma_p_lines_items_ser(lines.drop_first(), t);
        assert(seq![lines.first()] + lines.drop_first() =~= lines);
    }
}

/// Parsing a serialized image yields it back.
pub proof fn lemma_p_image_ser(im: ImageView, t: Seq<u8>)
    requires
        im.path.len() <= u64::MAX,
    ensures
        p_image(ser_image(im) + t) == Some((im, t)),
{
    assert(ser_image(im) + t =~= ser_bytes(im.path) + (ser_point(im.position) + t));
    lemma_p_bytes_ser(im.path, ser_point(im.position) + t);
    lemma_p_point_ser(im.position, t);
}

/// Parsing a serialized run of images yields it back.
pub proof fn lemma_p_images_items_ser(images: Seq<ImageView>, t: Seq<u8>)
    requires
        forall|i: int| 0 <= i < images.len() ==> (#[trigger] images[i]).path.len() <= u64::MAX,
    ensures
        p_images_items(images.len(), ser_images_items(images) + t) == Some((images, t)),
    decreases images.len(),
{
    if images.len() == 0 {
        assert(ser_images_items(images) + t =~= t);
        assert(images =~= Seq::<ImageView>::empty());
    } else {
        assert(ser_images_items(images) + t =~= ser_image(images.first()) + (ser_images_items(
            images.drop_first(),
        ) + t));
        lemma_p_image_ser(images.first(), ser_images_items(images.drop_first()) + t);
        assert(forall|i: int|
            0 <= i < images.drop_first().len() ==> (#[trigger] images.drop_first()[i]).path.len()
                <= u64::MAX);
        lemma_p_images_items_ser(images.drop_first(), t);
        assert(seq![images.first()] + images.drop_first() =~= images);
    }
}

/// Parsing a serialized page yields it back.
pub proof fn lemma_p_page_ser(p: PageView, t: Seq<u8>)
    requires
        page_counts_bounded(p),
    ensures
        p_page(ser_page(p) + t) == Some((p, t)),
{
    let s3 = ser_images_items(p.images) + t;
    let s2 = ser_u64(p.images.len()) + s3;
    let s1 = ser_lines_items(p.lines) + s2;
    assert(ser_page(p) + t =~= ser_u64(p.lines.len()) + s1);
    lemma_p_u64_ser(p.lines.len(), s1);
    lemma_p_lines_items_ser(p.lines, s2);
    lemma_p_u64_ser(p.images.len(), s3);
    lemma_p_images_items_ser(p.images, t);
    assert(p_page(ser_page(p) + t) == Some((PageView { lines: p.lines, images: p.images }, t)));
    assert(PageView { lines: p.lines, images: p.images } =~= p);
}

/// Parsing a serialized run of pages yields it back.
#[verifier::rlimit(60)]
pub proof fn lemma_p_pages_items_ser(pages: Seq<PageView>, t: Seq<u8>)
    requires
        forall|i: int| 0 <= i < pages.len() ==> page_counts_bounded(#[trigger] pages[i]),
    ensures
        p_pages_items(pages.len(), ser_pages_items(pages) + t) == Some((pages, t)),
    decreases pages.len(),
{
    if pages.len() == 0 {
        assert(ser_pages_items(pages) + t =~= t);
        assert(pages =~= Seq::<PageView>::empty());
    } else {
        assert(ser_pages_items(pages) + t =~= ser_page(pages.first()) + (ser_pages_items(
            pages.drop_first(),
        ) + t));
        lemma_p_page_ser(pages.first(), ser_pages_items(pages.drop_first()) + t);
        assert(forall|i: int|
            0 <= i < pages.drop_first().len() ==> page_counts_bounded(
                #[trigger] pages.drop_first()[i],
            ));
        lemma_p_pages_items_ser(pages.drop_first(), t);
        assert(seq![pages.first()] + pages.drop_first() =~= pages);
    }
}

/// Round trip: deserializing a serialized document yields the document
/// back, for every document whose counts fit the format's numbers.
pub proof fn lemma_p_doc_ser(pages: Seq<PageView>)
    requires
        doc_counts_bounded(pages),
    ensures
        p_doc(ser_doc(pages)) == Some(pages),
{
    assert(ser_doc(pages) =~= ser_u64(pages.len()) + (ser_pages_items(pages) + Seq::<
        u8,
    >::empty()));
    lemma_p_u64_ser(pages.len(), ser_pages_items(pages) + Seq::<u8>::empty());
    lemma_p_pages_items_ser(pages, Seq::<u8>::empty());
}

/// Parse a whole document; the stream must hold nothing else.
pub open spec fn p_doc(s: Seq<u8>) -> Option<Seq<PageView>> {
    match p_u64(s) {
        Some((n, r)) => match p_pages_items(n, r) {
            Some((pages, r2)) => if r2.len() == 0 {
                Some(pages)
            } else {
                None
            },
            None => None,
        },
        None => None,
    }
}

// ---------------------------------------------------------------------
// Serializing runs distributes over concatenation; the writer loops
// lean on this to grow their output a prefix at a time.
// ---------------------------------------------------------------------

/// A run of one draw point serializes to just that point.
pub proof fn lemma_ser_stroke_items_single(d: Drawpoint)
    ensures
        ser_stroke_items(seq![d]) == ser_drawpoint(d),
{
    assert(seq![d].first() == d);
    assert(seq![d].drop_first() =~= Seq::<Drawpoint>::empty());
    assert(ser_stroke_items(seq![d]) == ser_drawpoint(d) + ser_stroke_items(
        Seq::<Drawpoint>::empty(),
    ));
    assert(ser_drawpoint(d) + Seq::<u8>::empty() =~= ser_drawpoint(d));
}

/// A run of one stroke serializes to just that stroke.
pub proof fn lemma_ser_lines_items_single(s: Seq<Drawpoint>)
    ensures
        ser_lines_items(seq![s]) == ser_stroke(s),
{
    assert(seq![s].first() == s);
    assert(seq![s].drop_first() =~= Seq::<Seq<Drawpoint>>::empty());
    assert(ser_lines_items(seq![s]) == ser_stroke(s) + ser_lines_items(
        Seq::<Seq<Drawpoint>>::empty(),
    ));
    assert(ser_stroke(s) + Seq::<u8>::empty() =~= ser_stroke(s));
}

/// A run of one image serializes to just that image.
pub proof fn lemma_ser_images_items_single(im: ImageView)
    ensures
        ser_images_items(seq![im]) == ser_image(im),
{
    assert(seq![im].first() == im);
    assert(seq![im].drop_first() =~= Seq::<ImageView>::empty());
    assert(ser_images_items(seq![im]) == ser_image(im) + ser_images_items(
        Seq::<ImageView>::empty(),
    ));
    assert(ser_image(im) + Seq::<u8>::empty() =~= ser_image(im));
}

/// A run of one page serializes to just that page.
pub proof fn lemma_ser_pages_items_single(p: PageView)
    ensures
        ser_pages_items(seq![p]) == ser_page(p),
{
    assert(seq![p].first() == p);
    assert(seq![p].drop_first() =~= Seq::<PageView>::empty());
    assert(ser_pages_items(seq![p]) == ser_page(p) + ser_pages_items(Seq::<PageView>::empty()));
    assert(ser_page(p) + Seq::<u8>::empty() =~= ser_page(p));
}

/// Serializing a run of draw points distributes over concatenation.
pub proof fn lemma_ser_stroke_items_append(a: Seq<Drawpoint>, b: Seq<Drawpoint>)
    ensures
        ser_stroke_items(a + b) == ser_stroke_items(a) + ser_stroke_items(b),
    decreases a.len(),
{
    if a.len() == 0 {
        assert(a + b =~= b);
        assert(ser_stroke_items(a) + ser_stroke_items(b) =~= ser_stroke_items(b));
    } else {
        assert((a + b).first() == a.first());
        assert((a + b).drop_first() =~= a.drop_first() + b);
        lemma_ser_stroke_items_append(a.drop_first(), b);
        assert(ser_drawpoint(a.first()) + (ser_stroke_items(a.drop_first()) + ser_stroke_items(b))
            =~= (ser_drawpoint(a.first()) + ser_stroke_items(a.drop_first()))
            + ser_stroke_items(b));
    }
}

/// Serializing a run of strokes distributes over concatenation.
pub proof fn lemma_ser_lines_items_append(a: Seq<Seq<Drawpoint>>, b: Seq<Seq<Drawpoint>>)
    ensures
        ser_lines_items(a + b) == ser_lines_items(a) + ser_lines_items(b),
    decreases a.len(),
{
    if a.len() == 0 {
        assert(a + b =~= b);
        assert(ser_lines_items(a) + ser_lines_items(b) =~= ser_lines_items(b));
    } else {
        assert((a + b).first() == a.first());
        assert((a + b).drop_first() =~= a.drop_first() + b);
        lemma_ser_lines_items_append(a.drop_first(), b);
        assert(ser_stroke(a.first()) + (ser_lines_items(a.drop_first()) + ser_lines_items(b)) =~= (
        ser_stroke(a.first()) + ser_lines_items(a.drop_first())) + ser_lines_items(b));
    }
}

/// Serializing a run of images distributes over concatenation.
pub proof fn lemma_ser_images_items_append(a: Seq<ImageView>, b: Seq<ImageView>)
    ensures
        ser_images_items(a + b) == ser_images_items(a) + ser_images_items(b),
    decreases a.len(),
{
    if a.len() == 0 {
        assert(a + b =~= b);
        assert(ser_images_items(a) + ser_images_items(b) =~= ser_images_items(b));
    } else {
        assert((a + b).first() == a.first());
        assert((a + b).drop_first() =~= a.drop_first() + b);
        lemma_ser_images_items_append(a.drop_first(), b);
        assert(ser_image(a.first()) + (ser_images_items(a.drop_first()) + ser_images_items(b)) =~= (
        ser_image(a.first()) + ser_images_items(a.drop_first())) + ser_images_items(b));
    }
}

/// Serializing a run of pages distributes over concatenation.
pub proof fn lemma_ser_pages_items_append(a: Seq<PageView>, b: Seq<PageView>)
    ensures
        ser_pages_items(a + b) == ser_pages_items(a) + ser_pages_items(b),
    decreases a.len(),
{
    if a.len() == 0 {
        assert(a + b =~= b);
        assert(ser_pages_items(a) + ser_pages_items(b) =~= ser_pages_items(b));
    } else {
        assert((a + b).first() == a.first());
        assert((a + b).drop_first() =~= a.drop_first() + b);
        lemma_ser_pages_items_append(a.drop_first(), b);
        assert(ser_page(a.first()) + (ser_pages_items(a.drop_first()) + ser_pages_items(b)) =~= (
        ser_page(a.first()) + ser_pages_items(a.drop_first())) + ser_pages_items(b));
    }
}

} // verus!

verus! {

/// Append the decimal digits of `n`, most significant first.
fn write_dec(out: &mut Vec<u8>, n: u64)
    ensures
        final(out)@ == old(out)@ + dec_rep(n as nat),
    decreases n,
{
    if n < 10 {
        out.push(48 + n as u8);
        proof {
            assert(out@ =~= old(out)@ + dec_rep(n as nat));
        }
    } else {
        write_dec(out, n / 10);
        out.push(48 + (n % 10) as u8);
        proof {
            assert(out@ =~= old(out)@ + dec_rep(n as nat));
        }
    }
}

/// Append an unsigned number and its separator.
fn write_u64(out: &mut Vec<u8>, n: u64)
    ensures
        final(out)@ == old(out)@ + ser_u64(n as nat),
{
    write_dec(out, n);
    out.push(SEPARATOR);
    proof {
        assert(out@ =~= old(out)@ + ser_u64(n as nat));
    }
}

/// Append a signed number and its separator.
fn write_i64(out: &mut Vec<u8>, x: i64)
    ensures
        final(out)@ == old(out)@ + ser_i64(x as int),
{
    if x < 0 {
        out.push(MINUS);
        let m: u64 = ((-(x + 1)) as u64) + 1;
        proof {
            assert(m == (-(x as int)) as nat);
        }
        write_dec(out, m);
        out.push(SEPARATOR);
        proof {
            assert(out@ =~= old(out)@ + ser_i64(x as int));
        }
    } else {
        write_dec(out, x as u64);
        out.push(SEPARATOR);
        proof {
            assert(out@ =~= old(out)@ + ser_i64(x as int));
        }
    }
}

/// Append a byte string: its length, the raw bytes, the separator.
fn write_bytes(out: &mut Vec<u8>, b: &Vec<u8>)
    ensures
        final(out)@ == old(out)@ + ser_bytes(b@),
{
    write_u64(out, b.len() as u64);
    let ghost mid = out@;
    let mut i: usize = 0;
    proof {
        assert(out@ =~= mid + b@.take(0));
    }
    while i < b.len()
        invariant
            i <= b@.len(),
            out@ == mid + b@.take(i as int),
        decreases b@.len() - i,
    {
        out.push(b[i]);
        i += 1;
        proof {
            assert(out@ =~= mid + b@.take(i as int));
        }
    }
    out.push(SEPARATOR);
    proof {
        assert(b@.take(b@.len() as int) =~= b@);
        assert(out@ =~= old(out)@ + ser_bytes(b@));
    }
}

/// Append a canvas position.
fn write_point(out: &mut Vec<u8>, p: Point)
    ensures
        final(out)@ == old(out)@ + ser_point(p),
{
    write_i64(out, p.x);
    write_i64(out, p.y);
    proof {
        assert(out@ =~= old(out)@ + ser_point(p));
    }
}

/// Append one draw point.
fn write_drawpoint(out: &mut Vec<u8>, d: Drawpoint)
    ensures
        final(out)@ == old(out)@ + ser_drawpoint(d),
{
    write_point(out, d.position);
    write_i64(out, d.line_width);
    write_i64(out, d.rgba.red);
    write_i64(out, d.rgba.green);
    write_i64(out, d.rgba.blue);
    write_i64(out, d.rgba.alpha);
    proof {
        assert(out@ =~= old(out)@ + ser_drawpoint(d));
    }
}

/// Append one stroke: its point count, then its points.
fn write_stroke(out: &mut Vec<u8>, s: &Vec<Drawpoint>)
    ensures
        final(out)@ == old(out)@ + ser_stroke(s@),
{
    write_u64(out, s.len() as u64);
    let ghost mid = out@;
    let mut i: usize = 0;
    proof {
        assert(ser_stroke_items(s@.take(0)) =~= Seq::<u8>::empty());
        assert(out@ =~= mid + ser_stroke_items(s@.take(0)));
    }
    while i < s.len()
        invariant
            i <= s@.len(),
            out@ == mid + ser_stroke_items(s@.take(i as int)),
        decreases s@.len() - i,
    {
        write_drawpoint(out, s[i]);
        i += 1;
        proof {
            assert(s@.take(i as int) =~= s@.take(i - 1) + seq![s@[i - 1]]);
            lemma_ser_stroke_items_append(s@.take(i - 1), seq![s@[i - 1]]);
            lemma_ser_stroke_items_single(s@[i - 1]);
            assert(out@ =~= mid + ser_stroke_items(s@.take(i as int)));
        }
    }
    proof {
        assert(s@.take(s@.len() as int) =~= s@);
        assert(out@ =~= old(out)@ + ser_stroke(s@));
    }
}

/// Append one page: strokes, then images.
fn write_page(out: &mut Vec<u8>, p: &Page)
    ensures
        final(out)@ == old(out)@ + ser_page(p@),
{
    let ghost linesv = crate::canvas::lines_view(p.lines);
    let ghost imagesv = crate::canvas::images_view(p.images);
    write_u64(out, p.lines.len() as u64);
    let ghost mid = out@;
    let mut i: usize = 0;
    proof {
        assert(ser_lines_items(linesv.take(0)) =~= Seq::<u8>::empty());
        assert(out@ =~= mid + ser_lines_items(linesv.take(0)));
    }
    while i < p.lines.len()
        invariant
            i <= p.lines@.len(),
            linesv == crate::canvas::lines_view(p.lines),
            out@ == mid + ser_lines_items(linesv.take(i as int)),
        decreases p.lines@.len() - i,
    {
        write_stroke(out, &p.lines[i]);
        i += 1;
        proof {
            assert(p.lines@[i - 1]@ == linesv[i - 1]);
            assert(linesv.take(i as int) =~= linesv.take(i - 1) + seq![linesv[i - 1]]);
            lemma_ser_lines_items_append(linesv.take(i - 1), seq![linesv[i - 1]]);
            lemma_ser_lines_items_single(linesv[i - 1]);
            assert(out@ =~= mid + ser_lines_items(linesv.take(i as int)));
        }
    }
    proof {
        assert(linesv.take(linesv.len() as int) =~= linesv);
    }
    write_u64(out, p.images.len() as u64);
    let ghost mid2 = out@;
    let mut j: usize = 0;
    proof {
        assert(ser_images_items(imagesv.take(0)) =~= Seq::<u8>::empty());
        assert(out@ =~= mid2 + ser_images_items(imagesv.take(0)));
    }
    while j < p.images.len()
        invariant
            j <= p.images@.len(),
            imagesv == crate::canvas::images_view(p.images),
            out@ == mid2 + ser_images_items(imagesv.take(j as int)),
        decreases p.images@.len() - j,
    {
        let im = &p.images[j];
        write_bytes(out, &im.path);
        write_point(out, im.position);
        j += 1;
        proof {
            assert(p.images@[j - 1]@ == imagesv[j - 1]);
            assert(imagesv.take(j as int) =~= imagesv.take(j - 1) + seq![imagesv[j - 1]]);
            lemma_ser_images_items_append(imagesv.take(j - 1), seq![imagesv[j - 1]]);
            lemma_ser_images_items_single(imagesv[j - 1]);
            assert(out@ =~= mid2 + ser_images_items(imagesv.take(j as int)));
        }
    }
    proof {
        assert(imagesv.take(imagesv.len() as int) =~= imagesv);
        assert(out@ =~= old(out)@ + ser_page(p@));
    }
}

/// Serialize the whole page list to its textual form.
pub fn serialize_pages(pages: &Vec<Page>) -> (r: Vec<u8>)
    ensures
        r@ == ser_doc(crate::canvas::pages_view(pages@)),
{
    let ghost pagesv = crate::canvas::pages_view(pages@);
    let mut out: Vec<u8> = Vec::new();
    write_u64(&mut out, pages.len() as u64);
    let ghost mid = out@;
    let mut i: usize = 0;
    proof {
        assert(ser_pages_items(pagesv.take(0)) =~= Seq::<u8>::empty());
        assert(out@ =~= mid + ser_pages_items(pagesv.take(0)));
    }
    while i < pages.len()
        invariant
            i <= pages@.len(),
            pagesv == crate::canvas::pages_view(pages@),
            out@ == mid + ser_pages_items(pagesv.take(i as int)),
        decreases pages@.len() - i,
    {
        write_page(&mut out, &pages[i]);
        i += 1;
        proof {
            assert(pages@[i - 1]@ == pagesv[i - 1]);
            assert(pagesv.take(i as int) =~= pagesv.take(i - 1) + seq![pagesv[i - 1]]);
            lemma_ser_pages_items_append(pagesv.take(i - 1), seq![pagesv[i - 1]]);
            lemma_ser_pages_items_single(pagesv[i - 1]);
            assert(out@ =~= mid + ser_pages_items(pagesv.take(i as int)));
        }
    }
    proof {
        assert(pagesv.take(pagesv.len() as int) =~= pagesv);
        assert(out@ =~= ser_doc(pagesv));
    }
    out
}

} // verus!

verus! {

/// A persisted document that does not follow the format.  The document in
/// memory is left unchanged when a load fails with this.
#[derive(Clone, Copy, PartialEq, Eq, Structural, Debug)]
pub enum DataError {
    Malformed,
}

/// The greedy digit split of a stream whose first `k` bytes are digits,
/// with a non-digit (or the end) right after them, takes exactly those
/// bytes.
proof fn lemma_p_digits_chars(s: Seq<u8>, k: int)
    requires
        0 <= k <= s.len(),
        forall|i: int| 0 <= i < k ==> is_digit(#[trigger] s[i]),
        k == s.len() || !is_digit(s[k]),
    ensures
        p_digits(s) == (s.take(k), s.skip(k)),
    decreases k,
{
    if k == 0 {
        assert(s.take(0) =~= Seq::<u8>::empty());
        assert(s.skip(0) =~= s);
    } else {
        assert(is_digit(s[0]));
        let s2 = s.drop_first();
        assert(forall|i: int| 0 <= i < k - 1 ==> is_digit(#[trigger] s2[i]));
        lemma_p_digits_chars(s2, k - 1);
        assert(seq![s.first()] + s2.take(k - 1) =~= s.take(k));
        assert(s2.skip(k - 1) =~= s.skip(k));
    }
}

/// Dropping trailing digits cannot grow a digit run's value.
proof fn lemma_digits_val_mono(d: Seq<u8>, k: int)
    requires
        0 <= k <= d.len(),
        forall|i: int| 0 <= i < d.len() ==> is_digit(#[trigger] d[i]),
    ensures
        digits_val(d.take(k)) <= digits_val(d),
    decreases d.len(),
{
    if k < d.len() {
        let front = d.drop_last();
        assert(forall|i: int| 0 <= i < front.len() ==> is_digit(#[trigger] front[i]));
        lemma_digits_val_mono(front, k);
        assert(front.take(k) =~= d.take(k));
        assert(digits_val(d) == digits_val(front) * 10 + (d.last() - 48));
        assert(digits_val(front) * 10 >= digits_val(front));
    } else {
        assert(d.take(k) =~= d);
    }
}

/// Reading one more digit multiplies the prefix value by ten and adds it.
proof fn lemma_digits_val_step(d: Seq<u8>, m: int)
    requires
        0 <= m < d.len(),
        is_digit(d[m]),
    ensures
        digits_val(d.take(m + 1)) == digits_val(d.take(m)) * 10 + (d[m] - 48),
{
    assert(d.take(m + 1).drop_last() =~= d.take(m));
    assert(d.take(m + 1).last() == d[m]);
}

/// Parse an unsigned number at `pos`, returning the value and the position
/// right after its separator.
fn parse_u64(input: &Vec<u8>, pos: usize) -> (r: Option<(u64, usize)>)
    requires
        pos <= input@.len(),
    ensures
        (match r {
            Some((v, p2)) => pos <= p2 <= input@.len() && p_u64(input@.skip(pos as int)) == Some(
                (v as nat, input@.skip(p2 as int)),
            ),
            None => p_u64(input@.skip(pos as int)) is None,
        }),
{
    let ghost s = input@.skip(pos as int);
    let mut j: usize = pos;
    while j < input.len() && input[j] >= 48 && input[j] <= 57
        invariant
            pos <= j <= input@.len(),
            forall|i: int| pos <= i < j ==> is_digit(#[trigger] input@[i]),
        decreases input@.len() - j,
    {
        j += 1;
    }
    proof {
        assert(forall|i: int| 0 <= i < j - pos ==> is_digit(#[trigger] s[i]));
        assert(j < input@.len() ==> s[j - pos] == input@[j as int]);
        lemma_p_digits_chars(s, j - pos);
    }
    let ghost d = s.take(j - pos);
    if j == pos {
        return None;
    }
    if input[pos] == 48 && j - pos > 1 {
        proof {
            assert(s[0] == input@[pos as int]);
            assert(d.first() == s[0]);
        }
        return None;
    }
    let mut acc: u64 = 0;
    let mut m: usize = pos;
    while m < j
        invariant
            pos < j,
            pos <= m <= j,
            j <= input@.len(),
            s == input@.skip(pos as int),
            d == s.take(j - pos),
            p_digits(s) == (d, input@.skip(j as int)),
            forall|i: int| pos <= i < j ==> is_digit(#[trigger] input@[i]),
            acc as nat == digits_val(d.take(m - pos)),
        decreases j - m,
    {
        proof {
            assert(forall|i: int| 0 <= i < d.len() ==> is_digit(#[trigger] d[i]));
            assert(d[m - pos] == input@[m as int]);
            lemma_digits_val_step(d, m - pos);
        }
        let digit = input[m] - 48;
        let acc128: u128 = (acc as u128) * 10 + (digit as u128);
        if acc128 > u64::MAX as u128 {
            proof {
                lemma_digits_val_mono(d, m + 1 - pos);
                assert(digits_val(d.take(m + 1 - pos)) == acc128);
                assert(digits_val(d) > u64::MAX);
            }
            return None;
        }
        acc = acc128 as u64;
        m += 1;
    }
    proof {
        assert(d.take(j - pos) =~= d);
        assert(acc as nat == digits_val(d));
    }
    if j < input.len() && input[j] == SEPARATOR {
        proof {
            assert(s.skip(j - pos).first() == input@[j as int]);
            assert(s.skip(j - pos).drop_first() =~= input@.skip(j + 1));
        }
        Some((acc, j + 1))
    } else {
        proof {
            if j < input@.len() {
                assert(s.skip(j - pos).first() == input@[j as int]);
            } else {
                assert(s.skip(j - pos).len() == 0);
            }
        }
        None
    }
}

/// Parse a signed number at `pos`.
fn parse_i64(input: &Vec<u8>, pos: usize) -> (r: Option<(i64, usize)>)
    requires
        pos <= input@.len(),
    ensures
        (match r {
            Some((v, p2)) => pos <= p2 <= input@.len() && p_i64(input@.skip(pos as int)) == Some(
                (v as int, input@.skip(p2 as int)),
            ),
            None => p_i64(input@.skip(pos as int)) is None,
        }),
{
    let ghost s = input@.skip(pos as int);
    if pos < input.len() && input[pos] == MINUS {
        proof {
            assert(s.first() == MINUS);
            assert(s.drop_first() =~= input@.skip(pos + 1));
        }
        match parse_u64(input, pos + 1) {
            Some((m, p2)) => {
                if m >= 1 && m <= 0x8000_0000_0000_0000 {
                    let v = if m == 0x8000_0000_0000_0000 {
                        i64::MIN
                    } else {
                        -(m as i64)
                    };
                    Some((v, p2))
                } else {
                    None
                }
            },
            None => None,
        }
    } else {
        proof {
            if s.len() >= 1 {
                assert(s.first() == input@[pos as int]);
            }
        }
        match parse_u64(input, pos) {
            Some((m, p2)) => {
                if m <= 0x7FFF_FFFF_FFFF_FFFF {
                    Some((m as i64, p2))
                } else {
                    None
                }
            },
            None => None,
        }
    }
}

/// Parse a byte string at `pos`.
fn parse_bytes(input: &Vec<u8>, pos: usize) -> (r: Option<(Vec<u8>, usize)>)
    requires
        pos <= input@.len(),
    ensures
        (match r {
            Some((b, p2)) => pos <= p2 <= input@.len() && p_bytes(input@.skip(pos as int)) == Some(
                (b@, input@.skip(p2 as int)),
            ),
            None => p_bytes(input@.skip(pos as int)) is None,
        }),
{
    let ghost s = input@.skip(pos as int);
    match parse_u64(input, pos) {
        Some((n, p2)) => {
            let ghost rest = input@.skip(p2 as int);
            let remaining = input.len() - p2;
            if n >= remaining as u64 {
                proof {
                    assert(rest.len() == input@.len() - p2);
                }
                return None;
            }
            let nn = n as usize;
            proof {
                assert(rest.len() >= nn + 1);
                assert(rest[nn as int] == input@[(p2 + nn) as int]);
            }
            if input[p2 + nn] != SEPARATOR {
                return None;
            }
            let mut b: Vec<u8> = Vec::new();
            let mut i: usize = 0;
            while i < nn
                invariant
                    i <= nn,
                    pos <= p2,
                    p2 + nn < input@.len(),
                    input@.len() <= usize::MAX,
                    rest == input@.skip(p2 as int),
                    b@ =~= rest.take(nn as int).take(i as int),
                decreases nn - i,
            {
                proof {
                    assert(rest.take(nn as int)[i as int] == input@[(p2 + i) as int]);
                }
                b.push(input[p2 + i]);
                i += 1;
                proof {
                    assert(b@ =~= rest.take(nn as int).take(i as int));
                }
            }
            proof {
                assert(rest.take(nn as int).take(nn as int) =~= rest.take(nn as int));
                assert(rest.skip(nn + 1 as int) =~= input@.skip((p2 + nn + 1) as int));
            }
            Some((b, p2 + nn + 1))
        },
        None => None,
    }
}

/// Parse a canvas position at `pos`.
fn parse_point(input: &Vec<u8>, pos: usize) -> (r: Option<(Point, usize)>)
    requires
        pos <= input@.len(),
    ensures
        (match r {
            Some((p, p2)) => pos <= p2 <= input@.len() && p_point(input@.skip(pos as int)) == Some(
                (p, input@.skip(p2 as int)),
            ),
            None => p_point(input@.skip(pos as int)) is None,
        }),
{
    match parse_i64(input, pos) {
        Some((x, p1)) => match parse_i64(input, p1) {
            Some((y, p2)) => Some((Point::new(x, y), p2)),
            None => None,
        },
        None => None,
    }
}

/// Parse one draw point at `pos`.
fn parse_drawpoint(input: &Vec<u8>, pos: usize) -> (r: Option<(Drawpoint, usize)>)
    requires
        pos <= input@.len(),
    ensures
        (match r {
            Some((dp, p2)) => pos <= p2 <= input@.len() && p_drawpoint(input@.skip(pos as int))
                == Some((dp, input@.skip(p2 as int))),
            None => p_drawpoint(input@.skip(pos as int)) is None,
        }),
{
    match parse_point(input, pos) {
        Some((position, p1)) => match parse_i64(input, p1) {
            Some((w, p2)) => match parse_i64(input, p2) {
                Some((red, p3)) => match parse_i64(input, p3) {
                    Some((green, p4)) => match parse_i64(input, p4) {
                        Some((blue, p5)) => match parse_i64(input, p5) {
                            Some((alpha, p6)) => Some(
                                (
                                    Drawpoint::new(
                                        position,
                                        w,
                                        Rgba { red, green, blue, alpha },
                                    ),
                                    p6,
                                ),
                            ),
                            None => None,
                        },
                        None => None,
                    },
                    None => None,
                },
                None => None,
            },
            None => None,
        },
        None => None,
    }
}

} // verus!

verus! {

/// Parse one stroke at `pos`: its point count, then its points.
fn parse_stroke(input: &Vec<u8>, pos: usize) -> (r: Option<(Vec<Drawpoint>, usize)>)
    requires
        pos <= input@.len(),
    ensures
        (match r {
            Some((sk, p2)) => pos <= p2 <= input@.len() && p_stroke(input@.skip(pos as int))
                == Some((sk@, input@.skip(p2 as int))),
            None => p_stroke(input@.skip(pos as int)) is None,
        }),
{
    match parse_u64(input, pos) {
        Some((n, pstart)) => {
            let ghost whole = p_stroke_items(n as nat, input@.skip(pstart as int));
            let mut acc: Vec<Drawpoint> = Vec::new();
            let mut cur: usize = pstart;
            let mut t: u64 = 0;
            while t < n
                invariant
                    t <= n,
                    pos <= cur <= input@.len(),
                    p_u64(input@.skip(pos as int)) == Some(
                        (n as nat, input@.skip(pstart as int)),
                    ),
                    whole == p_stroke_items(n as nat, input@.skip(pstart as int)),
                    (p_stroke_items((n - t) as nat, input@.skip(cur as int)) matches Some(tail)
                        ==> whole == Some((acc@ + tail.0, tail.1))),
                    (p_stroke_items((n - t) as nat, input@.skip(cur as int)) is None ==> whole
                        is None),
                decreases n - t,
            {
                let ghost rem = p_stroke_items((n - t) as nat, input@.skip(cur as int));
                match parse_drawpoint(input, cur) {
                    Some((dp, p2)) => {
                        proof {
                            let next = p_stroke_items((n - t - 1) as nat, input@.skip(p2 as int));
                            if next is Some {
                                assert(rem == Some(
                                    (seq![dp] + next->Some_0.0, next->Some_0.1),
                                ));
                                assert(acc@.push(dp) + next->Some_0.0 =~= acc@ + (seq![dp]
                                    + next->Some_0.0));
                            }
                        }
                        acc.push(dp);
                        cur = p2;
                        t = t + 1;
                    },
                    None => {
                        proof {
                            assert(rem is None);
                        }
                        return None;
                    },
                }
            }
            proof {
                assert(p_stroke_items(0, input@.skip(cur as int)) == Some(
                    (Seq::<Drawpoint>::empty(), input@.skip(cur as int)),
                ));
                assert(acc@ + Seq::<Drawpoint>::empty() =~= acc@);
            }
            Some((acc, cur))
        },
        None => None,
    }
}

/// Parse one placed image at `pos`.
fn parse_image(input: &Vec<u8>, pos: usize) -> (r: Option<(Image, usize)>)
    requires
        pos <= input@.len(),
    ensures
        (match r {
            Some((im, p2)) => pos <= p2 <= input@.len() && p_image(input@.skip(pos as int))
                == Some((im@, input@.skip(p2 as int))),
            None => p_image(input@.skip(pos as int)) is None,
        }),
{
    match parse_bytes(input, pos) {
        Some((path, p1)) => match parse_point(input, p1) {
            Some((position, p2)) => Some((Image::new(path, position), p2)),
            None => None,
        },
        None => None,
    }
}

/// Parse one page at `pos`: its strokes, then its images.
fn parse_page(input: &Vec<u8>, pos: usize) -> (r: Option<(Page, usize)>)
    requires
        pos <= input@.len(),
    ensures
        (match r {
            Some((page, p2)) => pos <= p2 <= input@.len() && p_page(input@.skip(pos as int))
                == Some((page@, input@.skip(p2 as int))),
            None => p_page(input@.skip(pos as int)) is None,
        }),
{
    match parse_u64(input, pos) {
        Some((nlines, lstart)) => {
            let ghost lines_whole = p_lines_items(nlines as nat, input@.skip(lstart as int));
            let mut lines: Vec<Vec<Drawpoint>> = Vec::new();
            let mut cur: usize = lstart;
            let mut t: u64 = 0;
            proof {
                assert(crate::canvas::lines_view(lines) =~= Seq::<Seq<Drawpoint>>::empty());
            }
            while t < nlines
                invariant
                    t <= nlines,
                    pos <= cur <= input@.len(),
                    p_u64(input@.skip(pos as int)) == Some(
                        (nlines as nat, input@.skip(lstart as int)),
                    ),
                    lines_whole == p_lines_items(nlines as nat, input@.skip(lstart as int)),
                    (p_lines_items((nlines - t) as nat, input@.skip(cur as int)) matches Some(
                        tail,
                    ) ==> lines_whole == Some(
                        (crate::canvas::lines_view(lines) + tail.0, tail.1),
                    )),
                    (p_lines_items((nlines - t) as nat, input@.skip(cur as int)) is None
                        ==> lines_whole is None),
                decreases nlines - t,
            {
                let ghost rem = p_lines_items((nlines - t) as nat, input@.skip(cur as int));
                let ghost prev = lines@;
                match parse_stroke(input, cur) {
                    Some((stroke, p2)) => {
                        proof {
                            let next = p_lines_items(
                                (nlines - t - 1) as nat,
                                input@.skip(p2 as int),
                            );
                            if next is Some {
                                assert(rem == Some(
                                    (seq![stroke@] + next->Some_0.0, next->Some_0.1),
                                ));
                            }
                        }
                        lines.push(stroke);
                        cur = p2;
                        t = t + 1;
                        proof {
                            assert(lines@ == prev.push(lines@.last()));
                            assert(prev.map_values(|s: Vec<Drawpoint>| s@).len() == prev.len());
                            let next = p_lines_items(
                                (nlines - t) as nat,
                                input@.skip(cur as int),
                            );
                            if next is Some {
                                assert(crate::canvas::lines_view(lines) + next->Some_0.0
                                    =~~= prev.map_values(|s: Vec<Drawpoint>| s@) + (
                                seq![lines@.last()@] + next->Some_0.0));
                            }
                        }
                    },
                    None => {
                        proof {
                            assert(rem is None);
                        }
                        return None;
                    },
                }
            }
            proof {
                assert(p_lines_items(0, input@.skip(cur as int)) == Some(
                    (Seq::<Seq<Drawpoint>>::empty(), input@.skip(cur as int)),
                ));
                assert(crate::canvas::lines_view(lines) + Seq::<Seq<Drawpoint>>::empty()
                    =~~= crate::canvas::lines_view(lines));
            }
            match parse_u64(input, cur) {
                Some((nimages, istart)) => {
                    let ghost images_whole = p_images_items(
                        nimages as nat,
                        input@.skip(istart as int),
                    );
                    let mut images: Vec<Image> = Vec::new();
                    let mut icur: usize = istart;
                    let mut u: u64 = 0;
                    proof {
                        assert(crate::canvas::images_view(images) =~= Seq::<ImageView>::empty());
                    }
                    while u < nimages
                        invariant
                            u <= nimages,
                            pos <= icur <= input@.len(),
                            p_u64(input@.skip(pos as int)) == Some(
                                (nlines as nat, input@.skip(lstart as int)),
                            ),
                            p_lines_items(nlines as nat, input@.skip(lstart as int)) == Some(
                                (crate::canvas::lines_view(lines), input@.skip(cur as int)),
                            ),
                            p_u64(input@.skip(cur as int)) == Some(
                                (nimages as nat, input@.skip(istart as int)),
                            ),
                            images_whole == p_images_items(
                                nimages as nat,
                                input@.skip(istart as int),
                            ),
                            (p_images_items((nimages - u) as nat, input@.skip(icur as int))
                                matches Some(tail) ==> images_whole == Some(
                                (crate::canvas::images_view(images) + tail.0, tail.1),
                            )),
                            (p_images_items((nimages - u) as nat, input@.skip(icur as int))
                                is None ==> images_whole is None),
                        decreases nimages - u,
                    {
                        let ghost rem = p_images_items(
                            (nimages - u) as nat,
                            input@.skip(icur as int),
                        );
                        let ghost prev = images@;
                        match parse_image(input, icur) {
                            Some((im, p2)) => {
                                proof {
                                    let next = p_images_items(
                                        (nimages - u - 1) as nat,
                                        input@.skip(p2 as int),
                                    );
                                    if next is Some {
                                        assert(rem == Some(
                                            (seq![im@] + next->Some_0.0, next->Some_0.1),
                                        ));
                                    }
                                }
                                images.push(im);
                                icur = p2;
                                u = u + 1;
                                proof {
                                    assert(images@ == prev.push(images@.last()));
                                    assert(prev.map_values(|t2: Image| t2@).len() == prev.len());
                                    let next = p_images_items(
                                        (nimages - u) as nat,
                                        input@.skip(icur as int),
                                    );
                                    if next is Some {
                                        assert(crate::canvas::images_view(images)
                                            + next->Some_0.0 =~~= prev.map_values(
                                            |t2: Image| t2@,
                                        ) + (seq![images@.last()@] + next->Some_0.0));
                                    }
                                }
                            },
                            None => {
                                proof {
                                    assert(rem is None);
                                }
                                return None;
                            },
                        }
                    }
                    proof {
                        assert(p_images_items(0, input@.skip(icur as int)) == Some(
                            (Seq::<ImageView>::empty(), input@.skip(icur as int)),
                        ));
                        assert(crate::canvas::images_view(images) + Seq::<ImageView>::empty()
                            =~~= crate::canvas::images_view(images));
                    }
                    let page = Page { lines, images };
                    Some((page, icur))
                },
                None => None,
            }
        },
        None => None,
    }
}

/// Deserialize a whole page list; fails, leaving the caller's document
/// untouched, unless the input is exactly one canonical document
/// encoding.
pub fn deserialize_pages(input: &Vec<u8>) -> (r: Result<Vec<Page>, DataError>)
    ensures
        (match r {
            Ok(pages) => p_doc(input@) == Some(crate::canvas::pages_view(pages@)),
            Err(e) => p_doc(input@) is None && e == DataError::Malformed,
        }),
{
    proof {
        assert(input@.skip(0) =~= input@);
    }
    match parse_u64(input, 0) {
        Some((npages, pstart)) => {
            let ghost pages_whole = p_pages_items(npages as nat, input@.skip(pstart as int));
            let mut pages: Vec<Page> = Vec::new();
            let mut cur: usize = pstart;
            let mut t: u64 = 0;
            proof {
                assert(crate::canvas::pages_view(pages@) =~= Seq::<PageView>::empty());
            }
            while t < npages
                invariant
                    t <= npages,
                    cur <= input@.len(),
                    p_u64(input@) == Some((npages as nat, input@.skip(pstart as int))),
                    pages_whole == p_pages_items(npages as nat, input@.skip(pstart as int)),
                    (p_pages_items((npages - t) as nat, input@.skip(cur as int)) matches Some(
                        tail,
                    ) ==> pages_whole == Some(
                        (crate::canvas::pages_view(pages@) + tail.0, tail.1),
                    )),
                    (p_pages_items((npages - t) as nat, input@.skip(cur as int)) is None
                        ==> pages_whole is None),
                decreases npages - t,
            {
                let ghost rem = p_pages_items((npages - t) as nat, input@.skip(cur as int));
                let ghost prev = pages@;
                match parse_page(input, cur) {
                    Some((page, p2)) => {
                        proof {
                            let next = p_pages_items(
                                (npages - t - 1) as nat,
                                input@.skip(p2 as int),
                            );
                            if next is Some {
                                assert(rem == Some(
                                    (seq![page@] + next->Some_0.0, next->Some_0.1),
                                ));
                            }
                        }
                        pages.push(page);
                        cur = p2;
                        t = t + 1;
                        proof {
                            assert(pages@ == prev.push(pages@.last()));
                            assert(prev.map_values(|p: Page| p@).len() == prev.len());
                            let next = p_pages_items(
                                (npages - t) as nat,
                                input@.skip(cur as int),
                            );
                            if next is Some {
                                assert(crate::canvas::pages_view(pages@) + next->Some_0.0
                                    =~~= prev.map_values(|p: Page| p@) + (seq![pages@.last()@]
                                    + next->Some_0.0));
                            }
                        }
                    },
                    None => {
                        proof {
                            assert(rem is None);
                        }
                        return Err(DataError::Malformed);
                    },
                }
            }
            proof {
                assert(p_pages_items(0, input@.skip(cur as int)) == Some(
                    (Seq::<PageView>::empty(), input@.skip(cur as int)),
                ));
                assert(crate::canvas::pages_view(pages@) + Seq::<PageView>::empty()
                    =~~= crate::canvas::pages_view(pages@));
            }
            if cur == input.len() {
                proof {
                    assert(input@.skip(cur as int).len() == 0);
                }
                Ok(pages)
            } else {
                proof {
                    assert(input@.skip(cur as int).len() > 0);
                }
                Err(DataError::Malformed)
            }
        },
        None => Err(DataError::Malformed),
    }
}

} // verus!
