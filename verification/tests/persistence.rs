use handnotes::canvas::{Drawpoint, Image, Page, Rgba};
use handnotes::codec::{deserialize_pages, serialize_pages, DataError};
use handnotes::editor::Application;
use handnotes::geometry::Point;

fn sample_document() -> Vec<Page> {
    let mut p0 = Page::new();
    p0.lines.push(vec![
        Drawpoint::new(
            Point::new(-3, 7),
            2,
            Rgba { red: 10, green: 20, blue: 30, alpha: 255 },
        ),
        Drawpoint::new(
            Point::new(0, -9_000_000),
            11,
            Rgba { red: 0, green: 0, blue: 0, alpha: 1 },
        ),
    ]);
    p0.lines.push(Vec::new());
    p0.images.push(Image::new(b"a b.png".to_vec(), Point::new(20, 20)));
    p0.images.push(Image::new(Vec::new(), Point::new(-1, -2)));
    let p1 = Page::new();
    vec![p0, p1]
}

fn assert_documents_equal(a: &Vec<Page>, b: &Vec<Page>) {
    assert_eq!(a.len(), b.len());
    for (pa, pb) in a.iter().zip(b.iter()) {
        assert_eq!(pa.lines, pb.lines);
        assert_eq!(pa.images.len(), pb.images.len());
        for (ia, ib) in pa.images.iter().zip(pb.images.iter()) {
            assert_eq!(ia.path, ib.path);
            assert_eq!(ia.position, ib.position);
        }
    }
}

#[test]
fn document_round_trips_through_the_codec() {
    let doc = sample_document();
    let bytes = serialize_pages(&doc);
    let back = deserialize_pages(&bytes).unwrap();
    assert_documents_equal(&doc, &back);
}

#[test]
fn empty_page_and_multi_image_pages_round_trip() {
    let doc = sample_document();
    let bytes = serialize_pages(&doc);
    let back = deserialize_pages(&bytes).unwrap();
    // a page with zero strokes survives, as do multiple images per page
    assert!(back[1].lines.is_empty());
    assert_eq!(back[0].images.len(), 2);
    assert_eq!(back[0].images[0].path, b"a b.png".to_vec());
}

#[test]
fn serialization_is_textual() {
    let doc = sample_document();
    let bytes = serialize_pages(&doc);
    // number tokens are plain decimal text
    assert_eq!(&bytes[0..2], b"2 ");
    assert!(bytes.contains(&b'-'));
}

#[test]
fn malformed_documents_are_refused() {
    assert!(matches!(deserialize_pages(&Vec::new()), Err(DataError::Malformed)));
    assert!(matches!(deserialize_pages(&b"x".to_vec()), Err(DataError::Malformed)));
    assert!(matches!(deserialize_pages(&b"2 ".to_vec()), Err(DataError::Malformed)));
    // leading zeros are not canonical
    assert!(matches!(deserialize_pages(&b"01 0 0 ".to_vec()), Err(DataError::Malformed)));
    // trailing bytes after a full document are refused
    let mut bytes = serialize_pages(&sample_document());
    bytes.push(b' ');
    assert!(matches!(deserialize_pages(&bytes), Err(DataError::Malformed)));
}

#[test]
fn save_and_load_round_trip_through_the_application() {
    let mut app = Application::new();
    app.add_page();
    app.import_image(
        b"notes.png".to_vec(),
        Point::new(20, 20),
        handnotes::canvas::BufferedImage::new(8, 8),
    );
    let bytes = app.save();
    let mut other = Application::new();
    other.load(&bytes).unwrap();
    assert_eq!(other.pages.len(), 2);
    assert_eq!(other.pages[0].images.len(), 1);
    assert_eq!(other.pages[0].images[0].path, b"notes.png".to_vec());
    // loading resets position, history and the raster cache
    assert_eq!(other.current_page, 0);
    assert_eq!(other.pages_history.len(), 1);
    assert!(other.undone_pages_history.is_empty());
    assert!(other.image_buffer.is_empty());
}

#[test]
fn failed_load_leaves_the_document_unchanged() {
    let mut app = Application::new();
    app.add_page();
    let garbage = b"not a document".to_vec();
    assert!(app.load(&garbage).is_err());
    assert_eq!(app.pages.len(), 2);
    // a structurally valid stream with zero pages is refused too: the page
    // list must never become empty
    let empty_doc = b"0 ".to_vec();
    assert!(app.load(&empty_doc).is_err());
    assert_eq!(app.pages.len(), 2);
}

#[test]
fn png_header_dimensions() {
    let mut bytes = vec![137u8, 80, 78, 71, 13, 10, 26, 10];
    bytes.extend_from_slice(&[0, 0, 0, 13]);
    bytes.extend_from_slice(b"IHDR");
    bytes.extend_from_slice(&[0, 0, 1, 0]); // width 256
    bytes.extend_from_slice(&[0, 0, 0, 64]); // height 64
    assert_eq!(handnotes::raster::png_dimensions(&bytes), Some((256, 64)));
    assert_eq!(handnotes::raster::png_dimensions(&b"JFIF".to_vec()), None);
    bytes[14] = 0;
    assert_eq!(handnotes::raster::png_dimensions(&bytes), None);
}

#[test]
fn extreme_values_round_trip() {
    let mut page = Page::new();
    page.lines.push(vec![Drawpoint::new(
        Point::new(i64::MIN, i64::MAX),
        i64::MIN,
        Rgba { red: i64::MAX, green: i64::MIN, blue: -1, alpha: 0 },
    )]);
    let doc = vec![page];
    let bytes = serialize_pages(&doc);
    let back = deserialize_pages(&bytes).unwrap();
    assert_eq!(back[0].lines, doc[0].lines);
}
