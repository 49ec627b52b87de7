use handnotes::canvas::BufferedImage;
use handnotes::editor::{Application, CurrentDrawTool};
use handnotes::geometry::Point;

fn draw_dot(app: &mut Application, x: i64, y: i64) {
    app.drawing_information.current_draw_tool = CurrentDrawTool::Pencil;
    app.begin_gesture();
    app.manipulate(Point::new(x, y));
    app.end_gesture();
}

#[test]
fn new_application_starts_with_one_empty_page() {
    let app = Application::new();
    assert_eq!(app.pages.len(), 1);
    assert_eq!(app.current_page, 0);
    assert!(app.pages[0].lines.is_empty());
    assert!(app.pages[0].images.is_empty());
    assert_eq!(app.pages_history.len(), 1);
    assert!(app.undone_pages_history.is_empty());
}

#[test]
fn gesture_edges_toggle_pen_and_snapshot() {
    let mut app = Application::new();
    assert!(!app.drawing_information.pen_is_active);
    app.begin_gesture();
    assert!(app.drawing_information.pen_is_active);
    assert_eq!(app.pages[0].lines.len(), 1);
    app.end_gesture();
    assert!(!app.drawing_information.pen_is_active);
    assert_eq!(app.pages_history.len(), 2);
    assert!(app.undone_pages_history.is_empty());
}

#[test]
fn undo_redo_round_trip_restores_every_state() {
    let mut app = Application::new();
    draw_dot(&mut app, 1, 1);
    draw_dot(&mut app, 2, 2);
    draw_dot(&mut app, 3, 3);
    assert_eq!(app.pages[0].lines.len(), 3);
    // three completed gestures: undo twice, redo twice
    app.undo();
    assert_eq!(app.pages[0].lines.len(), 2);
    app.undo();
    assert_eq!(app.pages[0].lines.len(), 1);
    app.redo();
    app.redo();
    assert_eq!(app.pages[0].lines.len(), 3);
    assert_eq!(app.pages[0].lines[2][0].position, Point::new(3, 3));
    assert!(app.undone_pages_history.is_empty());
    assert_eq!(app.pages_history.len(), 4);
}

#[test]
fn undo_at_bottom_and_redo_with_nothing_are_noops() {
    let mut app = Application::new();
    app.undo();
    assert_eq!(app.pages_history.len(), 1);
    assert_eq!(app.pages.len(), 1);
    app.redo();
    assert_eq!(app.pages_history.len(), 1);
    assert!(app.undone_pages_history.is_empty());
}

#[test]
fn new_edit_clears_redo_history() {
    let mut app = Application::new();
    draw_dot(&mut app, 1, 1);
    draw_dot(&mut app, 2, 2);
    app.undo();
    assert_eq!(app.undone_pages_history.len(), 1);
    draw_dot(&mut app, 9, 9);
    assert!(app.undone_pages_history.is_empty());
    app.redo();
    assert_eq!(app.pages[0].lines.len(), 2);
    assert_eq!(app.pages[0].lines[1][0].position, Point::new(9, 9));
}

#[test]
fn snapshots_are_independent_deep_copies() {
    // mutating the live document never retroactively changes a stored
    // snapshot: draw, edit the live page in place, undo past the gesture
    // and redo back onto its snapshot — the snapshot is intact.
    let mut app = Application::new();
    draw_dot(&mut app, 4, 4);
    app.pages[0].lines[0][0].position = Point::new(77, 77);
    app.undo();
    assert!(app.pages[0].lines.is_empty());
    app.redo();
    assert_eq!(app.pages[0].lines[0][0].position, Point::new(4, 4));
}

#[test]
fn add_remove_and_move_pages() {
    let mut app = Application::new();
    app.add_page();
    app.add_page();
    assert_eq!(app.pages.len(), 3);
    // mark each page with a different stroke count
    draw_dot(&mut app, 0, 0);
    assert_eq!(app.pages[0].lines.len(), 1);
    // switch to page 1 and move it down the list
    app.set_current_page(1, Vec::new());
    app.move_page_down();
    assert_eq!(app.current_page, 2);
    app.move_page_down();
    assert_eq!(app.current_page, 2);
    app.move_page_up();
    app.move_page_up();
    assert_eq!(app.current_page, 0);
    // the empty page's travels pushed the marked page to index 1
    assert_eq!(app.pages[1].lines.len(), 1);
    app.remove_page();
    assert_eq!(app.pages.len(), 2);
    assert_eq!(app.current_page, 0);
    assert_eq!(app.pages[0].lines.len(), 1);
}

#[test]
fn last_page_cannot_be_removed() {
    let mut app = Application::new();
    app.remove_page();
    assert_eq!(app.pages.len(), 1);
}

#[test]
fn set_current_page_installs_raster_cache() {
    let mut app = Application::new();
    app.add_page();
    app.import_image(vec![1, 2], Point::new(20, 20), BufferedImage::new(64, 32));
    assert_eq!(app.pages[0].images.len(), 1);
    assert_eq!(app.image_buffer.len(), 1);
    app.set_current_page(1, Vec::new());
    assert_eq!(app.current_page, 1);
    assert!(app.image_buffer.is_empty());
}

#[test]
fn undo_clamps_current_page_into_range() {
    let mut app = Application::new();
    app.add_page();
    app.set_current_page(1, Vec::new());
    draw_dot(&mut app, 5, 5);
    // the only snapshot below the top still has a single page; undoing to
    // it must pull the current-page index back into range
    app.undo();
    assert_eq!(app.pages.len(), 1);
    assert_eq!(app.current_page, 0);
    app.redo();
    assert_eq!(app.pages.len(), 2);
    assert_eq!(app.pages[1].lines.len(), 1);
}
