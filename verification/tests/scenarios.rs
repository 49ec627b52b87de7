use handnotes::canvas::{Drawpoint, Rgba};
use handnotes::editor::{Application, CurrentDrawTool};
use handnotes::geometry::Point;
use handnotes::line_eraser::LineEraser;

#[test]
fn pencil_draw_then_line_erase() {
    // Start with one empty page; pencil-draw three points with pen size 5.
    let mut app = Application::new();
    assert_eq!(app.pages.len(), 1);
    assert!(app.pages[0].lines.is_empty());
    app.drawing_information.current_draw_tool = CurrentDrawTool::Pencil;
    app.drawing_information.pen_size = 5;
    app.drawing_information.rgba = Rgba { red: 0, green: 0, blue: 0, alpha: 1 };
    app.begin_gesture();
    app.manipulate(Point::new(0, 0));
    app.manipulate(Point::new(10, 0));
    app.manipulate(Point::new(20, 0));
    app.end_gesture();
    assert_eq!(app.pages[0].lines.len(), 1);
    assert_eq!(app.pages[0].lines[0].len(), 3);
    assert_eq!(app.pages[0].lines[0][0].position, Point::new(0, 0));
    assert_eq!(app.pages[0].lines[0][1].position, Point::new(10, 0));
    assert_eq!(app.pages[0].lines[0][2].position, Point::new(20, 0));
    for point in app.pages[0].lines[0].iter() {
        assert_eq!(point.line_width, 5);
        assert_eq!(point.rgba, Rgba { red: 0, green: 0, blue: 0, alpha: 1 });
    }
    // One line-eraser sample at (10,0) with pen size 6 touches the middle
    // point and removes the entire stroke, leaving no strokes at all.
    let eraser = LineEraser::new();
    eraser.manipulate(&mut app.pages[0].lines, Point::new(10, 0), 6, true);
    assert_eq!(app.pages[0].lines.len(), 0);
}

#[test]
fn drag_shifts_whole_stroke_by_pointer_delta() {
    // Drag a stroke whose nearest point is at (5,5) to pointer position
    // (15,25): every point shifts by exactly (+10,+20) relative to its
    // pre-drag baseline, however many intermediate samples were emitted.
    let mut app = Application::new();
    app.pages[0].lines.push(vec![
        Drawpoint::new(Point::new(5, 5), 5, Rgba { red: 0, green: 0, blue: 0, alpha: 1 }),
        Drawpoint::new(Point::new(40, -3), 5, Rgba { red: 0, green: 0, blue: 0, alpha: 1 }),
        Drawpoint::new(Point::new(-7, 60), 5, Rgba { red: 0, green: 0, blue: 0, alpha: 1 }),
    ]);
    let baseline: Vec<Drawpoint> = app.pages[0].lines[0].clone();
    app.drawing_information.current_draw_tool = CurrentDrawTool::Drag;
    app.begin_gesture();
    app.manipulate(Point::new(5, 5));
    app.manipulate(Point::new(6, 6));
    app.manipulate(Point::new(2, 19));
    app.manipulate(Point::new(14, 24));
    app.manipulate(Point::new(15, 25));
    app.end_gesture();
    let moved = &app.pages[0].lines[0];
    assert_eq!(moved.len(), baseline.len());
    for (after, before) in moved.iter().zip(baseline.iter()) {
        assert_eq!(after.position.x, before.position.x + 10);
        assert_eq!(after.position.y, before.position.y + 20);
        assert_eq!(after.line_width, before.line_width);
        assert_eq!(after.rgba, before.rgba);
    }
}
