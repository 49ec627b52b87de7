use handnotes::canvas::{Drawpoint, Rgba};
use handnotes::geometry::Point;
use handnotes::rectangle_selection::{RectangleSelection, RectangleSelectionMode};

fn dp(x: i64, y: i64) -> Drawpoint {
    Drawpoint::new(
        Point::new(x, y),
        5,
        Rgba { red: 0, green: 0, blue: 0, alpha: 1 },
    )
}

#[test]
fn selection_gesture_spans_rectangle() {
    let mut tool = RectangleSelection::new();
    let mut lines = vec![Vec::new()];
    tool.manipulate(&mut lines, Point::new(10, 30), 5, true);
    tool.manipulate(&mut lines, Point::new(2, 4), 5, true);
    assert!(matches!(tool.mode, RectangleSelectionMode::Selection));
    // axis-aligned whichever way the drag went
    assert_eq!(tool.rectangle.x0, 2);
    assert_eq!(tool.rectangle.y0, 4);
    assert_eq!(tool.rectangle.x1, 10);
    assert_eq!(tool.rectangle.y1, 30);
    // release clears the ephemeral outline stroke
    tool.manipulate(&mut lines, Point::new(2, 4), 5, false);
    assert!(lines[0].is_empty());
}

#[test]
fn point_on_edge_is_never_selected() {
    let mut tool = RectangleSelection::new();
    let mut lines = vec![Vec::new()];
    // span a rectangle from (0,0) to (10,10)
    tool.manipulate(&mut lines, Point::new(0, 0), 5, true);
    tool.manipulate(&mut lines, Point::new(10, 10), 5, true);
    tool.manipulate(&mut lines, Point::new(10, 10), 5, false);
    // stroke 1 sits exactly on the right edge, stroke 2 strictly inside
    lines.push(vec![dp(10, 5)]);
    lines.push(vec![dp(5, 5)]);
    // a new gesture starting inside enters translation mode and captures
    // the selection against the stale rectangle
    tool.manipulate(&mut lines, Point::new(5, 5), 5, true);
    assert!(matches!(tool.mode, RectangleSelectionMode::Translation));
    assert_eq!(tool.selection, vec![2]);
}

#[test]
fn translation_moves_selected_strokes_and_keeps_selection() {
    let mut tool = RectangleSelection::new();
    let mut lines = vec![Vec::new()];
    tool.manipulate(&mut lines, Point::new(0, 0), 5, true);
    tool.manipulate(&mut lines, Point::new(20, 20), 5, true);
    tool.manipulate(&mut lines, Point::new(20, 20), 5, false);
    lines.push(vec![dp(5, 5), dp(6, 6)]);
    lines.push(vec![dp(100, 100)]);
    // drag from inside the rectangle: stroke 1 is selected, stroke 2 not
    tool.manipulate(&mut lines, Point::new(10, 10), 5, true);
    let selected = tool.selection.clone();
    assert_eq!(selected, vec![1]);
    tool.manipulate(&mut lines, Point::new(13, 14), 5, true);
    // membership is stable across translation samples
    assert_eq!(tool.selection, selected);
    assert_eq!(lines[1][0].position, Point::new(8, 9));
    assert_eq!(lines[1][1].position, Point::new(9, 10));
    assert_eq!(lines[2][0].position, Point::new(100, 100));
    // the rectangle itself moved with the drag
    assert_eq!(tool.rectangle.x0, 3);
    assert_eq!(tool.rectangle.y0, 4);
    assert_eq!(tool.rectangle.x1, 23);
    assert_eq!(tool.rectangle.y1, 24);
}

#[test]
fn translation_uses_baseline_not_live_state() {
    let mut tool = RectangleSelection::new();
    let mut lines = vec![Vec::new()];
    tool.manipulate(&mut lines, Point::new(0, 0), 5, true);
    tool.manipulate(&mut lines, Point::new(20, 20), 5, true);
    tool.manipulate(&mut lines, Point::new(20, 20), 5, false);
    lines.push(vec![dp(5, 5)]);
    tool.manipulate(&mut lines, Point::new(10, 10), 5, true);
    // many intermediate samples must not compound
    tool.manipulate(&mut lines, Point::new(11, 11), 5, true);
    tool.manipulate(&mut lines, Point::new(12, 12), 5, true);
    tool.manipulate(&mut lines, Point::new(11, 12), 5, true);
    assert_eq!(lines[1][0].position, Point::new(6, 7));
}
