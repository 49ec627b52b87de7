use handnotes::canvas::{BufferedImage, Drawpoint, Image, Rgba};
use handnotes::clear::Clear;
use handnotes::drag::{Drag, DragMode};
use handnotes::eraser::Eraser;
use handnotes::geometry::{is_within_reach, squared_distance, Point};
use handnotes::line_eraser::LineEraser;
use handnotes::line_tool::LineTool;
use handnotes::pencil::Pencil;
use handnotes::queries::closest_line_position;

fn dp(x: i64, y: i64) -> Drawpoint {
    Drawpoint::new(
        Point::new(x, y),
        5,
        Rgba { red: 0, green: 0, blue: 0, alpha: 1 },
    )
}

#[test]
fn squared_distance_exact() {
    assert_eq!(
        squared_distance(Point::new(3, 4), Point::new(0, 0)),
        25
    );
    assert_eq!(
        squared_distance(Point::new(-3, 4), Point::new(3, -4)),
        100
    );
}

#[test]
fn within_reach_is_strict() {
    // distance exactly pen_size is out of reach; just under is in.
    assert!(!is_within_reach(Point::new(6, 0), Point::new(0, 0), 6));
    assert!(is_within_reach(Point::new(6, 0), Point::new(0, 0), 7));
    assert!(!is_within_reach(Point::new(1, 0), Point::new(0, 0), 0));
}

#[test]
fn pencil_appends_active_samples() {
    let pencil = Pencil::new();
    let mut lines: Vec<Vec<Drawpoint>> = vec![Vec::new()];
    let rgba = Rgba { red: 1, green: 2, blue: 3, alpha: 4 };
    pencil.manipulate(&mut lines, Point::new(1, 1), 9, true, rgba);
    pencil.manipulate(&mut lines, Point::new(2, 2), 9, true, rgba);
    // inactive samples change nothing
    pencil.manipulate(&mut lines, Point::new(3, 3), 9, false, rgba);
    assert_eq!(lines.len(), 1);
    assert_eq!(lines[0].len(), 2);
    assert_eq!(lines[0][0].position, Point::new(1, 1));
    assert_eq!(lines[0][1].position, Point::new(2, 2));
    assert_eq!(lines[0][0].line_width, 9);
    assert_eq!(lines[0][0].rgba, rgba);
}

#[test]
fn eraser_splits_at_matched_point() {
    let eraser = Eraser::new();
    let mut lines = vec![vec![dp(0, 0), dp(100, 100), dp(200, 0)]];
    eraser.manipulate(&mut lines, Point::new(100, 100), 5, true);
    assert_eq!(lines.len(), 2);
    assert_eq!(lines[0], vec![dp(0, 0)]);
    assert_eq!(lines[1], vec![dp(100, 100), dp(200, 0)]);
    assert_eq!(lines[0].len() + lines[1].len(), 3);
}

#[test]
fn eraser_two_adjacent_matches_split_twice() {
    let eraser = Eraser::new();
    let mut lines = vec![vec![dp(0, 0), dp(200, 0), dp(200, 1), dp(300, 0), dp(400, 0)]];
    // the points at indices 1 and 2 are both within reach of (200, 0)
    eraser.manipulate(&mut lines, Point::new(200, 0), 5, true);
    assert_eq!(lines.len(), 3);
    assert_eq!(lines[0], vec![dp(0, 0)]);
    assert_eq!(lines[1], vec![dp(200, 0), dp(200, 1)]);
    assert_eq!(lines[2], vec![dp(300, 0), dp(400, 0)]);
}

#[test]
fn eraser_offset_bookkeeping_skips_shifted_match() {
    // the removal queue keeps original point indices; after the first
    // split the second match of the same stroke points past the remainder
    // and is skipped, left to right, exactly as the replay runs
    let eraser = Eraser::new();
    let mut lines = vec![vec![dp(0, 0), dp(100, 0), dp(200, 0), dp(300, 0), dp(200, 1)]];
    eraser.manipulate(&mut lines, Point::new(200, 0), 5, true);
    assert_eq!(lines.len(), 2);
    assert_eq!(lines[0], vec![dp(0, 0), dp(100, 0)]);
    assert_eq!(lines[1], vec![dp(200, 0), dp(300, 0), dp(200, 1)]);
}

#[test]
fn eraser_at_first_point_prepends_empty_stroke() {
    let eraser = Eraser::new();
    let mut lines = vec![vec![dp(0, 0), dp(50, 0)]];
    eraser.manipulate(&mut lines, Point::new(0, 0), 3, true);
    assert_eq!(lines.len(), 2);
    assert!(lines[0].is_empty());
    assert_eq!(lines[1], vec![dp(0, 0), dp(50, 0)]);
}

#[test]
fn eraser_inactive_is_noop() {
    let eraser = Eraser::new();
    let mut lines = vec![vec![dp(0, 0)]];
    eraser.manipulate(&mut lines, Point::new(0, 0), 100, false);
    assert_eq!(lines.len(), 1);
    assert_eq!(lines[0], vec![dp(0, 0)]);
}

#[test]
fn line_eraser_removes_whole_strokes() {
    let tool = LineEraser::new();
    let mut lines = vec![
        vec![dp(0, 0), dp(10, 0)],
        vec![dp(500, 500)],
        vec![dp(12, 0)],
    ];
    tool.manipulate(&mut lines, Point::new(11, 0), 4, true);
    // strokes 0 and 2 each have a point within 4 of (11, 0); only the far
    // stroke survives.
    assert_eq!(lines.len(), 1);
    assert_eq!(lines[0], vec![dp(500, 500)]);
}

#[test]
fn line_tool_resamples_straight_segment() {
    let tool = LineTool::new();
    let rgba = Rgba { red: 0, green: 0, blue: 0, alpha: 1 };
    let mut lines: Vec<Vec<Drawpoint>> = vec![vec![Drawpoint::new(Point::new(0, 0), 5, rgba)]];
    tool.manipulate(&mut lines, Point::new(300, 0), 5, true, rgba);
    // squared length 90000 gives 9 points: the start plus 8 interpolated.
    assert_eq!(lines[0].len(), 9);
    assert_eq!(lines[0][0].position, Point::new(0, 0));
    for i in 1..9u8 {
        let expected_x = (300 * i as i64) / 9;
        assert_eq!(lines[0][i as usize].position, Point::new(expected_x, 0));
    }
}

#[test]
fn line_tool_rewrite_is_idempotent() {
    let tool = LineTool::new();
    let rgba = Rgba { red: 7, green: 8, blue: 9, alpha: 1 };
    let mut lines: Vec<Vec<Drawpoint>> = vec![vec![Drawpoint::new(Point::new(10, 20), 3, rgba)]];
    tool.manipulate(&mut lines, Point::new(410, 320), 3, true, rgba);
    let first = lines[0].clone();
    tool.manipulate(&mut lines, Point::new(410, 320), 3, true, rgba);
    assert_eq!(lines[0], first);
}

#[test]
fn line_tool_short_segment_keeps_single_point() {
    let tool = LineTool::new();
    let rgba = Rgba { red: 0, green: 0, blue: 0, alpha: 1 };
    let mut lines: Vec<Vec<Drawpoint>> = vec![Vec::new()];
    // squared length 2 < 10000: only the starting point is laid down.
    tool.manipulate(&mut lines, Point::new(1, 1), 5, true, rgba);
    assert_eq!(lines[0].len(), 1);
    assert_eq!(lines[0][0].position, Point::new(1, 1));
}

#[test]
fn closest_line_position_finds_minimum() {
    let lines = vec![
        vec![dp(100, 0), dp(50, 0)],
        vec![dp(10, 0), dp(70, 0)],
    ];
    let r = closest_line_position(&lines, Point::new(0, 0));
    assert_eq!(r, Some((1, Point::new(10, 0))));
}

#[test]
fn closest_line_position_tie_keeps_first() {
    let lines = vec![vec![dp(5, 0)], vec![dp(-5, 0)]];
    let r = closest_line_position(&lines, Point::new(0, 0));
    assert_eq!(r, Some((0, Point::new(5, 0))));
}

#[test]
fn closest_line_position_empty_page() {
    let lines: Vec<Vec<Drawpoint>> = vec![Vec::new(), Vec::new()];
    assert_eq!(closest_line_position(&lines, Point::new(0, 0)), None);
}

#[test]
fn image_handle_position_formula() {
    // handle = position + (raster_size - position) / 2, componentwise.
    let image = Image::new(vec![1, 2, 3], Point::new(10, 20));
    let buffered = BufferedImage::new(100, 60);
    let h = Drag::get_handle_position(&image, &buffered);
    assert_eq!(h, Point::new(55, 40));
}

#[test]
fn closest_image_picks_nearest_handle() {
    let images = vec![
        Image::new(vec![1], Point::new(0, 0)),
        Image::new(vec![2], Point::new(1000, 1000)),
    ];
    // handles: (50, 50) and (1000 + (100-1000)/2, ...) = (550, 550)
    let buffer = vec![BufferedImage::new(100, 100), BufferedImage::new(100, 100)];
    let r = Drag::closest_image(&images, &buffer, Point::new(60, 60));
    assert_eq!(r, Some((0, Point::new(50, 50))));
    let none = Drag::closest_image(&Vec::new(), &Vec::new(), Point::new(0, 0));
    assert_eq!(none, None);
}

#[test]
fn drag_translates_from_baseline() {
    let mut drag = Drag::new();
    let mut lines = vec![vec![dp(5, 5), dp(6, 7)]];
    let mut images: Vec<Image> = Vec::new();
    let buffer: Vec<BufferedImage> = Vec::new();
    let rgba = Rgba { red: 0, green: 0, blue: 0, alpha: 1 };
    drag.manipulate(&mut lines, &mut images, &buffer, Point::new(5, 5), 5, true, rgba);
    drag.manipulate(&mut lines, &mut images, &buffer, Point::new(7, 9), 5, true, rgba);
    drag.manipulate(&mut lines, &mut images, &buffer, Point::new(15, 25), 5, true, rgba);
    drag.manipulate(&mut lines, &mut images, &buffer, Point::new(15, 25), 5, false, rgba);
    assert_eq!(lines[0][0].position, Point::new(15, 25));
    assert_eq!(lines[0][1].position, Point::new(16, 27));
    assert!(matches!(drag.mode, DragMode::Line));
}

#[test]
fn drag_moves_image_center_to_pointer() {
    let mut drag = Drag::new();
    let mut lines: Vec<Vec<Drawpoint>> = Vec::new();
    let mut images = vec![Image::new(vec![9], Point::new(0, 0))];
    let buffer = vec![BufferedImage::new(40, 20)];
    let rgba = Rgba { red: 0, green: 0, blue: 0, alpha: 1 };
    // handle starts at (20, 10); grab it there and pull to (120, 110).
    drag.manipulate(&mut lines, &mut images, &buffer, Point::new(20, 10), 5, true, rgba);
    drag.manipulate(&mut lines, &mut images, &buffer, Point::new(120, 110), 5, true, rgba);
    // anchor = captured handle + vector - half raster size
    assert_eq!(images[0].position, Point::new(20 + 100 - 20, 10 + 100 - 10));
    assert!(matches!(drag.mode, DragMode::BufferedImage));
}

#[test]
fn drag_with_empty_page_is_noop() {
    let mut drag = Drag::new();
    let mut lines: Vec<Vec<Drawpoint>> = Vec::new();
    let mut images: Vec<Image> = Vec::new();
    let buffer: Vec<BufferedImage> = Vec::new();
    let rgba = Rgba { red: 0, green: 0, blue: 0, alpha: 1 };
    drag.manipulate(&mut lines, &mut images, &buffer, Point::new(3, 4), 5, true, rgba);
    assert!(lines.is_empty());
    assert!(images.is_empty());
    assert!(matches!(drag.mode, DragMode::NoTarget));
}

#[test]
fn clear_empties_strokes_only() {
    let clear = Clear::new();
    let mut lines = vec![vec![dp(1, 1)], vec![dp(2, 2)]];
    clear.manipulate(&mut lines);
    assert!(lines.is_empty());
}
