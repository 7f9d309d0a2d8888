use hallopoint::canvas::DrawingCanvas;
use hallopoint::geom::Point;

fn snapshot(c: &DrawingCanvas) -> Vec<Vec<u8>> {
    let mut rows: Vec<Vec<u8>> = Vec::new();
    let mut y: usize = 0;
    while y < c.height() {
        let mut row: Vec<u8> = Vec::new();
        let mut x: usize = 0;
        while x < c.width() {
            row.push(c.pixel(x, y));
            x += 1;
        }
        rows.push(row);
        y += 1;
    }
    rows
}

fn pt(x: i32, y: i32) -> Point {
    Point { x, y }
}

#[test]
fn new_canvas_is_background() {
    let c = DrawingCanvas::new(25, 25);
    assert_eq!(c.width(), 25);
    assert_eq!(c.height(), 25);
    assert_eq!(c.brush_radius(), 3);
    assert!(!c.grid_enabled());
    for y in 0..25 {
        for x in 0..25 {
            assert_eq!(c.pixel(x, y), 255);
        }
    }
}

#[test]
fn clear_resets_to_initial_buffer() {
    let fresh = DrawingCanvas::new(25, 25);
    let mut c = DrawingCanvas::new(25, 25);
    c.stroke(None, pt(5, 5), 255);
    c.stroke(Some(pt(5, 5)), pt(20, 5), 255);
    c.stroke(Some(pt(20, 5)), pt(20, 20), 128);
    c.clear();
    assert_eq!(snapshot(&c), snapshot(&fresh));
    assert_eq!(c.draw(1), fresh.draw(1));
    assert_eq!(c.draw(3), fresh.draw(3));
}

#[test]
fn resize_keeps_overlap_and_fills_rest() {
    let mut c = DrawingCanvas::new(25, 25);
    c.stroke(None, pt(4, 4), 255);
    c.stroke(Some(pt(4, 4)), pt(18, 9), 200);
    let before = snapshot(&c);
    c.resize(30, 20);
    assert_eq!(c.width(), 30);
    assert_eq!(c.height(), 20);
    for y in 0..20 {
        for x in 0..30 {
            if x < 25 {
                assert_eq!(c.pixel(x, y), before[y][x]);
            } else {
                assert_eq!(c.pixel(x, y), 255);
            }
        }
    }
}

#[test]
fn resize_clips_outlying_mark() {
    let mut c = DrawingCanvas::new(25, 25);
    c.stroke(None, pt(20, 5), 255);
    assert_eq!(c.pixel(20, 5), 0);
    c.resize(10, 10);
    for y in 0..10 {
        for x in 0..10 {
            assert_eq!(c.pixel(x, y), 255);
        }
    }
}

#[test]
fn point_stroke_marks_center_only_nearby() {
    let mut c = DrawingCanvas::new(25, 25);
    c.stroke(None, pt(5, 5), 255);
    assert_eq!(c.pixel(5, 5), 0);
    for y in 0..25i32 {
        for x in 0..25i32 {
            let d2 = (x - 5) * (x - 5) + (y - 5) * (y - 5);
            if d2 > 9 {
                assert_eq!(c.pixel(x as usize, y as usize), 255);
            }
        }
    }
}

#[test]
fn transparent_stroke_changes_nothing() {
    let mut c = DrawingCanvas::new(25, 25);
    c.stroke(None, pt(5, 5), 255);
    let before = snapshot(&c);
    c.stroke(Some(pt(3, 3)), pt(20, 17), 0);
    c.stroke(None, pt(12, 12), 0);
    assert_eq!(snapshot(&c), before);
}

#[test]
fn horizontal_stroke_draws_continuous_mark() {
    let mut c = DrawingCanvas::new(25, 25);
    c.stroke(None, pt(5, 5), 255);
    c.stroke(Some(pt(5, 5)), pt(20, 5), 255);
    for x in 5..=20 {
        assert_eq!(c.pixel(x, 5), 0);
    }
    for x in 10..=15 {
        for y in 0..2 {
            assert_eq!(c.pixel(x, y), 255);
        }
        for y in 9..25 {
            assert_eq!(c.pixel(x, y), 255);
        }
    }
}

#[test]
fn half_pressure_blends_exactly() {
    let mut c = DrawingCanvas::new(25, 25);
    c.stroke(None, pt(5, 5), 128);
    assert_eq!(c.pixel(5, 5), 127);
    c.stroke(None, pt(5, 5), 128);
    assert_eq!(c.pixel(5, 5), 63);
}

#[test]
fn degenerate_segment_is_skipped() {
    let mut c = DrawingCanvas::new(25, 25);
    let before = snapshot(&c);
    c.stroke(Some(pt(5, 5)), pt(5, 5), 255);
    assert_eq!(snapshot(&c), before);
}

#[test]
fn stroke_off_canvas_leaves_buffer() {
    let mut c = DrawingCanvas::new(25, 25);
    let before = snapshot(&c);
    c.stroke(None, pt(100, 100), 255);
    c.stroke(None, pt(-10, -10), 255);
    c.stroke(Some(pt(-20, 30)), pt(-5, 40), 255);
    assert_eq!(snapshot(&c), before);
}

#[test]
fn brush_radius_bounds_the_mark() {
    let mut c = DrawingCanvas::new(25, 25);
    c.set_brush_radius(1);
    assert_eq!(c.brush_radius(), 1);
    c.stroke(None, pt(12, 12), 255);
    assert_eq!(c.pixel(12, 12), 0);
    assert_eq!(c.pixel(12, 13), 0);
    assert_eq!(c.pixel(13, 13), 255);
    assert_eq!(c.pixel(12, 14), 255);
}

#[test]
fn segment_stroke_has_round_caps() {
    let mut c = DrawingCanvas::new(25, 25);
    c.stroke(Some(pt(5, 5)), pt(10, 5), 255);
    assert_eq!(c.pixel(3, 5), 0);
    assert_eq!(c.pixel(12, 5), 0);
    assert_eq!(c.pixel(1, 5), 255);
    assert_eq!(c.pixel(14, 5), 255);
}

#[test]
fn clear_and_resize_keep_settings() {
    let mut c = DrawingCanvas::new(25, 25);
    c.set_brush_radius(7);
    c.set_grid(true);
    c.clear();
    assert_eq!(c.brush_radius(), 7);
    assert!(c.grid_enabled());
    c.resize(12, 34);
    assert_eq!(c.brush_radius(), 7);
    assert!(c.grid_enabled());
    assert_eq!(c.width(), 12);
    assert_eq!(c.height(), 34);
}

#[test]
fn empty_canvas_operations() {
    let mut c = DrawingCanvas::new(0, 0);
    assert_eq!(c.width(), 0);
    assert_eq!(c.height(), 0);
    c.stroke(None, pt(0, 0), 255);
    c.clear();
    assert!(c.draw(2).is_empty());
    c.resize(5, 5);
    for y in 0..5 {
        for x in 0..5 {
            assert_eq!(c.pixel(x, y), 255);
        }
    }
}
