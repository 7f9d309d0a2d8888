use hallopoint::canvas::DrawingCanvas;
use hallopoint::geom::Point;

#[test]
fn draw_at_scale_one_copies_buffer() {
    let mut c = DrawingCanvas::new(6, 4);
    c.set_brush_radius(1);
    c.stroke(None, Point { x: 2, y: 1 }, 255);
    let frame = c.draw(1);
    assert_eq!(frame.len(), 4);
    for y in 0..4 {
        assert_eq!(frame[y].len(), 6);
        for x in 0..6 {
            assert_eq!(frame[y][x], c.pixel(x, y));
        }
    }
}

#[test]
fn draw_magnifies_each_pixel() {
    let mut c = DrawingCanvas::new(3, 3);
    c.set_brush_radius(1);
    c.stroke(None, Point { x: 0, y: 0 }, 255);
    assert_eq!(c.pixel(0, 0), 0);
    assert_eq!(c.pixel(2, 2), 255);
    let frame = c.draw(2);
    assert_eq!(frame.len(), 6);
    assert_eq!(frame[0].len(), 6);
    assert_eq!(frame[0][0], 0);
    assert_eq!(frame[1][1], 0);
    assert_eq!(frame[5][5], 255);
    assert_eq!(frame[3][3], c.pixel(1, 1));
}

#[test]
fn grid_overlay_marks_scale_lines() {
    let mut c = DrawingCanvas::new(4, 4);
    c.set_grid(true);
    assert!(c.grid_enabled());
    let frame = c.draw(3);
    assert_eq!(frame.len(), 12);
    assert_eq!(frame[1][3], 0);
    assert_eq!(frame[6][1], 0);
    assert_eq!(frame[9][9], 0);
    assert_eq!(frame[0][0], 255);
    assert_eq!(frame[1][1], 255);
    assert_eq!(frame[4][4], 255);
}

#[test]
fn grid_overlay_off_leaves_picture() {
    let mut c = DrawingCanvas::new(4, 4);
    c.set_grid(false);
    let frame = c.draw(3);
    assert_eq!(frame[1][3], 255);
    assert_eq!(frame[6][1], 255);
}

#[test]
fn grid_at_scale_one_lines_every_pixel() {
    let mut c = DrawingCanvas::new(3, 3);
    c.set_grid(true);
    let frame = c.draw(1);
    assert_eq!(frame[0][0], 255);
    assert_eq!(frame[0][1], 0);
    assert_eq!(frame[1][0], 0);
    assert_eq!(frame[2][2], 0);
}
