use png_encoder::raster::{Buffers, Rasterizer, Rgb, Segment};

const RED: Rgb = Rgb(255, 0, 0);
const GREEN: Rgb = Rgb(0, 255, 0);
const BLUE: Rgb = Rgb(0, 0, 255);

fn pixel(r: &Rasterizer, width: u32, x: u32, y: u32) -> (u8, u8, u8) {
    let data = r.data();
    let i = (r.get_index(x, y) * 3) as usize;
    assert!(x < width);
    (data[i], data[i + 1], data[i + 2])
}

fn lit(r: &Rasterizer, width: u32, height: u32) -> Vec<(u32, u32)> {
    let mut points = Vec::new();
    for y in 0..height {
        for x in 0..width {
            if pixel(r, width, x, y) != (0, 0, 0) {
                points.push((x, y));
            }
        }
    }
    points
}

fn segment(x1: i32, y1: i32, x2: i32, y2: i32) -> Segment {
    Segment { x1, y1, x2, y2, dx: x2 - x1, dy: y2 - y1 }
}

#[test]
fn new_frame_is_black() {
    let r = Rasterizer::new(4, 3);
    assert_eq!(r.data(), vec![0u8; 36]);
    let empty = Rasterizer::new(0, 7);
    assert!(empty.data().is_empty());
}

#[test]
fn rows_are_stored_from_the_top() {
    let r = Rasterizer::new(4, 3);
    assert_eq!(r.get_index(0, 2), 0);
    assert_eq!(r.get_index(3, 2), 3);
    assert_eq!(r.get_index(0, 0), 8);
    assert_eq!(r.get_index(3, 0), 11);
    assert_eq!(r.get_index(1, 1), 5);
}

#[test]
fn set_pixel_ignores_places_outside_the_frame() {
    let mut r = Rasterizer::new(3, 2);
    r.set_pixel(-1, 0, RED);
    r.set_pixel(0, -1, RED);
    r.set_pixel(3, 0, RED);
    r.set_pixel(0, 2, RED);
    assert_eq!(r.data(), vec![0u8; 18]);
    r.set_pixel(2, 1, GREEN);
    r.set_pixel(0, 0, BLUE);
    let mut expected = vec![0u8; 18];
    expected[6..9].copy_from_slice(&[0, 255, 0]);
    expected[9..12].copy_from_slice(&[0, 0, 255]);
    assert_eq!(r.data(), expected);
}

#[test]
fn handles_count_up() {
    let mut r = Rasterizer::new(1, 1);
    assert_eq!(r.load_positions().0, 0);
    assert_eq!(r.load_indices().0, 1);
    assert_eq!(r.load_positions().0, 2);
}

#[test]
fn clear_blackens_the_colour_buffer_only() {
    let mut r = Rasterizer::new(2, 2);
    r.set_pixel(1, 1, RED);
    r.clear(Buffers::Depth);
    assert_eq!(pixel(&r, 2, 1, 1), (255, 0, 0));
    r.clear(Buffers::Color);
    assert_eq!(r.data(), vec![0u8; 12]);
    r.set_pixel(0, 0, BLUE);
    r.clear(Buffers::All);
    assert_eq!(r.data(), vec![0u8; 12]);
}

#[test]
fn horizontal_and_vertical_lines() {
    let mut r = Rasterizer::new(6, 6);
    r.draw_line(segment(1, 2, 4, 2), RED);
    assert_eq!(lit(&r, 6, 6), vec![(1, 2), (2, 2), (3, 2), (4, 2)]);
    let mut r = Rasterizer::new(6, 6);
    r.draw_line(segment(3, 4, 3, 1), GREEN);
    assert_eq!(lit(&r, 6, 6), vec![(3, 1), (3, 2), (3, 3), (3, 4)]);
}

#[test]
fn diagonal_lines_in_both_directions() {
    let mut r = Rasterizer::new(5, 5);
    r.draw_line(segment(0, 0, 4, 4), RED);
    assert_eq!(lit(&r, 5, 5), vec![(0, 0), (1, 1), (2, 2), (3, 3), (4, 4)]);
    let mut r = Rasterizer::new(5, 5);
    r.draw_line(segment(4, 0, 0, 4), RED);
    assert_eq!(lit(&r, 5, 5), vec![(4, 0), (3, 1), (2, 2), (1, 3), (0, 4)]);
}

#[test]
fn shallow_line_steps_up_when_the_error_turns() {
    let mut r = Rasterizer::new(8, 4);
    r.draw_line(segment(0, 0, 6, 2), BLUE);
    // error term 4 - 6 = -2, then +4, -8 in turn
    assert_eq!(
        lit(&r, 8, 4),
        vec![(0, 0), (1, 0), (2, 1), (3, 1), (4, 1), (5, 2), (6, 2)]
    );
}

#[test]
fn steep_line_is_walked_row_by_row() {
    let mut r = Rasterizer::new(4, 8);
    r.draw_line(segment(0, 0, 2, 6), BLUE);
    assert_eq!(
        lit(&r, 4, 8),
        vec![(0, 0), (0, 1), (1, 2), (1, 3), (1, 4), (2, 5), (2, 6)]
    );
}

#[test]
fn line_is_the_same_from_either_end() {
    for (a, b) in [((0, 0), (7, 3)), ((1, 6), (5, 0)), ((2, 2), (2, 2)), ((0, 7), (7, 0))] {
        let mut forth = Rasterizer::new(8, 8);
        forth.draw_line(segment(a.0, a.1, b.0, b.1), RED);
        let mut back = Rasterizer::new(8, 8);
        back.draw_line(segment(b.0, b.1, a.0, a.1), RED);
        assert_eq!(forth.data(), back.data());
    }
}

#[test]
fn line_is_clipped_at_the_frame() {
    let mut r = Rasterizer::new(3, 3);
    r.draw_line(segment(-2, 1, 5, 1), RED);
    assert_eq!(lit(&r, 3, 3), vec![(0, 1), (1, 1), (2, 1)]);
}

#[test]
fn wireframe_draws_three_sides_later_sides_on_top() {
    let mut r = Rasterizer::new(5, 5);
    // corners a = (0, 0), b = (4, 0), c = (0, 4)
    let ca = segment(0, 4, 0, 0);
    let cb = segment(0, 4, 4, 0);
    let ba = segment(4, 0, 0, 0);
    r.rasterize_wireframe(ca, cb, ba, [RED, GREEN, BLUE]);
    assert_eq!(pixel(&r, 5, 0, 2), (255, 0, 0));
    assert_eq!(pixel(&r, 5, 2, 2), (0, 255, 0));
    assert_eq!(pixel(&r, 5, 2, 0), (0, 0, 255));
    // the corners belong to the side drawn last
    assert_eq!(pixel(&r, 5, 0, 4), (0, 255, 0));
    assert_eq!(pixel(&r, 5, 0, 0), (0, 0, 255));
    assert_eq!(pixel(&r, 5, 4, 0), (0, 0, 255));
    assert_eq!(pixel(&r, 5, 1, 1), (0, 0, 0));
}
