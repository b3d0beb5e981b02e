use image::{Rgba, RgbaImage};
use imageproc::drawing;
use imageproc::rect::Rect;
use steptrace::capture::Frame;
use steptrace::markers::{draw_click_marker, draw_step_badge, draw_window_highlight, DRAW_LIMIT};

const RED: Rgba<u8> = Rgba([255, 50, 50, 230]);
const GREEN: Rgba<u8> = Rgba([50, 200, 50, 200]);
const WHITE: Rgba<u8> = Rgba([255, 255, 255, 255]);

fn blank(width: u32, height: u32) -> Frame {
    Frame { width, height, pixels: vec![0u8; (width * height * 4) as usize] }
}

fn image_of(f: &Frame) -> RgbaImage {
    RgbaImage::from_raw(f.width, f.height, f.pixels.clone()).unwrap()
}

/// The dots drawn for text, drawn directly with `imageproc`, with the `u32`
/// arithmetic wrapping.
fn dots(img: &mut RgbaImage, x: u32, y: u32, n: usize, color: Rgba<u8>) {
    for i in 0..n {
        let cx = x.wrapping_add((i as u32).wrapping_mul(8));
        if cx.wrapping_add(5) < img.width() && y.wrapping_add(7) < img.height() {
            drawing::draw_filled_circle_mut(
                img,
                ((cx as i32).wrapping_add(3), (y as i32).wrapping_add(3)),
                3,
                color,
            );
        }
    }
}

fn expected_click_marker(img: &mut RgbaImage, x: i32, y: i32, step_number: u32) {
    drawing::draw_filled_circle_mut(img, (x, y), 18, RED);
    let text = step_number.to_string();
    let tx = x - (text.len() as i32 * 4);
    let ty = y - 6;
    for dx in -1..=1i32 {
        for dy in -1..=1i32 {
            dots(img, (tx + dx) as u32, (ty + dy) as u32, text.len(), WHITE);
        }
    }
}

#[test]
fn click_marker_draws_circle_and_number_dots() {
    for (x, y, n) in [(40, 30, 7u32), (60, 40, 123), (2, 3, 45), (79, 59, 1_000_000)] {
        let mut f = blank(80, 60);
        draw_click_marker(&mut f, x, y, n);
        assert_eq!((f.width, f.height), (80, 60));
        let mut expected = RgbaImage::new(80, 60);
        expected_click_marker(&mut expected, x, y, n);
        assert_eq!(image_of(&f), expected, "marker at ({}, {}) for {}", x, y, n);
    }
}

#[test]
fn click_marker_center_is_red_and_outside_untouched() {
    let mut f = blank(100, 100);
    draw_click_marker(&mut f, 50, 50, 3);
    let img = image_of(&f);
    assert_eq!(img.get_pixel(50, 68).0, RED.0);
    assert_eq!(img.get_pixel(50, 80).0, [0, 0, 0, 0]);
    assert_eq!(img.get_pixel(0, 0).0, [0, 0, 0, 0]);
    // One digit: the dots sit at x - 4 + 3 (+-1), y - 6 + 3 (+-1).
    assert_eq!(img.get_pixel(49, 47).0, WHITE.0);
}

#[test]
fn click_marker_off_image_draws_nothing() {
    let mut f = blank(20, 20);
    draw_click_marker(&mut f, -100, -100, 2);
    assert!(f.pixels.iter().all(|&b| b == 0));
}

#[test]
fn window_highlight_draws_three_green_outlines() {
    let mut f = blank(50, 40);
    draw_window_highlight(&mut f, 10, 8, 20, 15);
    let mut expected = RgbaImage::new(50, 40);
    for t in 0..3u32 {
        let rect = Rect::at(10 - t as i32, 8 - t as i32).of_size(20 + 2 * t, 15 + 2 * t);
        drawing::draw_hollow_rect_mut(&mut expected, rect, GREEN);
    }
    assert_eq!(image_of(&f), expected);
    let img = image_of(&f);
    assert_eq!(img.get_pixel(10, 8).0, GREEN.0);
    assert_eq!(img.get_pixel(7, 5).0, [0, 0, 0, 0]);
    assert_eq!(img.get_pixel(8, 6).0, GREEN.0);
    assert_eq!(img.get_pixel(15, 12).0, [0, 0, 0, 0]);
}

#[test]
fn window_highlight_at_the_corner_is_clipped() {
    let mut f = blank(30, 30);
    draw_window_highlight(&mut f, 0, 0, 5, 4);
    let mut expected = RgbaImage::new(30, 30);
    for t in 0..3u32 {
        let rect = Rect::at(-(t as i32), -(t as i32)).of_size(5 + 2 * t, 4 + 2 * t);
        drawing::draw_hollow_rect_mut(&mut expected, rect, GREEN);
    }
    assert_eq!(image_of(&f), expected);
    assert_eq!(image_of(&f).get_pixel(6, 0).0, GREEN.0);
    assert_eq!(image_of(&f).get_pixel(8, 0).0, [0, 0, 0, 0]);
}

#[test]
fn step_badge_is_a_red_box_with_dots() {
    for n in [1u32, 42, 4_000_000_000] {
        let mut f = blank(120, 60);
        draw_step_badge(&mut f, n);
        let mut expected = RgbaImage::new(120, 60);
        drawing::draw_filled_rect_mut(&mut expected, Rect::at(8, 8).of_size(60, 28), RED);
        let text = format!("#{}", n);
        dots(&mut expected, 16, 14, text.len(), WHITE);
        assert_eq!(image_of(&f), expected, "badge for {}", n);
    }
}

#[test]
fn step_badge_on_a_small_image() {
    let mut f = blank(10, 10);
    draw_step_badge(&mut f, 5);
    let mut expected = RgbaImage::new(10, 10);
    drawing::draw_filled_rect_mut(&mut expected, Rect::at(8, 8).of_size(60, 28), RED);
    assert_eq!(image_of(&f), expected);
    assert_eq!(image_of(&f).get_pixel(9, 9).0, RED.0);
    assert_eq!(image_of(&f).get_pixel(7, 7).0, [0, 0, 0, 0]);
}

#[test]
fn click_markers_near_the_top_left_corner_are_drawn() {
    for (x, y, n) in [(0, 0, 7u32), (1, 2, 45), (3, 0, 123), (0, 5, 4_294_967_295), (6, 6, 1)] {
        let mut f = blank(40, 30);
        draw_click_marker(&mut f, x, y, n);
        let mut expected = RgbaImage::new(40, 30);
        expected_click_marker(&mut expected, x, y, n);
        assert_eq!(image_of(&f), expected, "marker at ({}, {}) for {}", x, y, n);
    }
    // The label of a click at the corner reaches into the image.
    let mut f = blank(40, 30);
    draw_click_marker(&mut f, 0, 0, 45);
    assert_eq!(image_of(&f).get_pixel(0, 0).0, WHITE.0);
}

#[test]
fn drawing_at_the_coordinate_limits() {
    let mut f = blank(16, 16);
    draw_click_marker(&mut f, DRAW_LIMIT - 18, i32::MIN + 18, 4_294_967_295);
    draw_click_marker(&mut f, i32::MIN + 41, i32::MAX - 18, 0);
    assert!(f.pixels.iter().all(|&b| b == 0));
    let mut f = blank(16, 16);
    draw_window_highlight(&mut f, -1_000_000, 3, 1_000_010, 4);
    let mut expected = RgbaImage::new(16, 16);
    for t in 0..3u32 {
        let rect = Rect::at(-1_000_000 - t as i32, 3 - t as i32).of_size(1_000_010 + 2 * t, 4 + 2 * t);
        drawing::draw_hollow_rect_mut(&mut expected, rect, GREEN);
    }
    assert_eq!(image_of(&f), expected);
    assert_eq!(image_of(&f).get_pixel(5, 3).0, GREEN.0);
    assert_eq!(image_of(&f).get_pixel(9, 4).0, GREEN.0);
}
