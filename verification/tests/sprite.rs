use kineto::pipeline::choose_sprite;
use kineto::raster::{Rgba, RgbaImage};
use kineto::sprite::{draw_cursor_on_buffer, generate_cursor_sprite, point_in_polygon};

/// Draws a sprite at a position given as doubles.
fn draw(buf: &mut [u8], w: usize, h: usize, sprite: &RgbaImage, x: f64, y: f64, scale: f64) {
    let reach = |side: u32| -> Vec<usize> {
        let count = (side as f64 * scale).ceil() as i64;
        (0..count).map(|d| (d as f64 / scale) as usize).collect()
    };
    let columns = reach(sprite.width());
    let rows = reach(sprite.height());
    draw_cursor_on_buffer(buf, w, h, sprite, x.round() as i64, y.round() as i64, &columns, &rows);
}

/// Half pixels.
fn half(position: f64) -> i32 {
    (position * 2.0) as i32
}

#[test]
fn test_cursor_sprite_dimensions() {
    let sprite = generate_cursor_sprite();
    assert_eq!(sprite.width(), 26); // 24 + 2 for shadow
    assert_eq!(sprite.height(), 38); // 36 + 2 for shadow
}

#[test]
fn test_cursor_sprite_has_opaque_pixels() {
    let sprite = generate_cursor_sprite();
    let mut opaque_count = 0;
    for y in 0..sprite.height() {
        for x in 0..sprite.width() {
            if sprite.get_pixel(x, y).a > 0 {
                opaque_count += 1;
            }
        }
    }
    assert!(opaque_count > 50, "Cursor should have visible pixels, got {}", opaque_count);
}

#[test]
fn test_cursor_sprite_tip_opaque() {
    let sprite = generate_cursor_sprite();
    let tip = sprite.get_pixel(1, 1);
    assert!(tip.a > 0, "Arrow tip should be opaque, got alpha={}", tip.a);
}

#[test]
fn the_arrow_is_white_with_a_dark_edge_and_a_shadow() {
    let sprite = generate_cursor_sprite();
    assert_eq!(sprite.get_pixel(4, 10), Rgba { r: 255, g: 255, b: 255, a: 255 });
    assert_eq!(sprite.get_pixel(1, 10), Rgba { r: 0, g: 0, b: 0, a: 220 });
    assert_eq!(sprite.get_pixel(1, 24), Rgba { r: 0, g: 0, b: 0, a: 0 });
    // Below the end of the stem only its shadow shows.
    assert_eq!(sprite.get_pixel(11, 28), Rgba { r: 0, g: 0, b: 0, a: 80 });
    assert_eq!(sprite.get_pixel(25, 37), Rgba { r: 0, g: 0, b: 0, a: 0 });
}

#[test]
fn test_draw_cursor_on_buffer() {
    let sprite = generate_cursor_sprite();
    let mut buf = vec![0u8; 100 * 100 * 4];
    draw(&mut buf, 100, 100, &sprite, 50.0, 50.0, 1.0);
    // Check that some pixels in the cursor region have been drawn
    let mut found = false;
    for dy in 0..sprite.height() {
        for dx in 0..sprite.width() {
            let px = 50 + dx as usize;
            let py = 50 + dy as usize;
            if px < 100 && py < 100 {
                let idx = (py * 100 + px) * 4;
                if buf[idx + 3] > 0 {
                    found = true;
                    break;
                }
            }
        }
        if found {
            break;
        }
    }
    assert!(found, "Buffer should have cursor pixels drawn");
}

#[test]
fn test_draw_cursor_scaled() {
    let sprite = generate_cursor_sprite();
    let mut buf = vec![0u8; 200 * 200 * 4];
    draw(&mut buf, 200, 200, &sprite, 50.0, 50.0, 1.3);
    // Should not panic with scale > 1
}

#[test]
fn test_draw_cursor_at_edge() {
    let sprite = generate_cursor_sprite();
    let mut buf = vec![0u8; 50 * 50 * 4];
    // Draw at edge: should clip, not panic
    draw(&mut buf, 50, 50, &sprite, 45.0, 45.0, 1.0);
    draw(&mut buf, 50, 50, &sprite, -5.0, -5.0, 1.0);
}

#[test]
fn drawing_blends_by_alpha() {
    let data = vec![200, 100, 0, 255, 255, 255, 255, 51, 9, 9, 9, 0];
    let sprite = RgbaImage { width: 3, height: 1, data };
    let mut buf = vec![10u8; 5 * 2 * 4];
    draw_cursor_on_buffer(&mut buf, 5, 2, &sprite, 1, 1, &[0, 1, 2], &[0]);
    assert_eq!(buf[4 * 6..4 * 7], [200, 100, 0, 255]);
    // (255 * 51 + 10 * 204) / 255 is 59.
    assert_eq!(buf[4 * 7..4 * 8], [59, 59, 59, 255]);
    assert_eq!(buf[4 * 8..4 * 9], [10, 10, 10, 10]);
    assert!(buf[..4 * 6].iter().all(|&byte| byte == 10));
}

#[test]
fn drawing_reads_the_last_pixel_beyond_the_sprite() {
    let sprite = RgbaImage { width: 1, height: 1, data: vec![7, 8, 9, 255] };
    let mut buf = vec![0u8; 4 * 4];
    draw_cursor_on_buffer(&mut buf, 4, 1, &sprite, 2, 0, &[0, 3, 3], &[5]);
    assert_eq!(buf, vec![0, 0, 0, 0, 0, 0, 0, 0, 7, 8, 9, 255, 7, 8, 9, 255]);
}

#[test]
fn test_point_in_polygon() {
    let triangle: Vec<(i32, i32)> = [(0.0, 0.0), (10.0, 0.0), (5.0, 10.0), (0.0, 0.0)]
        .iter()
        .map(|&(x, y)| (half(x), half(y)))
        .collect();
    assert!(point_in_polygon(half(5.0), half(3.0), &triangle));
    assert!(!point_in_polygon(half(20.0), half(20.0), &triangle));
}

#[test]
fn a_loaded_sprite_takes_the_place_of_the_arrow() {
    let loaded = RgbaImage { width: 1, height: 1, data: vec![1, 2, 3, 4] };
    assert_eq!(choose_sprite(Some(loaded)).data, vec![1, 2, 3, 4]);
    assert_eq!(choose_sprite(None).data, generate_cursor_sprite().data);
}
