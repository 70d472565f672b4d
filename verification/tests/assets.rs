use kineto::assets::{
    can_fill, generate_canvas_image, generate_corner_frame, generate_corner_mask, generate_shadow_image,
    generate_shadow_stamp, shade_canvas, Frame,
};
use kineto::color::{can_read, parse_hex_color};
use kineto::raster::{Rgba, RgbaImage};

fn rgba(r: u8, g: u8, b: u8, a: u8) -> Rgba {
    Rgba { r, g, b, a }
}

#[test]
fn test_parse_hex_color() {
    assert_eq!(parse_hex_color("#0f0f23").unwrap(), (15, 15, 35));
    assert_eq!(parse_hex_color("ff0000").unwrap(), (255, 0, 0));
    assert!(parse_hex_color("#fff").is_err());
}

#[test]
fn colors_take_either_case_and_any_number_of_hashes() {
    assert_eq!(parse_hex_color("###AbCdEf"), Ok((0xab, 0xcd, 0xef)));
    assert_eq!(parse_hex_color("000000"), Ok((0, 0, 0)));
}

#[test]
fn colors_may_sign_their_channels() {
    // A channel may be one digit behind a plus sign, as integers are written.
    assert_eq!(parse_hex_color("+1+2+3"), Ok((1, 2, 3)));
    assert!(parse_hex_color("-1-2-3").is_err());
}

#[test]
fn a_color_of_the_wrong_length_is_named() {
    assert_eq!(parse_hex_color("#fff"), Err(String::from("Invalid hex color: #fff")));
    assert_eq!(parse_hex_color(""), Err(String::from("Invalid hex color: #")));
    assert_eq!(parse_hex_color("##1234567"), Err(String::from("Invalid hex color: #1234567")));
}

#[test]
fn a_color_with_other_characters_is_refused() {
    let refused = Err(String::from("Bad hex: invalid digit found in string"));
    assert_eq!(parse_hex_color("#gg0000"), refused);
    assert_eq!(parse_hex_color("#00g000"), refused);
    assert_eq!(parse_hex_color("#00000 "), refused);
}

#[test]
fn a_color_is_read_in_whole_characters() {
    assert!(can_read("#0f0f23"));
    assert!(can_read("#f\u{e9}"));
    // Six bytes, of which the second and third, or the fourth and fifth, are one character.
    assert!(!can_read("#0\u{e9}f23"));
    assert!(!can_read("0f0\u{e9}3"));
    // Refused at its first piece.
    assert!(can_read("zz0\u{e9}3"));
    assert!(parse_hex_color("zz0\u{e9}3").is_err());
    assert!(parse_hex_color("#\u{e9}\u{e9}\u{e9}").is_err());
}

#[test]
fn test_canvas_dimensions() {
    let canvas = generate_canvas_image(1920, 1080, 115, 65, 1690, 950, "#0f0f23", 16, false).unwrap();
    assert_eq!(canvas.width(), 1920);
    assert_eq!(canvas.height(), 1080);
}

#[test]
fn test_canvas_bg_color() {
    let canvas = generate_canvas_image(100, 100, 10, 10, 80, 80, "#ff0000", 0, false).unwrap();
    let pixel = canvas.get_pixel(50, 50);
    assert_eq!(pixel, rgba(255, 0, 0, 255));
}

#[test]
fn test_canvas_with_shadow() {
    // Should not panic and should have shadow alpha at offset position
    let canvas = generate_canvas_image(200, 200, 20, 20, 160, 160, "#0f0f23", 16, true).unwrap();
    assert_eq!(canvas.width(), 200);
    assert_eq!(canvas.height(), 200);
}

#[test]
fn a_canvas_needs_a_color() {
    let canvas = generate_canvas_image(10, 10, 1, 1, 8, 8, "red", 0, false);
    assert_eq!(canvas.unwrap_err(), "Invalid hex color: #red");
    let frame = generate_corner_frame(10, 10, 1, 1, 8, 8, "#zz0000", 2);
    assert_eq!(frame.unwrap_err(), "Bad hex: invalid digit found in string");
}

#[test]
fn a_shadow_darkens_the_canvas_below_the_recording() {
    let canvas = generate_canvas_image(200, 200, 60, 60, 80, 80, "#ffffff", 8, true).unwrap();
    let under = canvas.get_pixel(100, 100);
    assert!(under.r < 200, "the middle of the shadow is dark, got {}", under.r);
    assert_eq!(under.a, 255);
    let below = canvas.get_pixel(100, 144);
    let above = canvas.get_pixel(100, 55);
    assert!(below.r < above.r, "the shadow drops: {} below, {} above", below.r, above.r);
    assert_eq!(canvas.get_pixel(0, 0), rgba(255, 255, 255, 255));
}

#[test]
fn a_shadow_is_soft_and_canvas_sized() {
    let video = Frame { x: 60, y: 60, width: 80, height: 80 };
    let shadow = generate_shadow_image(200, 200, video, 8);
    assert_eq!((shadow.width(), shadow.height()), (200, 200));
    // Eight pixels beside the hard edge of the stamp the blurred shadow still shows.
    let beside = shadow.get_pixel(52, 108);
    assert!(beside.a > 0 && beside.a < 115, "got {}", beside.a);
    let inside = shadow.get_pixel(100, 108);
    assert!(inside.a > beside.a);
    assert_eq!((inside.r, inside.g, inside.b), (0, 0, 0));
}

#[test]
fn a_shadow_is_nowhere_darker_than_its_stamp() {
    let video = Frame { x: 8, y: 8, width: 184, height: 184 };
    let shadow = generate_shadow_image(200, 200, video, 0);
    let alphas: Vec<u8> = shadow.data.iter().skip(3).step_by(4).copied().collect();
    assert!(alphas.iter().all(|&alpha| alpha <= 115));
    assert!(alphas.iter().any(|&alpha| alpha > 100));
}

#[test]
fn no_recording_casts_no_shadow() {
    let canvas = generate_canvas_image(40, 40, 20, 20, 0, 0, "#ffffff", 8, true).unwrap();
    assert!(canvas.data.iter().all(|&byte| byte == 255));
}

#[test]
fn a_canvas_is_filled_where_it_fits() {
    assert!(can_fill(1920, 1080, true));
    assert!(can_fill(0, 0, true));
    assert!(can_fill(0x40_0000, 1, true));
    assert!(!can_fill(0x40_0001, 1, true));
    assert!(can_fill(0x40_0001, 1, false));
    assert!(!can_fill(u32::MAX, u32::MAX, false));
}

#[test]
fn a_shadow_stamp_is_a_lowered_rounded_rectangle() {
    let video = Frame { x: 60, y: 60, width: 80, height: 80 };
    let stamp = generate_shadow_stamp(200, 200, video, 8);
    assert_eq!((stamp.width(), stamp.height()), (50, 50));
    let black = rgba(0, 0, 0, 115);
    let clear = rgba(0, 0, 0, 0);
    // The rectangle reaches from (15, 17) to (34, 36), with corners of radius 4.
    assert_eq!(stamp.get_pixel(25, 17), black);
    assert_eq!(stamp.get_pixel(25, 16), clear);
    assert_eq!(stamp.get_pixel(25, 36), black);
    assert_eq!(stamp.get_pixel(25, 37), clear);
    assert_eq!(stamp.get_pixel(15, 27), black);
    assert_eq!(stamp.get_pixel(14, 27), clear);
    // (15, 17) is 4 across and 4 down from the centre of its arc, (17, 18) is 2 and 3.
    assert_eq!(stamp.get_pixel(15, 17), clear);
    assert_eq!(stamp.get_pixel(17, 18), black);
}

#[test]
fn a_small_shadow_is_never_empty() {
    let stamp = generate_shadow_stamp(3, 2, Frame { x: 0, y: 0, width: 2, height: 2 }, 0);
    assert_eq!((stamp.width(), stamp.height()), (1, 1));
}

#[test]
fn shading_keeps_what_the_shadow_leaves_clear() {
    let mut data = vec![0u8; 2 * 4];
    data[7] = 255;
    let shadow = RgbaImage { width: 2, height: 1, data };
    let canvas = shade_canvas((10, 20, 30), &shadow);
    assert_eq!(canvas.get_pixel(0, 0), rgba(10, 20, 30, 255));
    assert_eq!(canvas.get_pixel(1, 0), rgba(0, 0, 0, 255));
}

#[test]
fn test_corner_frame_dimensions() {
    let frame = generate_corner_frame(1920, 1080, 115, 65, 1690, 950, "#0f0f23", 16).unwrap();
    assert_eq!(frame.width(), 1920);
    assert_eq!(frame.height(), 1080);
}

#[test]
fn test_corner_frame_center_transparent() {
    let frame = generate_corner_frame(200, 200, 20, 20, 160, 160, "#ff0000", 16).unwrap();
    // Center of video area should be transparent
    let pixel = frame.get_pixel(100, 100);
    assert_eq!(pixel.a, 0, "Center of video area should be transparent");
}

#[test]
fn test_corner_frame_outside_video_transparent() {
    let frame = generate_corner_frame(200, 200, 20, 20, 160, 160, "#ff0000", 16).unwrap();
    // Background area (outside video) should be transparent
    let pixel = frame.get_pixel(5, 5);
    assert_eq!(pixel.a, 0, "Background area should be transparent");
}

#[test]
fn a_corner_frame_paints_the_background_over_the_corners() {
    let frame = generate_corner_frame(200, 200, 20, 20, 160, 160, "#ff0000", 16).unwrap();
    assert_eq!(frame.get_pixel(20, 20), rgba(255, 0, 0, 255));
    assert_eq!(frame.get_pixel(179, 179), rgba(255, 0, 0, 255));
    // One pixel down from the end of the arc, at a distance of 16.03 from its centre.
    assert_eq!(frame.get_pixel(20, 35), rgba(255, 0, 0, 133));
    assert_eq!(frame.get_pixel(20, 36), rgba(0, 0, 0, 0));
}

#[test]
fn a_corner_frame_matches_the_formula_of_its_feather() {
    for radius in [1u32, 5, 16, 37] {
        let frame = generate_corner_frame(120, 120, 10, 10, 100, 100, "#ffffff", radius).unwrap();
        let mask = generate_corner_mask(100, 100, radius);
        for y in 0..radius {
            for x in 0..radius {
                let dx = x as f64 - radius as f64;
                let dy = y as f64 - radius as f64;
                let distance = (dx * dx + dy * dy).sqrt();
                let edge = radius as f64 - 0.75;
                let (hidden, kept) = if distance > edge {
                    let alpha = ((distance - edge) / 1.5).clamp(0.0, 1.0);
                    ((alpha * 255.0).round() as u8, ((1.0 - alpha) * 255.0).round() as u8)
                } else {
                    (0, 255)
                };
                assert_eq!(frame.get_pixel(10 + x, 10 + y).a, hidden, "radius {radius} at {x}, {y}");
                assert_eq!(mask.get_pixel(x, y), kept, "radius {radius} at {x}, {y}");
            }
        }
    }
}

#[test]
fn a_square_recording_needs_no_corner_frame() {
    let frame = generate_corner_frame(40, 40, 10, 10, 20, 20, "#ffffff", 0).unwrap();
    assert!(frame.data.iter().all(|&byte| byte == 0));
}

#[test]
fn test_corner_mask_dimensions() {
    let mask = generate_corner_mask(1690, 950, 16);
    assert_eq!(mask.width(), 1690);
    assert_eq!(mask.height(), 950);
}

#[test]
fn test_corner_mask_center_white() {
    let mask = generate_corner_mask(200, 200, 16);
    let pixel = mask.get_pixel(100, 100);
    assert_eq!(pixel, 255, "Center should be white");
}

#[test]
fn test_corner_mask_corner_dark() {
    let mask = generate_corner_mask(200, 200, 16);
    // Top-left corner pixel should be dark (outside rounded rect)
    let pixel = mask.get_pixel(0, 0);
    assert!(pixel < 50, "Corner pixel should be dark, got {}", pixel);
}

#[test]
fn test_corner_mask_zero_radius() {
    let mask = generate_corner_mask(100, 100, 0);
    // All pixels should be white
    let pixel = mask.get_pixel(0, 0);
    assert_eq!(pixel, 255, "Zero radius should produce all-white mask");
}

#[test]
fn mask_and_frame_make_up_the_pixel() {
    let frame = generate_corner_frame(100, 100, 0, 0, 100, 100, "#ffffff", 16).unwrap();
    let mask = generate_corner_mask(100, 100, 16);
    assert_eq!(frame.get_pixel(0, 15).a, 133);
    assert_eq!(mask.get_pixel(0, 15), 122);
    for y in 0..16 {
        for x in 0..16 {
            let sum = frame.get_pixel(x, y).a as u32 + mask.get_pixel(x, y) as u32;
            assert_eq!(sum, 255, "at {x}, {y}");
        }
    }
}

#[test]
fn a_pixel_on_the_arc_is_split_in_halves() {
    // With a radius of 5, (2, 1) is 3 across and 4 down from the centre of its arc.
    let frame = generate_corner_frame(100, 100, 20, 20, 60, 60, "#ffffff", 5).unwrap();
    let mask = generate_corner_mask(60, 60, 5);
    assert_eq!(frame.get_pixel(22, 21).a, 128);
    assert_eq!(mask.get_pixel(2, 1), 128);
}

#[test]
fn the_feather_is_a_pixel_and_a_half_wide() {
    let mask = generate_corner_mask(100, 100, 20);
    for y in 0..20 {
        for x in 0..20 {
            let distance = ((20.0 - x as f64).powi(2) + (20.0 - y as f64).powi(2)).sqrt();
            let value = mask.get_pixel(x, y);
            assert_eq!(value == 0, distance >= 20.747, "{value} at {distance}");
            assert_eq!(value == 255, distance <= 19.253, "{value} at {distance}");
        }
    }
}

#[test]
fn a_radius_is_held_to_half_the_recording() {
    let held = generate_corner_mask(20, 12, 150);
    let fitting = generate_corner_mask(20, 12, 6);
    assert_eq!(held.data, fitting.data);
}
