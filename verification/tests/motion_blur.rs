use kineto::motion_blur::{apply, compute_blur_radius, tap_count, BlurRule};
use kineto::scalar::Scalar;

fn scalar(value: f64) -> Scalar {
    Scalar::from_bits(value.to_bits())
}

/// The radius that a blur has in pixels.
fn radius(speed: f64, slider: f64) -> f64 {
    match compute_blur_radius(scalar(speed), scalar(slider)) {
        BlurRule::Still => 0.0,
        BlurRule::Quadratic => {
            let normalized = ((speed - 12.0) / 1400.0).min(1.0);
            let a = slider.clamp(0.0, 1.0);
            normalized * normalized * 14.0 * (a * (1.0 + 1.2 * a))
        },
    }
}

/// Blurs along a movement given as doubles.
fn blur(src: &[u8], dst: &mut [u8], w: u32, h: u32, vx: f64, vy: f64, blur_px: f64) {
    let speed = (vx * vx + vy * vy).sqrt();
    let mut deltas = Vec::new();
    if let Some(taps) = tap_count(scalar(blur_px), scalar(speed)) {
        for t in 0..taps {
            let offset = (t as f64 - taps as f64 / 2.0) * (blur_px / taps as f64);
            deltas.push((
                (vx / speed * offset).round() as i32,
                (vy / speed * offset).round() as i32,
            ));
        }
    }
    apply(src, dst, w, h, scalar(blur_px), scalar(speed), &deltas);
}

#[test]
fn test_zero_velocity_no_blur() {
    assert!(radius(0.0, 0.5) < 0.01);
}

#[test]
fn test_deadzone() {
    assert!(radius(10.0, 1.0) < 0.01);
}

#[test]
fn test_blur_increases_with_speed() {
    let low = radius(100.0, 0.5);
    let high = radius(800.0, 0.5);
    assert!(high > low, "Higher speed should produce more blur");
}

#[test]
fn test_blur_capped() {
    let max = radius(2000.0, 1.0);
    assert!(max <= 14.0 * 2.5, "Blur should be bounded, got {}", max);
}

#[test]
fn the_dead_zone_ends_at_its_edge() {
    assert_eq!(compute_blur_radius(scalar(11.9), scalar(1.0)), BlurRule::Still);
    assert_eq!(compute_blur_radius(scalar(12.0), scalar(1.0)), BlurRule::Quadratic);
    assert_eq!(compute_blur_radius(scalar(500.0), scalar(0.0)), BlurRule::Still);
    assert_eq!(compute_blur_radius(scalar(500.0), scalar(-1.0)), BlurRule::Still);
}

#[test]
fn test_apply_no_crash() {
    let src = vec![128u8; 16 * 16 * 4];
    let mut dst = vec![0u8; 16 * 16 * 4];
    blur(&src, &mut dst, 16, 16, 100.0, 0.0, 5.0);
    // Output should be non-zero and within u8 range
    assert!(dst.iter().any(|&v| v > 0));
}

#[test]
fn test_apply_separate_buffers() {
    // Verify src is not modified and dst receives blurred output
    let src = vec![200u8; 32 * 32 * 4];
    let mut dst = vec![0u8; 32 * 32 * 4];
    blur(&src, &mut dst, 32, 32, 50.0, 30.0, 6.0);
    assert!(src.iter().all(|&v| v == 200), "src must not be modified");
    assert!(dst.iter().any(|&v| v > 0), "dst must be written");
}

#[test]
fn longer_blurs_take_more_taps() {
    let taps = |blur_px: f64| tap_count(scalar(blur_px), scalar(100.0));
    assert_eq!(taps(0.49), None);
    assert_eq!(taps(0.5), Some(7));
    assert_eq!(taps(4.0), Some(11));
    assert_eq!(taps(8.0), Some(15));
    assert_eq!(tap_count(scalar(8.0), scalar(0.0009)), None);
}

#[test]
fn a_slight_blur_leaves_the_target_alone() {
    let src = vec![200u8; 4 * 4 * 4];
    let mut dst = vec![9u8; 4 * 4 * 4];
    blur(&src, &mut dst, 4, 4, 100.0, 0.0, 0.4);
    assert!(dst.iter().all(|&v| v == 9));
}

#[test]
fn a_blurred_pixel_is_the_rounded_mean_of_its_taps() {
    // One row of three pixels, and taps that reach one pixel to either side.
    let src = vec![0, 0, 0, 255, 70, 10, 0, 255, 210, 0, 30, 255];
    let mut dst = vec![0u8; 13];
    dst[12] = 77;
    let deltas = [(-1, 0), (-1, 0), (-1, 0), (0, 0), (1, 0), (1, 0), (1, 0)];
    apply(&src, &mut dst, 3, 1, scalar(3.0), scalar(100.0), &deltas);
    assert_eq!(dst[..4], [30, 4, 0, 255]);
    // (3 * 0 + 70 + 3 * 210 + 3) / 7 is 100, (10 + 3) / 7 is 1, (90 + 3) / 7 is 13.
    assert_eq!(dst[4..8], [100, 1, 13, 255]);
    // (3 * 70 + 4 * 210 + 3) / 7 is 150.
    assert_eq!(dst[8..12], [150, 4, 17, 255]);
    assert_eq!(dst[12], 77);
}

#[test]
fn an_even_picture_stays_as_it_is() {
    let src = [11u8, 22, 33, 44].repeat(8 * 6);
    let mut dst = vec![0u8; src.len()];
    blur(&src, &mut dst, 8, 6, -70.0, 20.0, 9.0);
    assert_eq!(dst, src);
}
