use kineto::assets::generate_corner_frame;
use kineto::compose::{
    blurs, composite_frame, copy_crop, copy_plane, copy_rows, finish_frame, strip_stride, Movement,
    Plane, Rows,
};
use kineto::export::CompositionLayout;
use kineto::scalar::Scalar;
use kineto::yuv::rgba_to_yuv420p;

fn scalar(value: f64) -> Scalar {
    Scalar::from_bits(value.to_bits())
}

fn layout() -> CompositionLayout {
    CompositionLayout::from_input(8, 6, scalar(0.2), 2, 1)
}

#[test]
fn rows_move_between_strides() {
    let src: Vec<u8> = (0..20).collect();
    let mut dst = vec![255u8; 12];
    copy_rows(
        &src,
        Rows { start: 1, stride: 10 },
        &mut dst,
        Rows { start: 2, stride: 5 },
        3,
        2,
    );
    assert_eq!(dst, vec![255, 255, 1, 2, 3, 255, 255, 11, 12, 13, 255, 255]);
}

#[test]
fn rows_copied_on_arrive_as_they_were() {
    let src: Vec<u8> = (0..24).collect();
    let (wide, tight) = (Rows { start: 0, stride: 8 }, Rows { start: 3, stride: 5 });
    let mut other = vec![0u8; 20];
    let mut third = vec![99u8; 24];
    copy_rows(&src, wide, &mut other, tight, 5, 3);
    copy_rows(&other, tight, &mut third, wide, 5, 3);
    for row in 0..3 {
        assert_eq!(third[8 * row..8 * row + 5], src[8 * row..8 * row + 5]);
        assert_eq!(third[8 * row + 5..8 * row + 8], [99, 99, 99]);
    }
}

#[test]
fn padding_is_stripped() {
    let padded = vec![1, 2, 3, 0, 0, 4, 5, 6, 0, 0, 7, 8, 9];
    assert_eq!(strip_stride(&padded, 5, 3, 3), vec![1, 2, 3, 4, 5, 6, 7, 8, 9]);
    assert!(strip_stride(&padded, 5, 3, 0).is_empty());
}

#[test]
fn a_frame_shows_canvas_recording_and_corners() {
    let layout = layout();
    assert_eq!((layout.video_w, layout.video_h), (4, 4));
    let canvas = [1u8, 2, 3, 255].repeat(48);
    let video = [50u8, 60, 70, 255].repeat(16);
    let corner = generate_corner_frame(8, 6, 2, 1, 4, 4, "#ff0000", 2).unwrap();
    let mut out = vec![0u8; 8 * 6 * 4];
    composite_frame(&canvas, &video, &corner.data, layout, &mut out);
    let pixel = |x: usize, y: usize| [out[4 * (8 * y + x)], out[4 * (8 * y + x) + 1], out[4 * (8 * y + x) + 2], out[4 * (8 * y + x) + 3]];
    // Around the recording.
    assert_eq!(pixel(0, 0), [1, 2, 3, 255]);
    assert_eq!(pixel(1, 3), [1, 2, 3, 255]);
    assert_eq!(pixel(6, 3), [1, 2, 3, 255]);
    assert_eq!(pixel(3, 5), [1, 2, 3, 255]);
    // In the middle of the recording.
    assert_eq!(pixel(4, 3), [50, 60, 70, 255]);
    // The corner of a radius of 2 is cut off at a distance of 2.83.
    assert_eq!(corner.get_pixel(2, 1).a, 255);
    assert_eq!(pixel(2, 1), [255, 0, 0, 255]);
    // At a distance of 2.24 it is feathered: 170 * 2.236 - 340 + 128 is 168.
    assert_eq!(corner.get_pixel(2, 2).a, 168);
    assert_eq!(pixel(2, 2), [(255 * 168 + 50 * 87) as u32 / 255, 60 * 87 / 255, 70 * 87 / 255, 255].map(|v| v as u8));
}

#[test]
fn a_frame_without_a_recording_is_the_canvas() {
    let layout = CompositionLayout::from_input(4, 2, scalar(0.5), 2, 1);
    assert_eq!((layout.video_w, layout.video_h), (0, 0));
    let canvas: Vec<u8> = (0..32).collect();
    let mut out = vec![0u8; 32];
    composite_frame(&canvas, &[], &vec![0u8; 32], layout, &mut out);
    assert_eq!(out, canvas);
}

#[test]
fn a_crop_is_cut_out_row_by_row() {
    let frame: Vec<u8> = (0..4 * 3 * 4).collect();
    let mut dst = vec![255u8; 20];
    copy_crop(&frame, 4, 3, (1, 1, 2, 2), &mut dst, 10);
    assert_eq!(dst[..8], frame[20..28]);
    assert_eq!(dst[8..10], [255, 255]);
    assert_eq!(dst[10..18], frame[36..44]);
    assert_eq!(dst[18..], [255, 255]);
}

#[test]
fn an_empty_crop_copies_nothing() {
    let frame = vec![1u8; 4 * 3 * 4];
    let mut dst = vec![9u8; 4];
    copy_crop(&frame, 4, 3, (4, 3, 0, 0), &mut dst, 0);
    assert_eq!(dst, vec![9; 4]);
}

#[test]
fn planes_are_copied_out() {
    let planes: Vec<u8> = (0..4 * 4 * 3 / 2).collect();
    let mut y = vec![255u8; 4 * 6];
    copy_plane(&planes, Plane::Y, 4, 4, &mut y, 6);
    assert_eq!(y[6..12], [4, 5, 6, 7, 255, 255]);
    let mut u = vec![255u8; 5];
    copy_plane(&planes, Plane::U, 4, 4, &mut u, 3);
    assert_eq!(u, vec![16, 17, 255, 18, 19]);
    let mut v = vec![255u8; 4];
    copy_plane(&planes, Plane::V, 4, 4, &mut v, 2);
    assert_eq!(v, vec![20, 21, 22, 23]);
}

#[test]
fn a_frame_is_blurred_by_half_a_pixel_or_more() {
    let movement = |blur_px: f64| Some(Movement { speed: scalar(100.0), blur_px: scalar(blur_px) });
    assert!(blurs(scalar(0.5), movement(0.5)));
    assert!(!blurs(scalar(0.5), movement(0.49)));
    assert!(!blurs(scalar(0.0), movement(5.0)));
    assert!(!blurs(scalar(0.5), None));
    assert!(!blurs(scalar(0.5), movement(f64::NAN)));
}

#[test]
fn a_still_frame_is_converted_as_it_is() {
    let frame = [200u8, 30, 10, 255].repeat(4 * 2);
    let mut scratch = vec![7u8; 32];
    let mut out = vec![0u8; 12];
    finish_frame(&frame, &mut scratch, 4, 2, scalar(0.5), None, &[], &mut out);
    let mut expected = vec![0u8; 12];
    rgba_to_yuv420p(&frame, 4, 2, &mut expected);
    assert_eq!(out, expected);
    assert!(scratch.iter().all(|&byte| byte == 7));
}

#[test]
fn a_moving_frame_is_blurred_first() {
    let mut frame = vec![0u8; 4 * 2 * 4];
    frame[..16].fill(255);
    let mut scratch = vec![0u8; 32];
    let mut out = vec![0u8; 12];
    let movement = Movement { speed: scalar(900.0), blur_px: scalar(3.0) };
    // Every tap reads the row above, so both rows become white.
    finish_frame(&frame, &mut scratch, 4, 2, scalar(1.0), Some(movement), &[(0, -1); 7], &mut out);
    assert!(scratch.iter().all(|&byte| byte == 255));
    assert_eq!(out, vec![235, 235, 235, 235, 235, 235, 235, 235, 128, 128, 128, 128]);
}
