use kineto::yuv::{chroma_row, luma_row, rgba_to_yuv420p};

#[test]
fn test_black() {
    let rgba = vec![0u8; 4 * 4 * 4];
    let mut out = vec![0u8; 4 * 4 * 3 / 2];
    rgba_to_yuv420p(&rgba, 4, 4, &mut out);
    assert_eq!(out[0], 16, "Y for black");
    assert_eq!(out[16], 128, "U for black");
    assert_eq!(out[20], 128, "V for black");
}

#[test]
fn test_white() {
    let rgba = vec![255u8; 4 * 4 * 4];
    let mut out = vec![0u8; 4 * 4 * 3 / 2];
    rgba_to_yuv420p(&rgba, 4, 4, &mut out);
    // Y = (66*255+129*255+25*255+128)>>8+16 = (56100+128)>>8+16 = 219+16 = 235
    assert_eq!(out[0], 235, "Y for white");
}

#[test]
fn test_size_contract() {
    let w = 8;
    let h = 8;
    let rgba = vec![128u8; w * h * 4];
    let mut out = vec![0u8; w * h * 3 / 2];
    rgba_to_yuv420p(&rgba, w, h, &mut out); // must not panic
}

#[test]
fn red_is_converted_exactly() {
    let rgba: Vec<u8> = [255u8, 0, 0, 255].repeat(4 * 2);
    let mut out = vec![0u8; 4 * 2 * 3 / 2 + 1];
    rgba_to_yuv420p(&rgba, 4, 2, &mut out);
    assert_eq!(out, vec![82, 82, 82, 82, 82, 82, 82, 82, 90, 90, 240, 240, 0]);
}

#[test]
fn grey_has_no_colour() {
    for grey in [0u8, 1, 77, 128, 254, 255] {
        let rgba = vec![grey; 2 * 2 * 4];
        let mut out = vec![0u8; 6];
        rgba_to_yuv420p(&rgba, 2, 2, &mut out);
        assert_eq!(out[4..], [128, 128]);
        assert!((16..=235).contains(&out[0]));
    }
}

#[test]
fn chroma_is_the_mean_of_a_block() {
    // Left block: blue and black pixels in halves; right block: white.
    let mut rgba = vec![255u8; 4 * 2 * 4];
    for (p, pixel) in [(0, [0, 0, 255]), (1, [0, 0, 0]), (4, [0, 0, 255]), (5, [0, 0, 0])] {
        rgba[4 * p..4 * p + 3].copy_from_slice(&pixel);
    }
    let mut out = vec![0u8; 12];
    rgba_to_yuv420p(&rgba, 4, 2, &mut out);
    assert_eq!(out[..4], [41, 16, 235, 235]);
    // The mean blue is 127: (112 * 127 + 128) / 256 is 56, (-18 * 127 + 128) / 256 is -9.
    assert_eq!(out[8..], [184, 128, 119, 128]);
}

#[test]
fn rows_are_converted_one_by_one() {
    let mut rgba = vec![0u8; 2 * 2 * 4];
    rgba[8..].fill(255);
    let mut row = vec![0u8; 2];
    luma_row(&rgba, 2, 1, &mut row);
    assert_eq!(row, vec![235, 235]);
    let (mut u, mut v) = (vec![0u8; 1], vec![0u8; 1]);
    chroma_row(&rgba, 2, 0, &mut u, &mut v);
    assert_eq!((u[0], v[0]), (128, 128));
}
