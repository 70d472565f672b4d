//! RGBA to YUV420P, in parallel over rows.
//!
//! BT.601 limited range: Y from 16 to 235, U and V from 16 to 240.
use crate::raster;
use crate::raster::Rgba;
use rayon::iter::{IndexedParallelIterator, ParallelIterator};
use rayon::slice::ParallelSliceMut;
use vstd::prelude::*;

verus! {

/// The brightness of a pixel.
pub open spec fn luma(pixel: Rgba) -> int {
    (66 * pixel.r + 129 * pixel.g + 25 * pixel.b + 128) / 256 + 16
}

/// The blue difference of a colour.
pub open spec fn blue_difference(r: int, g: int, b: int) -> int {
    (-38 * r - 74 * g + 112 * b + 128) / 256 + 128
}

/// The red difference of a colour.
pub open spec fn red_difference(r: int, g: int, b: int) -> int {
    (112 * r - 94 * g - 18 * b + 128) / 256 + 128
}

/// The mean of a channel over the two by two pixels with the given index in the half-sized
/// chroma planes, rounded down.
pub open spec fn block_mean(rgba: Seq<u8>, w: int, cx: int, cy: int, c: int) -> int {
    let top = 4 * ((2 * cy) * w + 2 * cx) + c;
    let bottom = 4 * ((2 * cy + 1) * w + 2 * cx) + c;
    (rgba[top] + rgba[top + 4] + rgba[bottom] + rgba[bottom + 4]) / 4
}

/// The blue difference of a block of pixels.
pub open spec fn block_u(rgba: Seq<u8>, w: int, cx: int, cy: int) -> int {
    blue_difference(
        block_mean(rgba, w, cx, cy, 0),
        block_mean(rgba, w, cx, cy, 1),
        block_mean(rgba, w, cx, cy, 2),
    )
}

/// The red difference of a block of pixels.
pub open spec fn block_v(rgba: Seq<u8>, w: int, cx: int, cy: int) -> int {
    red_difference(
        block_mean(rgba, w, cx, cy, 0),
        block_mean(rgba, w, cx, cy, 1),
        block_mean(rgba, w, cx, cy, 2),
    )
}

/// Whether bytes start with the planes of packed RGBA: Y, one byte a pixel, and after it U
/// and V, one byte for every two by two pixels each.
pub open spec fn is_yuv420p(rgba: Seq<u8>, w: int, h: int, planes: Seq<u8>) -> bool {
    let (y_size, uv_size) = (w * h, (w / 2) * (h / 2));
    &&& planes.len() >= y_size + 2 * uv_size
    &&& forall|p: int| 0 <= p < y_size ==> #[trigger] planes[p] == luma(raster::rgba_at(rgba, p))
    &&& forall|p: int|
        0 <= p < uv_size ==> #[trigger] planes[y_size + p] == block_u(
            rgba,
            w,
            p % (w / 2),
            p / (w / 2),
        )
    &&& forall|p: int|
        0 <= p < uv_size ==> #[trigger] planes[y_size + uv_size + p] == block_v(
            rgba,
            w,
            p % (w / 2),
            p / (w / 2),
        )
}

/// A row of the Y plane.
pub open spec fn y_row(rgba: Seq<u8>, w: int, row: int) -> Seq<u8> {
    Seq::new(w as nat, |x: int| luma(raster::rgba_at(rgba, row * w + x)) as u8)
}

/// A row of the U plane.
pub open spec fn u_row(rgba: Seq<u8>, w: int, row: int) -> Seq<u8> {
    Seq::new((w / 2) as nat, |cx: int| block_u(rgba, w, cx, row) as u8)
}

/// A row of the V plane.
pub open spec fn v_row(rgba: Seq<u8>, w: int, row: int) -> Seq<u8> {
    Seq::new((w / 2) as nat, |cx: int| block_v(rgba, w, cx, row) as u8)
}

/// The row of a plane with the given index.
pub open spec fn row_of(plane: Seq<u8>, length: int, row: int) -> Seq<u8> {
    plane.subrange(row * length, row * length + length)
}

/// Brightness keeps to the limited range.
pub proof fn law_luma_range(pixel: Rgba)
    ensures
        16 <= luma(pixel) <= 235,
{
}

/// Colour differences keep to the limited range.
pub proof fn law_chroma_range(r: int, g: int, b: int)
    requires
        0 <= r <= 255,
        0 <= g <= 255,
        0 <= b <= 255,
    ensures
        16 <= blue_difference(r, g, b) <= 240,
        16 <= red_difference(r, g, b) <= 240,
{
}

/// A grey has no colour difference.
pub proof fn law_grey_is_neutral(grey: int)
    ensures
        blue_difference(grey, grey, grey) == 128,
        red_difference(grey, grey, grey) == 128,
{
}

/// Fills one row of the Y plane.
pub fn luma_row(rgba: &[u8], w: usize, row: usize, out: &mut [u8])
    requires
        old(out)@.len() == w,
        4 * (row * w + w) <= rgba@.len(),
    ensures
        final(out)@ == y_row(rgba@, w as int, row as int),
{
    proof {
        assert(rgba@.len() == rgba.len());
        assert(0 <= row * w) by (nonlinear_arith);
    }
    let base: usize = row * w;
    let mut x: usize = 0;
    while x < w
        invariant
            x <= w,
            base == row * w,
            out@.len() == w,
            4 * (base + w) <= rgba@.len() <= usize::MAX,
            forall|i: int| 0 <= i < x ==> #[trigger] out@[i] == y_row(rgba@, w as int, row as int)[i],
        decreases w - x,
    {
        let s: usize = 4 * (base + x);
        let r: u32 = rgba[s] as u32;
        let g: u32 = rgba[s + 1] as u32;
        let b: u32 = rgba[s + 2] as u32;
        out[x] = ((66 * r + 129 * g + 25 * b + 128) / 256 + 16) as u8;
        x += 1;
    }
    assert(out@ =~= y_row(rgba@, w as int, row as int));
}

/// The mean of a channel over a block of pixels.
fn mean(rgba: &[u8], top: usize, bottom: usize) -> (mean: i32)
    requires
        top + 4 < rgba@.len(),
        bottom + 4 < rgba@.len(),
    ensures
        mean == (rgba@[top as int] + rgba@[top + 4] + rgba@[bottom as int] + rgba@[bottom + 4]) / 4,
        0 <= mean <= 255,
{
    assert(rgba@.len() == rgba.len());
    (rgba[top] as i32 + rgba[top + 4] as i32 + rgba[bottom] as i32 + rgba[bottom + 4] as i32) / 4
}

/// Fills one row of the U plane and one of the V plane.
pub fn chroma_row(rgba: &[u8], w: usize, row: usize, u_out: &mut [u8], v_out: &mut [u8])
    requires
        old(u_out)@.len() == w / 2,
        old(v_out)@.len() == w / 2,
        4 * ((2 * row + 1) * w + w) <= rgba@.len(),
    ensures
        final(u_out)@ == u_row(rgba@, w as int, row as int),
        final(v_out)@ == v_row(rgba@, w as int, row as int),
{
    if w < 2 {
        assert(u_out@ =~= u_row(rgba@, w as int, row as int));
        assert(v_out@ =~= v_row(rgba@, w as int, row as int));
        return ;
    }
    proof {
        assert(rgba@.len() == rgba.len());
        assert(2 * row + 1 <= (2 * row + 1) * w) by (nonlinear_arith)
            requires
                w >= 1,
        ;
        assert((2 * row + 1) * w == (2 * row) * w + w) by (nonlinear_arith);
        assert(0 <= (2 * row) * w) by (nonlinear_arith);
    }
    let base0: usize = (2 * row) * w;
    let base1: usize = base0 + w;
    let mut cx: usize = 0;
    while cx < w / 2
        invariant
            cx <= w / 2,
            base0 == (2 * row) * w,
            base1 == (2 * row + 1) * w,
            base1 == base0 + w,
            u_out@.len() == w / 2,
            v_out@.len() == w / 2,
            4 * (base1 + w) <= rgba@.len() <= usize::MAX,
            forall|i: int|
                0 <= i < cx ==> #[trigger] u_out@[i] == u_row(rgba@, w as int, row as int)[i],
            forall|i: int|
                0 <= i < cx ==> #[trigger] v_out@[i] == v_row(rgba@, w as int, row as int)[i],
        decreases w / 2 - cx,
    {
        let top: usize = 4 * (base0 + 2 * cx);
        let bottom: usize = 4 * (base1 + 2 * cx);
        let r: i32 = mean(rgba, top, bottom);
        let g: i32 = mean(rgba, top + 1, bottom + 1);
        let b: i32 = mean(rgba, top + 2, bottom + 2);
        proof {
            assert(r == block_mean(rgba@, w as int, cx as int, row as int, 0));
            assert(g == block_mean(rgba@, w as int, cx as int, row as int, 1));
            assert(b == block_mean(rgba@, w as int, cx as int, row as int, 2));
        }
        // 32768 lifts the sum above zero and is 128 after the division.
        u_out[cx] = ((32768 + 112 * b - 38 * r - 74 * g + 128) / 256) as u8;
        v_out[cx] = ((32768 + 112 * r - 94 * g - 18 * b + 128) / 256) as u8;
        cx += 1;
    }
    assert(u_out@ =~= u_row(rgba@, w as int, row as int));
    assert(v_out@ =~= v_row(rgba@, w as int, row as int));
}

/// `par_chunks_mut`, `enumerate` and `for_each` of `rayon`: `luma_row` on every row of a
/// plane.
///
/// Trusted: every chunk of `w` bytes is handed to the closure once, with its index, and
/// when the call returns each holds what the closure left in it.
#[verifier::external_body]
fn luma_rows(rgba: &[u8], w: usize, plane: &mut [u8])
    requires
        w > 0,
        old(plane)@.len() % (w as nat) == 0,
        4 * old(plane)@.len() <= rgba@.len(),
    ensures
        final(plane)@.len() == old(plane)@.len(),
        forall|row: int|
            0 <= row < old(plane)@.len() / (w as nat) ==> #[trigger] row_of(
                final(plane)@,
                w as int,
                row,
            ) == y_row(rgba@, w as int, row),
{
    plane.par_chunks_mut(w).enumerate().for_each(|(row, out)| luma_row(rgba, w, row, out));
}

/// `par_chunks_mut`, `zip`, `enumerate` and `for_each` of `rayon`: `chroma_row` on every
/// pair of rows of two planes.
///
/// Trusted: every chunk of `w / 2` bytes of the one plane is handed to the closure once,
/// together with the chunk of the other plane at the same place and their index, and when
/// the call returns each holds what the closure left in it.
#[verifier::external_body]
fn chroma_rows(rgba: &[u8], w: usize, u_plane: &mut [u8], v_plane: &mut [u8])
    requires
        w / 2 > 0,
        old(u_plane)@.len() % ((w / 2) as nat) == 0,
        old(v_plane)@.len() == old(u_plane)@.len(),
        4 * ((2 * (old(u_plane)@.len() / ((w / 2) as nat))) * w) <= rgba@.len(),
    ensures
        final(u_plane)@.len() == old(u_plane)@.len(),
        final(v_plane)@.len() == old(v_plane)@.len(),
        forall|row: int|
            0 <= row < old(u_plane)@.len() / ((w / 2) as nat) ==> #[trigger] row_of(
                final(u_plane)@,
                (w / 2) as int,
                row,
            ) == u_row(rgba@, w as int, row),
        forall|row: int|
            0 <= row < old(u_plane)@.len() / ((w / 2) as nat) ==> #[trigger] row_of(
                final(v_plane)@,
                (w / 2) as int,
                row,
            ) == v_row(rgba@, w as int, row),
{
    u_plane.par_chunks_mut(w / 2).zip(v_plane.par_chunks_mut(w / 2)).enumerate().for_each(
        |(row, (u_out, v_out))| chroma_row(rgba, w, row, u_out, v_out),
    );
}

/// A byte of a plane is the byte of its row.
proof fn lemma_byte_of_row(plane: Seq<u8>, length: int, rows: int, p: int)
    requires
        plane.len() == length * rows,
        0 <= p < plane.len(),
        0 < length,
        0 <= rows,
    ensures
        0 <= p / length < rows,
        0 <= p % length < length,
        p == (p / length) * length + p % length,
        plane[p] == row_of(plane, length, p / length)[p % length],
{
    raster::lemma_coordinates(p, length, rows);
    raster::lemma_index(p % length, p / length, length, rows);
}

/// A plane of whole rows has that many rows.
proof fn lemma_row_count(length: nat, rows: nat)
    requires
        0 < length,
    ensures
        (length * rows) % length == 0,
        (length * rows) / length == rows,
{
    assert(length * rows == rows * length) by (nonlinear_arith);
    vstd::arithmetic::div_mod::lemma_fundamental_div_mod_converse(
        (length * rows) as int,
        length as int,
        rows as int,
        0,
    );
}

/// Converts packed RGBA to YUV420P.
///
/// `out` takes the Y plane, one byte a pixel, and after it the U and the V plane, one byte
/// for every two by two pixels each.
pub fn rgba_to_yuv420p(rgba: &[u8], w: usize, h: usize, out: &mut [u8])
    requires
        w > 0,
        w % 2 == 0,
        h % 2 == 0,
        rgba@.len() >= 4 * (w * h),
        old(out)@.len() >= w * h + 2 * ((w / 2) * (h / 2)),
    ensures
        final(out)@.len() == old(out)@.len(),
        is_yuv420p(rgba@, w as int, h as int, final(out)@),
        forall|p: int|
            w * h + 2 * ((w / 2) * (h / 2)) <= p < old(out)@.len() ==> #[trigger] final(out)@[p]
                == old(out)@[p],
{
    proof {
        assert(rgba@.len() == rgba.len());
        assert(out@.len() == out.len());
        assert(0 <= w * h && 0 <= (w / 2) * (h / 2)) by (nonlinear_arith);
        lemma_row_count(w as nat, h as nat);
        lemma_row_count((w / 2) as nat, (h / 2) as nat);
        assert((2 * (h / 2)) * w == w * h) by (nonlinear_arith)
            requires
                h % 2 == 0,
        ;
    }
    let y_size: usize = w * h;
    let uv_size: usize = (w / 2) * (h / 2);
    let (y_plane, chroma) = out.split_at_mut(y_size);
    let (u_plane, rest) = chroma.split_at_mut(uv_size);
    let (v_plane, _unused) = rest.split_at_mut(uv_size);
    luma_rows(rgba, w, y_plane);
    chroma_rows(rgba, w, u_plane, v_plane);
    proof {
        let (ys, us, vs) = (y_plane@, u_plane@, v_plane@);
        assert forall|p: int| 0 <= p < w * h implies #[trigger] ys[p] == luma(
            raster::rgba_at(rgba@, p),
        ) by {
            lemma_byte_of_row(ys, w as int, h as int, p);
            assert(row_of(ys, w as int, p / w as int) == y_row(rgba@, w as int, p / w as int));
            law_luma_range(raster::rgba_at(rgba@, p));
        }
        assert forall|p: int| 0 <= p < (w / 2) * (h / 2) implies #[trigger] us[p] == block_u(
            rgba@,
            w as int,
            p % (w / 2) as int,
            p / (w / 2) as int,
        ) by {
            lemma_byte_of_row(us, (w / 2) as int, (h / 2) as int, p);
            let row = p / (w / 2) as int;
            assert(row_of(us, (w / 2) as int, row) == u_row(rgba@, w as int, row));
        }
        assert forall|p: int| 0 <= p < (w / 2) * (h / 2) implies #[trigger] vs[p] == block_v(
            rgba@,
            w as int,
            p % (w / 2) as int,
            p / (w / 2) as int,
        ) by {
            lemma_byte_of_row(vs, (w / 2) as int, (h / 2) as int, p);
            let row = p / (w / 2) as int;
            assert(row_of(vs, (w / 2) as int, row) == v_row(rgba@, w as int, row));
        }
    }
}

/// The brightness of a pixel is a weighted sum of its colours, in 256ths and rounded, above
/// 16.
pub proof fn law_luma_is_a_weighted_sum(pixel: Rgba)
    ensures
        -128 <= 66 * pixel.r + 129 * pixel.g + 25 * pixel.b - 256 * (luma(pixel) - 16) < 128,
{
}

/// Both colour differences are weighted sums, in 256ths and rounded, around 128.
pub proof fn law_differences_are_weighted_sums(r: int, g: int, b: int)
    ensures
        -128 <= 112 * b - 38 * r - 74 * g - 256 * (blue_difference(r, g, b) - 128) < 128,
        -128 <= 112 * r - 94 * g - 18 * b - 256 * (red_difference(r, g, b) - 128) < 128,
{
}

/// The mean of a block is that of its four pixels: those in two neighbouring columns of two
/// neighbouring rows, counted in pairs from the first.
pub proof fn law_block_is_two_by_two(rgba: Seq<u8>, w: int, cx: int, cy: int, c: int)
    ensures
        ({
            let (x, y) = (2 * cx, 2 * cy);
            let sum = rgba[4 * (y * w + x) + c] + rgba[4 * (y * w + x + 1) + c] + rgba[4 * ((y + 1)
                * w + x) + c] + rgba[4 * ((y + 1) * w + x + 1) + c];
            0 <= sum - 4 * block_mean(rgba, w, cx, cy, c) < 4
        }),
{
    assert(4 * (2 * cy * w + 2 * cx + 1) + c == 4 * ((2 * cy) * w + 2 * cx) + c + 4);
    assert(4 * ((2 * cy + 1) * w + 2 * cx + 1) + c == 4 * ((2 * cy + 1) * w + 2 * cx) + c + 4);
}

/// A block of one colour has the differences of that colour, whatever is around it.
pub proof fn law_block_of_one_color(
    rgba: Seq<u8>,
    w: int,
    cx: int,
    cy: int,
    r: u8,
    g: u8,
    b: u8,
)
    requires
        forall|x: int, y: int|
            #![trigger raster::rgba_at(rgba, y * w + x)]
            2 * cx <= x <= 2 * cx + 1 && 2 * cy <= y <= 2 * cy + 1 ==> {
                &&& raster::rgba_at(rgba, y * w + x).r == r
                &&& raster::rgba_at(rgba, y * w + x).g == g
                &&& raster::rgba_at(rgba, y * w + x).b == b
            },
    ensures
        block_u(rgba, w, cx, cy) == blue_difference(r as int, g as int, b as int),
        block_v(rgba, w, cx, cy) == red_difference(r as int, g as int, b as int),
{
    let (x, y) = (2 * cx, 2 * cy);
    let a = raster::rgba_at(rgba, y * w + x);
    let b2 = raster::rgba_at(rgba, y * w + (x + 1));
    let c = raster::rgba_at(rgba, (y + 1) * w + x);
    let d = raster::rgba_at(rgba, (y + 1) * w + (x + 1));
    assert(a.r == r && b2.r == r && c.r == r && d.r == r);
    law_block_is_two_by_two(rgba, w, cx, cy, 0);
    law_block_is_two_by_two(rgba, w, cx, cy, 1);
    law_block_is_two_by_two(rgba, w, cx, cy, 2);
}

/// Where the pixels of a frame come out: the brightness of each in its own place of the Y
/// plane, and the colour of a block of one colour in its place of the U and the V plane, each
/// within half a unit of the weighted sum.
pub proof fn law_planes_hold_the_picture(
    rgba: Seq<u8>,
    w: int,
    h: int,
    planes: Seq<u8>,
    x: int,
    y: int,
)
    requires
        is_yuv420p(rgba, w, h, planes),
        w % 2 == 0,
        h % 2 == 0,
        0 <= x < w,
        0 <= y < h,
    ensures
        ({
            let pixel = 4 * (y * w + x);
            let (r, g, b) = (rgba[pixel], rgba[pixel + 1], rgba[pixel + 2]);
            let brightness = planes[y * w + x];
            -128 <= 66 * r + 129 * g + 25 * b - 256 * (brightness - 16) < 128
        }),
        ({
            let block = (y / 2) * (w / 2) + x / 2;
            &&& planes[w * h + block] == block_u(rgba, w, x / 2, y / 2)
            &&& planes[w * h + (w / 2) * (h / 2) + block] == block_v(rgba, w, x / 2, y / 2)
        }),
{
    raster::lemma_index(x, y, w, h);
    raster::lemma_index(x / 2, y / 2, w / 2, h / 2);
    law_luma_is_a_weighted_sum(raster::rgba_at(rgba, y * w + x));
    let block = (y / 2) * (w / 2) + x / 2;
    assert(planes[w * h + block] == block_u(rgba, w, block % (w / 2), block / (w / 2)));
    assert(planes[w * h + (w / 2) * (h / 2) + block] == block_v(
        rgba,
        w,
        block % (w / 2),
        block / (w / 2),
    ));
}

} // verus!
