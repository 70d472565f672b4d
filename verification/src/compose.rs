//! Composing frames: moving rows of pixels between buffers, laying a recording on its
//! canvas, cropping, and finishing a frame for the encoder.
use crate::assets;
use crate::assets::Frame;
use crate::blend;
use crate::export::CompositionLayout;
use crate::motion_blur;
use crate::raster;
use crate::raster::Rgba;
use crate::scalar;
use crate::scalar::Scalar;
use crate::yuv;
use vstd::arithmetic::div_mod::*;
use vstd::prelude::*;

verus! {

/// A block of rows in a buffer.
#[derive(Clone, Copy, Debug, PartialEq, Eq, Structural)]
pub struct Rows {
    /// Where the first row starts.
    pub start: usize,
    /// How far apart rows start.
    pub stride: usize,
}

impl Rows {
    /// Where the byte in column `k` of row `row` is.
    pub open spec fn at(self, row: int, k: int) -> int {
        self.start + row * self.stride + k
    }

    /// Whether a buffer of `length` bytes has so many rows of so many bytes.
    pub open spec fn lie_in(self, row_bytes: int, rows: int, length: int) -> bool {
        rows > 0 ==> self.at(rows - 1, row_bytes) <= length
    }

    /// Whether a byte is in one of the rows.
    pub open spec fn hold(self, row_bytes: int, rows: int, i: int) -> bool {
        let offset = i - self.start;
        0 <= offset && self.stride > 0 && offset / self.stride as int <= rows - 1 && offset
            % self.stride as int <= row_bytes - 1
    }

    /// The byte in the same place of the same row of other rows.
    pub open spec fn place_in(self, other: Rows, i: int) -> int {
        let offset = i - self.start;
        other.at(offset / self.stride as int, offset % self.stride as int)
    }
}

/// A buffer after rows have been copied into it.
pub open spec fn with_rows(
    dst: Seq<u8>,
    to: Rows,
    src: Seq<u8>,
    from: Rows,
    row_bytes: int,
    rows: int,
) -> Seq<u8> {
    Seq::new(
        dst.len(),
        |i: int|
            if to.hold(row_bytes, rows, i) {
                src[to.place_in(from, i)]
            } else {
                dst[i]
            },
    )
}

/// A place in rows that do not overlap is in no other place of them.
pub proof fn lemma_place(rows_at: Rows, row: int, k: int)
    requires
        0 <= row,
        0 <= k < rows_at.stride,
    ensures
        rows_at.at(row, k) >= rows_at.start,
        (rows_at.at(row, k) - rows_at.start) / (rows_at.stride as int) == row,
        (rows_at.at(row, k) - rows_at.start) % (rows_at.stride as int) == k,
{
    assert(0 <= row * rows_at.stride) by (nonlinear_arith)
        requires
            0 <= row,
    ;
    lemma_fundamental_div_mod_converse(row * rows_at.stride + k, rows_at.stride as int, row, k);
}

/// A byte that is in rows is in one place of them.
proof fn lemma_placed(rows_at: Rows, i: int)
    requires
        i >= rows_at.start,
        rows_at.stride > 0,
    ensures
        i == rows_at.at(
            (i - rows_at.start) / (rows_at.stride as int),
            (i - rows_at.start) % (rows_at.stride as int),
        ),
        0 <= (i - rows_at.start) / (rows_at.stride as int),
        0 <= (i - rows_at.start) % (rows_at.stride as int) < rows_at.stride,
{
    let (o, s) = (i - rows_at.start, rows_at.stride as int);
    lemma_fundamental_div_mod(o, s);
    lemma_mod_bound(o, s);
    lemma_div_pos_is_pos(o, s);
    assert(s * (o / s) == (o / s) * s) by (nonlinear_arith);
}

/// A row of rows that lie in a buffer lies in it.
proof fn lemma_row_lies_in(rows_at: Rows, row_bytes: int, rows: int, length: int, row: int)
    requires
        rows_at.lie_in(row_bytes, rows, length),
        0 <= row < rows,
        0 <= row_bytes,
    ensures
        0 <= row * rows_at.stride,
        rows_at.at(row, row_bytes) <= length,
{
    assert(0 <= row * rows_at.stride <= (rows - 1) * rows_at.stride) by (nonlinear_arith)
        requires
            0 <= row <= rows - 1,
            0 <= rows_at.stride,
    ;
}

/// Copies rows of bytes from one buffer into another.
///
/// The buffers may keep their rows at different distances: padded, as a codec does, or
/// packed. The rows copied into must not overlap.
pub fn copy_rows(
    src: &[u8],
    from: Rows,
    dst: &mut [u8],
    to: Rows,
    row_bytes: usize,
    rows: usize,
)
    requires
        from.lie_in(row_bytes as int, rows as int, src@.len() as int),
        to.lie_in(row_bytes as int, rows as int, old(dst)@.len() as int),
        row_bytes <= to.stride,
    ensures
        final(dst)@ == with_rows(old(dst)@, to, src@, from, row_bytes as int, rows as int),
{
    let ghost before = dst@;
    let ghost after = with_rows(before, to, src@, from, row_bytes as int, rows as int);
    assert(src@.len() == src.len() && dst@.len() == dst.len());
    let mut row: usize = 0;
    while row < rows
        invariant
            row <= rows,
            from.lie_in(row_bytes as int, rows as int, src@.len() as int),
            to.lie_in(row_bytes as int, rows as int, dst@.len() as int),
            row_bytes <= to.stride,
            src@.len() <= usize::MAX,
            dst@.len() <= usize::MAX,
            dst@.len() == before.len(),
            after == with_rows(before, to, src@, from, row_bytes as int, rows as int),
            forall|i: int|
                0 <= i < before.len() ==> #[trigger] dst@[i] == if to.hold(
                    row_bytes as int,
                    row as int,
                    i,
                ) {
                    after[i]
                } else {
                    before[i]
                },
        decreases rows - row,
    {
        proof {
            lemma_row_lies_in(from, row_bytes as int, rows as int, src@.len() as int, row as int);
            lemma_row_lies_in(to, row_bytes as int, rows as int, dst@.len() as int, row as int);
        }
        let src_row: usize = from.start + row * from.stride;
        let dst_row: usize = to.start + row * to.stride;
        let mut k: usize = 0;
        while k < row_bytes
            invariant
                k <= row_bytes,
                row < rows,
                row_bytes <= to.stride,
                src_row == from.at(row as int, 0),
                dst_row == to.at(row as int, 0),
                src_row + row_bytes <= src@.len() <= usize::MAX,
                dst_row + row_bytes <= dst@.len() <= usize::MAX,
                dst@.len() == before.len(),
                after == with_rows(before, to, src@, from, row_bytes as int, rows as int),
                forall|i: int|
                    0 <= i < before.len() ==> #[trigger] dst@[i] == if to.hold(
                        row_bytes as int,
                        row as int,
                        i,
                    ) || dst_row <= i < dst_row + k {
                        after[i]
                    } else {
                        before[i]
                    },
            decreases row_bytes - k,
        {
            proof {
                lemma_place(to, row as int, k as int);
            }
            dst[dst_row + k] = src[src_row + k];
            k += 1;
        }
        proof {
            assert forall|i: int| 0 <= i < before.len() implies #[trigger] dst@[i] == if to.hold(
                row_bytes as int,
                row + 1,
                i,
            ) {
                after[i]
            } else {
                before[i]
            } by {
                if dst_row <= i < dst_row + row_bytes {
                    lemma_place(to, row as int, i - dst_row);
                } else if to.hold(row_bytes as int, row + 1, i) {
                    lemma_placed(to, i);
                }
            }
        }
        row += 1;
    }
    assert(dst@ =~= after) by {
        assert forall|i: int| 0 <= i < before.len() implies dst@[i] == after[i] by {}
    }
}

/// Packs rows that a codec keeps padded.
pub fn strip_stride(src: &[u8], stride: usize, row_bytes: usize, rows: usize) -> (packed: Vec<u8>)
    requires
        row_bytes <= stride,
        (Rows { start: 0, stride }).lie_in(row_bytes as int, rows as int, src@.len() as int),
    ensures
        packed@.len() == rows * row_bytes,
        forall|row: int, k: int|
            0 <= row < rows && 0 <= k < row_bytes ==> #[trigger] packed@[row * row_bytes + k]
                == src@[row * stride + k],
{
    let padded = Rows { start: 0, stride };
    let tight = Rows { start: 0, stride: row_bytes };
    proof {
        assert(src@.len() == src.len());
        assert(rows * row_bytes == (rows - 1) * row_bytes + row_bytes) by (nonlinear_arith);
        assert(rows > 0 ==> (rows - 1) * row_bytes <= (rows - 1) * stride) by (nonlinear_arith)
            requires
                row_bytes <= stride,
        ;
        assert(rows == 0 ==> rows * row_bytes == 0) by (nonlinear_arith);
    }
    let mut packed: Vec<u8> = vec![0u8; rows * row_bytes];
    copy_rows(src, padded, packed.as_mut_slice(), tight, row_bytes, rows);
    proof {
        assert forall|row: int, k: int|
            0 <= row < rows && 0 <= k < row_bytes implies #[trigger] packed@[row * row_bytes + k]
            == src@[row * stride + k] by {
            lemma_place(tight, row, k);
            lemma_row_lies_in(tight, row_bytes as int, rows as int, packed@.len() as int, row);
        }
    }
    packed
}

/// Rows copied into another buffer and on into a third arrive as they were.
pub proof fn law_rows_copied_on(
    src: Seq<u8>,
    from: Rows,
    other: Seq<u8>,
    to: Rows,
    third: Seq<u8>,
    row_bytes: int,
    rows: int,
    row: int,
    k: int,
)
    requires
        from.lie_in(row_bytes, rows, src.len() as int),
        from.lie_in(row_bytes, rows, third.len() as int),
        to.lie_in(row_bytes, rows, other.len() as int),
        row_bytes <= from.stride,
        row_bytes <= to.stride,
        0 <= row < rows,
        0 <= k < row_bytes,
    ensures
        with_rows(
            third,
            from,
            with_rows(other, to, src, from, row_bytes, rows),
            to,
            row_bytes,
            rows,
        )[from.at(row, k)] == src[from.at(row, k)],
{
    lemma_place(from, row, k);
    lemma_place(to, row, k);
    lemma_row_lies_in(from, row_bytes, rows, third.len() as int, row);
    lemma_row_lies_in(to, row_bytes, rows, other.len() as int, row);
}

/// The pixel with index `p` of a canvas with a recording laid on it.
pub open spec fn laid_out(canvas: Seq<u8>, video: Seq<u8>, layout: CompositionLayout, p: int) -> Rgba {
    let x = p % layout.canvas_w as int - layout.video_x;
    let y = p / layout.canvas_w as int - layout.video_y;
    if 0 <= x < layout.video_w && 0 <= y < layout.video_h {
        raster::rgba_at(video, y * layout.video_w + x)
    } else {
        raster::rgba_at(canvas, p)
    }
}

/// The rows of packed RGBA of the given width, from the pixel in column `x` of row `y` on.
pub open spec fn rect_rows(width: u32, x: u32, y: u32) -> Rows {
    Rows { start: (4 * (y * width + x)) as usize, stride: (4 * width) as usize }
}

/// Laying the rows of a recording on the canvas lays out its pixels.
proof fn lemma_laid_out(canvas: Seq<u8>, video: Seq<u8>, layout: CompositionLayout, p: int, c: int)
    requires
        layout.wf(),
        canvas.len() == 4 * (layout.canvas_w * layout.canvas_h),
        canvas.len() <= usize::MAX,
        4 * layout.canvas_w <= usize::MAX,
        video.len() >= 4 * (layout.video_w * layout.video_h),
        0 <= p < layout.canvas_w * layout.canvas_h,
        0 <= c < 4,
        layout.video_h > 0,
        4 * (layout.video_y * layout.canvas_w + layout.video_x) <= usize::MAX,
    ensures
        with_rows(
            canvas,
            rect_rows(layout.canvas_w, layout.video_x, layout.video_y),
            video,
            (Rows { start: 0, stride: (4 * layout.video_w) as usize }),
            4 * layout.video_w,
            layout.video_h as int,
        )[4 * p + c] == raster::channel(laid_out(canvas, video, layout, p), c),
{
    let to = rect_rows(layout.canvas_w, layout.video_x, layout.video_y);
    let from = Rows { start: 0, stride: (4 * layout.video_w) as usize };
    let (cw, ch) = (layout.canvas_w as int, layout.canvas_h as int);
    raster::lemma_coordinates(p, cw, ch);
    let x = p % cw - layout.video_x;
    let y = p / cw - layout.video_y;
    let i = 4 * p + c;
    let stride = to.stride as int;
    assert(i - to.start == y * stride + 4 * x + c) by (nonlinear_arith)
        requires
            i == 4 * p + c,
            p == (p / cw) * cw + p % cw,
            x == p % cw - layout.video_x,
            y == p / cw - layout.video_y,
            to.start == 4 * (layout.video_y * cw + layout.video_x),
            stride == 4 * cw,
    ;
    if x >= 0 {
        if y >= 0 {
            assert(i == to.at(y, 4 * x + c));
            lemma_place(to, y, 4 * x + c);
            assert(y * from.stride == 4 * (y * layout.video_w)) by (nonlinear_arith)
                requires
                    from.stride == 4 * layout.video_w,
            ;
        } else {
            assert(y * stride + 4 * x + c < 0) by (nonlinear_arith)
                requires
                    y <= -1,
                    0 <= stride,
                    4 * x + c < stride,
            ;
        }
    } else {
        let m = stride + 4 * x + c;
        assert((y - 1) * stride == y * stride - stride) by (nonlinear_arith);
        if y >= 1 {
            assert(i == to.at(y - 1, m));
            lemma_place(to, y - 1, m);
        } else {
            assert(y * stride <= 0) by (nonlinear_arith)
                requires
                    y <= 0,
                    0 <= stride,
            ;
        }
    }
}

/// Composes a frame: the recording on its canvas, with the corner frame over both.
pub fn composite_frame(
    canvas: &[u8],
    video: &[u8],
    corner: &[u8],
    layout: CompositionLayout,
    out: &mut [u8],
)
    requires
        layout.wf(),
        canvas@.len() == 4 * (layout.canvas_w * layout.canvas_h),
        old(out)@.len() == canvas@.len(),
        corner@.len() >= canvas@.len(),
        video@.len() >= 4 * (layout.video_w * layout.video_h),
    ensures
        final(out)@.len() == old(out)@.len(),
        forall|p: int|
            0 <= p < layout.canvas_w * layout.canvas_h ==> #[trigger] raster::rgba_at(
                final(out)@,
                p,
            ) == blend::over(
                raster::rgba_at(corner@, p),
                laid_out(canvas@, video@, layout, p),
            ),
{
    let ghost n: int = layout.canvas_w * layout.canvas_h;
    assert(canvas@.len() == canvas.len());
    let size: usize = canvas.len();
    let whole = Rows { start: 0, stride: size };
    copy_rows(canvas, whole, out, whole, size, 1);
    assert(out@ =~= canvas@) by {
        assert forall|i: int| 0 <= i < canvas@.len() implies out@[i] == canvas@[i] by {
            lemma_place(whole, 0, i);
        }
    }
    if layout.video_h > 0 && layout.video_w > 0 {
        lay_video(canvas, video, layout, out);
    } else {
        assert forall|p: int| 0 <= p < n implies #[trigger] raster::rgba_at(out@, p) == laid_out(
            canvas@,
            video@,
            layout,
            p,
        ) by {}
    }
    let ghost laid = out@;
    let mut p: usize = 0;
    while p < size / 4
        invariant
            p <= size / 4,
            size == 4 * n,
            out@.len() == size,
            corner@.len() >= size,
            laid.len() == size,
            forall|q: int|
                0 <= q < n ==> #[trigger] raster::rgba_at(laid, q) == laid_out(
                    canvas@,
                    video@,
                    layout,
                    q,
                ),
            forall|q: int|
                0 <= q < n ==> #[trigger] raster::rgba_at(out@, q) == if q < p {
                    blend::over(raster::rgba_at(corner@, q), raster::rgba_at(laid, q))
                } else {
                    raster::rgba_at(laid, q)
                },
        decreases size / 4 - p,
    {
        let ghost before = out@;
        let top = Rgba {
            r: corner[4 * p],
            g: corner[4 * p + 1],
            b: corner[4 * p + 2],
            a: corner[4 * p + 3],
        };
        blend::blend_pixel(out, p, top);
        assert forall|q: int| 0 <= q < n implies #[trigger] raster::rgba_at(out@, q) == if q < p + 1 {
            blend::over(raster::rgba_at(corner@, q), raster::rgba_at(laid, q))
        } else {
            raster::rgba_at(laid, q)
        } by {
            assert(raster::rgba_at(before, q) == if q < p {
                blend::over(raster::rgba_at(corner@, q), raster::rgba_at(laid, q))
            } else {
                raster::rgba_at(laid, q)
            });
            if q != p {
                assert(raster::rgba_at(out@, q) == raster::rgba_at(before, q));
            }
        }
        p += 1;
    }
}

/// The rows of a rectangle of pixels lie in the pixels around it.
proof fn lemma_rect_lies_in(width: int, height: int, x: int, y: int, w: int, h: int)
    requires
        0 <= x,
        0 <= y,
        0 < w,
        0 < h,
        x + w <= width,
        y + h <= height,
    ensures
        0 <= y * width,
        0 <= (h - 1) * (4 * width),
        4 * (y * width + x) + (h - 1) * (4 * width) + 4 * w <= 4 * (width * height),
        width <= width * height,
{
    let last = y + h - 1;
    raster::lemma_index(x + w - 1, last, width, height);
    assert(last * width == y * width + (h - 1) * width) by (nonlinear_arith)
        requires
            last == y + h - 1,
    ;
    assert((h - 1) * (4 * width) == 4 * ((h - 1) * width)) by (nonlinear_arith);
    assert(0 <= y * width && 0 <= (h - 1) * width) by (nonlinear_arith)
        requires
            0 <= y,
            0 <= width,
            1 <= h,
    ;
    assert(width <= width * height) by (nonlinear_arith)
        requires
            1 <= height,
            0 <= width,
    ;
}

/// Lays a recording on a canvas.
fn lay_video(canvas: &[u8], video: &[u8], layout: CompositionLayout, out: &mut [u8])
    requires
        layout.wf(),
        layout.video_w > 0,
        layout.video_h > 0,
        canvas@.len() == 4 * (layout.canvas_w * layout.canvas_h),
        old(out)@ == canvas@,
        video@.len() >= 4 * (layout.video_w * layout.video_h),
    ensures
        final(out)@.len() == old(out)@.len(),
        forall|p: int|
            0 <= p < layout.canvas_w * layout.canvas_h ==> #[trigger] raster::rgba_at(
                final(out)@,
                p,
            ) == laid_out(canvas@, video@, layout, p),
{
    let ghost (cw, ch) = (layout.canvas_w as int, layout.canvas_h as int);
    let ghost (vw, vh) = (layout.video_w as int, layout.video_h as int);
    proof {
        assert(canvas@.len() == canvas.len() && video@.len() == video.len());
        lemma_rect_lies_in(cw, ch, layout.video_x as int, layout.video_y as int, vw, vh);
        lemma_rect_lies_in(vw, vh, 0, 0, vw, vh);
    }
    let start: usize = 4 * (layout.video_y as usize * layout.canvas_w as usize
        + layout.video_x as usize);
    let to = Rows { start, stride: 4 * layout.canvas_w as usize };
    let from = Rows { start: 0, stride: 4 * layout.video_w as usize };
    copy_rows(video, from, out, to, 4 * layout.video_w as usize, layout.video_h as usize);
    assert forall|p: int| 0 <= p < cw * ch implies #[trigger] raster::rgba_at(out@, p) == laid_out(
        canvas@,
        video@,
        layout,
        p,
    ) by {
        lemma_laid_out(canvas@, video@, layout, p, 0);
        lemma_laid_out(canvas@, video@, layout, p, 1);
        lemma_laid_out(canvas@, video@, layout, p, 2);
        lemma_laid_out(canvas@, video@, layout, p, 3);
    }
}

/// The rectangle that the recording takes up on its canvas.
pub open spec fn video_frame(layout: CompositionLayout) -> Frame {
    Frame {
        x: layout.video_x,
        y: layout.video_y,
        width: layout.video_w,
        height: layout.video_h,
    }
}

/// Around the recording a composed frame shows the canvas as it is.
pub proof fn law_canvas_shows_around(
    canvas: Seq<u8>,
    video: Seq<u8>,
    layout: CompositionLayout,
    corner_radius: int,
    background: (u8, u8, u8),
    p: int,
)
    requires
        !video_frame(layout).holds(p % layout.canvas_w as int, p / layout.canvas_w as int),
    ensures
        blend::over(
            assets::corner_frame_color(
                video_frame(layout),
                corner_radius,
                background,
                p % layout.canvas_w as int,
                p / layout.canvas_w as int,
            ),
            laid_out(canvas, video, layout, p),
        ) == raster::rgba_at(canvas, p),
{
    assets::law_frame_is_clear_outside(
        video_frame(layout),
        corner_radius,
        background,
        p % layout.canvas_w as int,
        p / layout.canvas_w as int,
    );
}

/// Away from its corners a composed frame shows the recording as it is.
pub proof fn law_recording_shows_through(
    canvas: Seq<u8>,
    video: Seq<u8>,
    layout: CompositionLayout,
    corner_radius: int,
    background: (u8, u8, u8),
    x: int,
    y: int,
)
    requires
        layout.wf(),
        0 <= x < layout.video_w,
        0 <= y < layout.video_h,
        corner_radius <= x < layout.video_w - corner_radius || corner_radius <= y < layout.video_h
            - corner_radius,
    ensures
        ({
            let p = (layout.video_y + y) * layout.canvas_w + layout.video_x + x;
            blend::over(
                assets::corner_frame_color(
                    video_frame(layout),
                    corner_radius,
                    background,
                    p % layout.canvas_w as int,
                    p / layout.canvas_w as int,
                ),
                laid_out(canvas, video, layout, p),
            ) == raster::rgba_at(video, y * layout.video_w + x)
        }),
{
    raster::lemma_index(
        layout.video_x + x,
        layout.video_y + y,
        layout.canvas_w as int,
        layout.canvas_h as int,
    );
}

/// Cuts a rectangle of pixels out of packed RGBA, into rows that start `stride` bytes apart.
pub fn copy_crop(
    frame: &[u8],
    width: u32,
    height: u32,
    crop: (u32, u32, u32, u32),
    dst: &mut [u8],
    stride: usize,
)
    requires
        frame@.len() >= 4 * (width * height),
        crop.0 + crop.2 <= width,
        crop.1 + crop.3 <= height,
        4 * crop.2 <= stride,
        (Rows { start: 0, stride }).lie_in(
            4 * crop.2,
            crop.3 as int,
            old(dst)@.len() as int,
        ),
    ensures
        final(dst)@ == with_rows(
            old(dst)@,
            (Rows { start: 0, stride }),
            frame@,
            rect_rows(width, crop.0, crop.1),
            4 * crop.2,
            crop.3 as int,
        ),
{
    let (x, y, w, h): (u32, u32, u32, u32) = crop;
    let to = Rows { start: 0, stride };
    if h == 0 || w == 0 {
        proof {
            let after = with_rows(dst@, to, frame@, rect_rows(width, x, y), 4 * w, h as int);
            assert forall|i: int| 0 <= i < dst@.len() implies #[trigger] after[i] == dst@[i] by {
                if stride > 0 {
                    lemma_placed(to, i);
                }
            }
            assert(after =~= dst@);
        }
        return;
    }
    proof {
        assert(frame@.len() == frame.len());
        lemma_rect_lies_in(width as int, height as int, x as int, y as int, w as int, h as int);
    }
    let from = Rows {
        start: 4 * (y as usize * width as usize + x as usize),
        stride: 4 * width as usize,
    };
    copy_rows(frame, from, dst, to, 4 * w as usize, h as usize);
}

/// A plane of a YUV420P frame.
#[derive(Clone, Copy, Debug, PartialEq, Eq, Structural)]
pub enum Plane {
    Y,
    U,
    V,
}

impl Plane {
    /// The width of the plane of a frame of the given width.
    pub open spec fn spec_width(self, width: int) -> int {
        if self is Y {
            width
        } else {
            width / 2
        }
    }

    /// The height of the plane of a frame of the given height.
    pub open spec fn spec_height(self, height: int) -> int {
        if self is Y {
            height
        } else {
            height / 2
        }
    }

    /// Where the plane starts among the packed planes of a frame: Y, U and V.
    pub open spec fn spec_start(self, width: int, height: int) -> int {
        match self {
            Plane::Y => 0,
            Plane::U => width * height,
            Plane::V => width * height + (width / 2) * (height / 2),
        }
    }

    /// The width of the plane of a frame of the given width.
    pub fn width(self, width: usize) -> (length: usize)
        ensures
            length == self.spec_width(width as int),
    {
        match self {
            Plane::Y => width,
            _ => width / 2,
        }
    }

    /// The height of the plane of a frame of the given height.
    pub fn height(self, height: usize) -> (rows: usize)
        ensures
            rows == self.spec_height(height as int),
    {
        match self {
            Plane::Y => height,
            _ => height / 2,
        }
    }
}

/// Copies one plane out of packed planes, into rows that start `stride` bytes apart.
pub fn copy_plane(
    planes: &[u8],
    plane: Plane,
    width: usize,
    height: usize,
    dst: &mut [u8],
    stride: usize,
)
    requires
        planes@.len() >= width * height + 2 * ((width / 2) * (height / 2)),
        plane.spec_width(width as int) <= stride,
        (Rows { start: 0, stride }).lie_in(
            plane.spec_width(width as int),
            plane.spec_height(height as int),
            old(dst)@.len() as int,
        ),
    ensures
        final(dst)@ == with_rows(
            old(dst)@,
            (Rows { start: 0, stride }),
            planes@,
            (Rows {
                start: plane.spec_start(width as int, height as int) as usize,
                stride: plane.spec_width(width as int) as usize,
            }),
            plane.spec_width(width as int),
            plane.spec_height(height as int),
        ),
{
    let w: usize = plane.width(width);
    let h: usize = plane.height(height);
    proof {
        assert(planes@.len() == planes.len());
        assert(h * w == (h - 1) * w + w) by (nonlinear_arith);
        assert(width * height == height * width && (width / 2) * (height / 2) == (height / 2) * (
        width / 2)) by (nonlinear_arith);
        assert(0 <= width * height && 0 <= (width / 2) * (height / 2)) by (nonlinear_arith);
    }
    let start: usize = match plane {
        Plane::Y => 0,
        Plane::U => width * height,
        Plane::V => width * height + (width / 2) * (height / 2),
    };
    copy_rows(planes, Rows { start, stride: w }, dst, Rows { start: 0, stride }, w, h);
}

/// The planes of a frame with even sides follow one another without a gap and hold three
/// bytes for every two pixels.
pub proof fn law_planes_are_packed(width: int, height: int)
    requires
        0 <= width,
        0 <= height,
        width % 2 == 0,
        height % 2 == 0,
    ensures
        Plane::Y.spec_start(width, height) == 0,
        Plane::U.spec_start(width, height) == Plane::Y.spec_start(width, height)
            + Plane::Y.spec_width(width) * Plane::Y.spec_height(height),
        Plane::V.spec_start(width, height) == Plane::U.spec_start(width, height)
            + Plane::U.spec_width(width) * Plane::U.spec_height(height),
        Plane::V.spec_start(width, height) + Plane::V.spec_width(width) * Plane::V.spec_height(
            height,
        ) == width * height * 3 / 2,
{
    let (a, b) = (width / 2, height / 2);
    assert(width * height == 4 * (a * b)) by (nonlinear_arith)
        requires
            width == 2 * a,
            height == 2 * b,
    ;
}

/// How the camera moved since the frame before.
#[derive(Clone, Copy, Debug, PartialEq, Eq, Structural)]
pub struct Movement {
    /// In pixels a second.
    pub speed: Scalar,
    /// The radius of the blur that this speed asks for, in pixels.
    pub blur_px: Scalar,
}

/// Whether a frame is blurred: with motion blur on, from the second frame on, and by half a
/// pixel or more.
pub open spec fn is_moving(motion_blur: Scalar, movement: Option<Movement>) -> bool {
    &&& scalar::scalar_of_bits(scalar::ZERO).spec_lt(motion_blur)
    &&& movement matches Some(m) && scalar::scalar_of_bits(motion_blur::MIN_BLUR).spec_le(m.blur_px)
}

/// Whether a frame is to be blurred.
pub fn blurs(motion_blur: Scalar, movement: Option<Movement>) -> (blurs: bool)
    ensures
        blurs == is_moving(motion_blur, movement),
{
    match movement {
        Some(m) => Scalar::from_bits(scalar::ZERO).lt(motion_blur) && Scalar::from_bits(
            motion_blur::MIN_BLUR,
        ).le(m.blur_px),
        None => false,
    }
}

/// Finishes a composed frame: blurs it along the movement of the camera, into `scratch`, and
/// converts what comes out to YUV420P.
pub fn finish_frame(
    frame: &[u8],
    scratch: &mut [u8],
    width: u32,
    height: u32,
    motion_blur: Scalar,
    movement: Option<Movement>,
    tap_deltas: &[(i32, i32)],
    out: &mut [u8],
)
    requires
        width > 0,
        width % 2 == 0,
        height % 2 == 0,
        frame@.len() >= 4 * (width * height),
        old(out)@.len() >= width * height + 2 * ((width / 2) * (height / 2)),
        is_moving(motion_blur, movement) ==> {
            &&& motion_blur::taps_for(movement->0.blur_px, movement->0.speed) == Some(
                tap_deltas@.len() as usize,
            )
            &&& old(scratch)@.len() >= 4 * (width * height)
        },
    ensures
        final(out)@.len() == old(out)@.len(),
        is_moving(motion_blur, movement) ==> motion_blur::is_blurred(
            frame@,
            width as int,
            height as int,
            tap_deltas@,
            old(scratch)@,
            final(scratch)@,
        ) && yuv::is_yuv420p(final(scratch)@, width as int, height as int, final(out)@),
        !is_moving(motion_blur, movement) ==> final(scratch)@ == old(scratch)@ && yuv::is_yuv420p(
            frame@,
            width as int,
            height as int,
            final(out)@,
        ),
        forall|p: int|
            width * height + 2 * ((width / 2) * (height / 2)) <= p < old(out)@.len()
                ==> #[trigger] final(out)@[p] == old(out)@[p],
{
    if blurs(motion_blur, movement) {
        if let Some(m) = movement {
            assert(tap_deltas@.len() == tap_deltas.len());
            motion_blur::apply(frame, scratch, width, height, m.blur_px, m.speed, tap_deltas);
        }
        yuv::rgba_to_yuv420p(scratch, width as usize, height as usize, out);
    } else {
        yuv::rgba_to_yuv420p(frame, width as usize, height as usize, out);
    }
}

/// Copied rows land byte by byte: byte `k` of a row comes from byte `k` of the same row.
pub proof fn law_rows_land_in_their_place(
    dst: Seq<u8>,
    to: Rows,
    src: Seq<u8>,
    from: Rows,
    row_bytes: int,
    rows: int,
    row: int,
    k: int,
)
    requires
        to.start + (rows - 1) * to.stride + row_bytes <= dst.len(),
        row_bytes <= to.stride,
        0 <= row < rows,
        0 <= k < row_bytes,
    ensures
        with_rows(dst, to, src, from, row_bytes, rows)[to.start + row * to.stride + k] == src[from.start
            + row * from.stride + k],
{
    lemma_place(to, row, k);
    lemma_row_lies_in(to, row_bytes, rows, dst.len() as int, row);
}

/// Bytes that are in none of the copied rows stay as they are.
pub proof fn law_other_bytes_stay(
    dst: Seq<u8>,
    to: Rows,
    src: Seq<u8>,
    from: Rows,
    row_bytes: int,
    rows: int,
    i: int,
)
    requires
        0 <= i < dst.len(),
        forall|row: int, k: int|
            0 <= row < rows && 0 <= k < row_bytes ==> i != #[trigger] to.at(row, k),
    ensures
        with_rows(dst, to, src, from, row_bytes, rows).len() == dst.len(),
        with_rows(dst, to, src, from, row_bytes, rows)[i] == dst[i],
{
    if to.hold(row_bytes, rows, i) {
        lemma_placed(to, i);
        assert(i == to.at(
            (i - to.start) / (to.stride as int),
            (i - to.start) % (to.stride as int),
        ));
    }
}

/// A cut-out shows, in column `x` of its row `y`, the pixel of the frame that is so far to the
/// right of and below its corner.
pub proof fn law_crop_shows_its_rectangle(
    dst: Seq<u8>,
    stride: usize,
    frame: Seq<u8>,
    width: u32,
    height: u32,
    crop: (u32, u32, u32, u32),
    x: int,
    y: int,
    c: int,
)
    requires
        4 * (width * height) <= frame.len() <= usize::MAX,
        crop.0 + crop.2 <= width,
        crop.1 + crop.3 <= height,
        4 * crop.2 <= stride,
        (crop.3 - 1) * stride + 4 * crop.2 <= dst.len(),
        0 <= x < crop.2,
        0 <= y < crop.3,
        0 <= c < 4,
    ensures
        with_rows(
            dst,
            (Rows { start: 0, stride }),
            frame,
            rect_rows(width, crop.0, crop.1),
            4 * crop.2,
            crop.3 as int,
        )[y * stride + 4 * x + c] == frame[4 * ((crop.1 + y) * width + (crop.0 + x)) + c],
{
    let from = rect_rows(width, crop.0, crop.1);
    let to = Rows { start: 0, stride };
    let (w, cx, cy) = (width as int, crop.0 as int, crop.1 as int);
    lemma_rect_lies_in(w, height as int, cx, cy, crop.2 as int, crop.3 as int);
    law_rows_land_in_their_place(
        dst,
        to,
        frame,
        from,
        4 * crop.2,
        crop.3 as int,
        y,
        4 * x + c,
    );
    assert(4 * (cy * w + cx) + y * (4 * w) + (4 * x + c) == 4 * ((cy + y) * w + (cx + x)) + c)
        by (nonlinear_arith);
}

/// A laid out canvas shows the recording's own bytes where the recording lies, and the
/// canvas's own around it.
pub proof fn law_recording_is_laid_in_its_place(
    canvas: Seq<u8>,
    video: Seq<u8>,
    layout: CompositionLayout,
    x: int,
    y: int,
)
    requires
        0 <= x < layout.canvas_w,
        0 <= y < layout.canvas_h,
    ensures
        ({
            let p = y * layout.canvas_w + x;
            let (vx, vy) = (layout.video_x as int, layout.video_y as int);
            let shown = laid_out(canvas, video, layout, p);
            let on_it = vx <= x < vx + layout.video_w && vy <= y < vy + layout.video_h;
            let v = 4 * ((y - vy) * layout.video_w + (x - vx));
            &&& on_it ==> shown.r == video[v] && shown.g == video[v + 1] && shown.b == video[v + 2]
                && shown.a == video[v + 3]
            &&& !on_it ==> shown.r == canvas[4 * p] && shown.g == canvas[4 * p + 1] && shown.b
                == canvas[4 * p + 2] && shown.a == canvas[4 * p + 3]
        }),
{
    raster::lemma_index(x, y, layout.canvas_w as int, layout.canvas_h as int);
}

/// The planes of a frame: a byte for every pixel, and a byte for every two by two pixels
/// behind it, twice, and in this order.
pub proof fn law_planes_follow_in_order(width: int, height: int)
    ensures
        Plane::Y.spec_width(width) == width && Plane::Y.spec_height(height) == height,
        Plane::U.spec_width(width) == width / 2 && Plane::U.spec_height(height) == height / 2,
        Plane::V.spec_width(width) == width / 2 && Plane::V.spec_height(height) == height / 2,
        Plane::Y.spec_start(width, height) == 0,
        Plane::U.spec_start(width, height) == width * height,
        Plane::V.spec_start(width, height) == width * height + (width / 2) * (height / 2),
{
}

/// A frame is blurred with motion blur on, after another frame, and by half a pixel or more,
/// and no other frame is.
pub proof fn law_blur_takes_movement(motion_blur: Scalar, movement: Option<Movement>)
    ensures
        movement is None ==> !is_moving(motion_blur, movement),
        motion_blur.spec_le(scalar::scalar_of_bits(0)) ==> !is_moving(motion_blur, movement),
        movement matches Some(m) && m.blur_px.spec_lt(scalar::scalar_of_bits(0x3fe0_0000_0000_0000))
            ==> !is_moving(motion_blur, movement),
        movement matches Some(m) && scalar::scalar_of_bits(0x3fe0_0000_0000_0000).spec_le(m.blur_px)
            && scalar::scalar_of_bits(0).spec_lt(motion_blur) ==> is_moving(motion_blur, movement),
{
}

} // verus!
