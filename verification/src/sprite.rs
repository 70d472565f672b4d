//! The cursor: its default sprite, and drawing a sprite onto a frame.
use crate::blend;
use crate::raster;
use crate::raster::{Painter, Rgba, RgbaImage};
use vstd::prelude::*;

verus! {

/// The size of the arrow without its shadow.
pub const ARROW_WIDTH: u32 = 24;

pub const ARROW_HEIGHT: u32 = 36;

/// The outline of the arrow, in half pixels.
pub open spec fn arrow_outline() -> Seq<(i32, i32)> {
    seq![(2i32, 0i32), (2, 48), (12, 38), (20, 56), (28, 53), (20, 35), (32, 35), (2, 0)]
}

/// The inside of the arrow, in half pixels.
pub open spec fn arrow_fill() -> Seq<(i32, i32)> {
    seq![(6i32, 7i32), (6, 41), (13, 34), (21, 51), (24, 50), (17, 34), (27, 34), (6, 7)]
}

/// Whether a ray from a point to the right crosses the edge between two vertices.
///
/// The edge has to pass the height of the point, and to do so to the right of it: with
/// `t = (y - ay) / (by - ay)`, where `x < ax + t (bx - ax)`.
pub open spec fn crosses(x: int, y: int, a: (i32, i32), b: (i32, i32)) -> bool {
    &&& (a.1 > y) != (b.1 > y)
    &&& if b.1 > a.1 {
        (x - a.0) * (b.1 - a.1) < (b.0 - a.0) * (y - a.1)
    } else {
        (x - a.0) * (b.1 - a.1) > (b.0 - a.0) * (y - a.1)
    }
}

/// How many of the first `n` edges a ray from a point to the right crosses. An edge leads
/// to each vertex from the one before it, and to the first from the last.
pub open spec fn crossings(x: int, y: int, polygon: Seq<(i32, i32)>, n: nat) -> nat
    decreases n,
{
    if n == 0 {
        0
    } else {
        let vertex = polygon[n - 1];
        let previous = if n == 1 {
            polygon.last()
        } else {
            polygon[n - 2]
        };
        crossings(x, y, polygon, (n - 1) as nat) + (if crosses(x, y, vertex, previous) {
            1nat
        } else {
            0nat
        })
    }
}

/// Whether a point is inside a polygon: a ray from it crosses an odd number of edges.
pub open spec fn is_inside(x: int, y: int, polygon: Seq<(i32, i32)>) -> bool {
    crossings(x, y, polygon, polygon.len()) % 2 == 1
}

/// The colour of a pixel of the arrow, by what its centre is inside of.
pub open spec fn arrow_color(x: int, y: int) -> Rgba {
    if !(0 <= x < ARROW_WIDTH && 0 <= y < ARROW_HEIGHT) {
        Rgba::spec_clear()
    } else if is_inside(2 * x + 1, 2 * y + 1, arrow_fill()) {
        Rgba { r: 255, g: 255, b: 255, a: 255 }
    } else if is_inside(2 * x + 1, 2 * y + 1, arrow_outline()) {
        Rgba { r: 0, g: 0, b: 0, a: 220 }
    } else {
        Rgba::spec_clear()
    }
}

/// The colour of a pixel of the sprite: the arrow, above its shadow one pixel down and to
/// the right.
pub open spec fn sprite_color(x: int, y: int) -> Rgba {
    if arrow_color(x, y).a > 0 {
        arrow_color(x, y)
    } else if arrow_color(x - 1, y - 1).a > 0 {
        Rgba { r: 0, g: 0, b: 0, a: 80 }
    } else {
        Rgba::spec_clear()
    }
}

/// The index of a sprite pixel that a scaled position falls on, held to the last one.
pub open spec fn held(index: usize, length: u32) -> int {
    if index < length {
        index as int
    } else {
        length - 1
    }
}

/// The pixel with index `p` of a frame after a sprite has been drawn on it.
///
/// The sprite covers one column from `dst_x` on for every entry of `columns`, which names
/// the sprite column to show there, and one row from `dst_y` on for every entry of `rows`.
pub open spec fn drawn(
    frame: Seq<u8>,
    width: int,
    sprite: RgbaImage,
    dst_x: int,
    dst_y: int,
    columns: Seq<usize>,
    rows: Seq<usize>,
    p: int,
) -> Rgba {
    let dx = p % width - dst_x;
    let dy = p / width - dst_y;
    if 0 <= dx < columns.len() && 0 <= dy < rows.len() {
        blend::over(
            sprite.pixel(held(columns[dx], sprite.width), held(rows[dy], sprite.height)),
            raster::rgba_at(frame, p),
        )
    } else {
        raster::rgba_at(frame, p)
    }
}

/// Whether a ray from a point to the right crosses the edge between two vertices.
fn ray_crosses(x: i32, y: i32, a: (i32, i32), b: (i32, i32)) -> (crossed: bool)
    ensures
        crossed == crosses(x as int, y as int, a, b),
{
    if (a.1 > y) == (b.1 > y) {
        return false;
    }
    let run: i128 = x as i128 - a.0 as i128;
    let rise: i128 = b.1 as i128 - a.1 as i128;
    let width: i128 = b.0 as i128 - a.0 as i128;
    let height: i128 = y as i128 - a.1 as i128;
    assert(-0x1_0000_0000_0000_0000 <= run * rise <= 0x1_0000_0000_0000_0000
        && -0x1_0000_0000_0000_0000 <= width * height <= 0x1_0000_0000_0000_0000)
        by (nonlinear_arith)
        requires
            -0x1_0000_0000 <= run <= 0x1_0000_0000,
            -0x1_0000_0000 <= rise <= 0x1_0000_0000,
            -0x1_0000_0000 <= width <= 0x1_0000_0000,
            -0x1_0000_0000 <= height <= 0x1_0000_0000,
    ;
    if rise > 0 {
        run * rise < width * height
    } else {
        run * rise > width * height
    }
}

/// Whether a point is inside a polygon, by casting a ray.
pub fn point_in_polygon(x: i32, y: i32, polygon: &[(i32, i32)]) -> (inside: bool)
    requires
        polygon@.len() > 0,
    ensures
        inside == is_inside(x as int, y as int, polygon@),
{
    let n: usize = polygon.len();
    let mut inside: bool = false;
    let mut previous: (i32, i32) = polygon[n - 1];
    let mut i: usize = 0;
    while i < n
        invariant
            n == polygon@.len(),
            i <= n,
            previous == if i == 0 {
                polygon@.last()
            } else {
                polygon@[i - 1]
            },
            inside == (crossings(x as int, y as int, polygon@, i as nat) % 2 == 1),
        decreases n - i,
    {
        let vertex: (i32, i32) = polygon[i];
        if ray_crosses(x, y, vertex, previous) {
            inside = !inside;
        }
        previous = vertex;
        i += 1;
    }
    inside
}

/// The colour of a pixel of the arrow.
fn arrow_pixel(x: u32, y: u32) -> (color: Rgba)
    ensures
        color == arrow_color(x as int, y as int),
{
    if x >= ARROW_WIDTH || y >= ARROW_HEIGHT {
        return Rgba::clear();
    }
    let fill: [(i32, i32); 8] = [
        (6, 7),
        (6, 41),
        (13, 34),
        (21, 51),
        (24, 50),
        (17, 34),
        (27, 34),
        (6, 7),
    ];
    let outline: [(i32, i32); 8] = [
        (2, 0),
        (2, 48),
        (12, 38),
        (20, 56),
        (28, 53),
        (20, 35),
        (32, 35),
        (2, 0),
    ];
    assert(fill@ =~= arrow_fill());
    assert(outline@ =~= arrow_outline());
    let cx: i32 = 2 * x as i32 + 1;
    let cy: i32 = 2 * y as i32 + 1;
    if point_in_polygon(cx, cy, &fill) {
        Rgba { r: 255, g: 255, b: 255, a: 255 }
    } else if point_in_polygon(cx, cy, &outline) {
        Rgba { r: 0, g: 0, b: 0, a: 220 }
    } else {
        Rgba::clear()
    }
}

struct Arrow {}

impl Painter for Arrow {
    closed spec fn ready(&self) -> bool {
        true
    }

    closed spec fn color_at(&self, x: int, y: int) -> Rgba {
        sprite_color(x, y)
    }

    fn color(&self, x: u32, y: u32) -> (color: Rgba) {
        let arrow = arrow_pixel(x, y);
        if arrow.a > 0 {
            return arrow;
        }
        if x > 0 && y > 0 && arrow_pixel(x - 1, y - 1).a > 0 {
            return Rgba { r: 0, g: 0, b: 0, a: 80 };
        }
        Rgba::clear()
    }
}

/// Generates the default cursor: a white arrow with a black outline and a shadow.
pub fn generate_cursor_sprite() -> (sprite: RgbaImage)
    ensures
        sprite.wf(),
        sprite.width == ARROW_WIDTH + 2,
        sprite.height == ARROW_HEIGHT + 2,
        sprite.shows(|x: int, y: int| sprite_color(x, y)),
{
    let sprite = raster::paint(ARROW_WIDTH + 2, ARROW_HEIGHT + 2, &Arrow {});
    assert(sprite.shows(|x: int, y: int| sprite_color(x, y))) by {
        assert forall|x: int, y: int|
            0 <= x < sprite.width && 0 <= y < sprite.height implies #[trigger] sprite.pixel(x, y)
            == sprite_color(x, y) by {}
    }
    sprite
}

/// The sprite pixel that a scaled position falls on.
fn hold(index: usize, length: u32) -> (index_held: u32)
    requires
        length > 0,
    ensures
        index_held == held(index, length),
        index_held < length,
{
    if index < length as usize {
        index as u32
    } else {
        length - 1
    }
}

/// Alpha-blends a sprite onto packed RGBA bytes, clipped to the frame.
///
/// The sprite's hotspot is at its top left, the tip of the arrow, and lands on
/// `(dst_x, dst_y)`. `columns` and `rows` name the sprite column and row to show in every
/// column and row from there on, which is how a sprite is scaled.
pub fn draw_cursor_on_buffer(
    buf: &mut [u8],
    buf_w: usize,
    buf_h: usize,
    sprite: &RgbaImage,
    dst_x: i64,
    dst_y: i64,
    columns: &[usize],
    rows: &[usize],
)
    requires
        sprite.wf(),
        columns@.len() > 0 ==> sprite.width > 0,
        rows@.len() > 0 ==> sprite.height > 0,
        old(buf)@.len() >= 4 * (buf_w * buf_h),
        buf_w <= i64::MAX,
        buf_h <= i64::MAX,
        columns@.len() <= i64::MAX,
        rows@.len() <= i64::MAX,
        dst_x + columns@.len() <= i64::MAX,
        dst_y + rows@.len() <= i64::MAX,
    ensures
        final(buf)@.len() == old(buf)@.len(),
        forall|p: int|
            0 <= p < buf_w * buf_h ==> #[trigger] raster::rgba_at(final(buf)@, p) == drawn(
                old(buf)@,
                buf_w as int,
                *sprite,
                dst_x as int,
                dst_y as int,
                columns@,
                rows@,
                p,
            ),
        forall|i: int|
            4 * (buf_w * buf_h) <= i < old(buf)@.len() ==> #[trigger] final(buf)@[i] == old(
                buf,
            )@[i],
{
    let ghost frame = buf@;
    let ghost after = |p: int|
        drawn(
            frame,
            buf_w as int,
            *sprite,
            dst_x as int,
            dst_y as int,
            columns@,
            rows@,
            p,
        );
    assert(buf@.len() == buf.len());
    let mut j: usize = 0;
    while j < rows.len()
        invariant
            j <= rows@.len(),
            sprite.wf(),
            columns@.len() > 0 ==> sprite.width > 0,
            rows@.len() > 0 ==> sprite.height > 0,
            buf@.len() == frame.len(),
            buf@.len() >= 4 * (buf_w * buf_h),
            buf@.len() <= usize::MAX,
            buf_w <= i64::MAX,
            buf_h <= i64::MAX,
            columns@.len() <= i64::MAX,
            rows@.len() <= i64::MAX,
            dst_x + columns@.len() <= i64::MAX,
            dst_y + rows@.len() <= i64::MAX,
            after == (|p: int|
                drawn(
                    frame,
                    buf_w as int,
                    *sprite,
                    dst_x as int,
                    dst_y as int,
                    columns@,
                    rows@,
                    p,
                )),
            forall|p: int|
                0 <= p < buf_w * buf_h ==> #[trigger] raster::rgba_at(buf@, p) == if p / (
                buf_w as int) - dst_y < j {
                    after(p)
                } else {
                    raster::rgba_at(frame, p)
                },
            forall|i: int|
                4 * (buf_w * buf_h) <= i < frame.len() ==> #[trigger] buf@[i] == frame[i],
        decreases rows@.len() - j,
    {
        let py: i64 = dst_y + j as i64;
        if 0 <= py && py < buf_h as i64 {
            let sy: u32 = hold(rows[j], sprite.height);
            let mut k: usize = 0;
            while k < columns.len()
                invariant
                    j < rows@.len(),
                    k <= columns@.len(),
                    py == dst_y + j,
                    0 <= py < buf_h,
                    sprite.wf(),
                    columns@.len() > 0 ==> sprite.width > 0,
                    sy == held(rows@[j as int], sprite.height),
                    sy < sprite.height,
                    buf@.len() == frame.len(),
                    buf@.len() >= 4 * (buf_w * buf_h),
                    buf@.len() <= usize::MAX,
                    buf_w <= i64::MAX,
                    buf_h <= i64::MAX,
                    columns@.len() <= i64::MAX,
                    dst_x + columns@.len() <= i64::MAX,
                    after == (|p: int|
                        drawn(
                            frame,
                            buf_w as int,
                            *sprite,
                            dst_x as int,
                            dst_y as int,
                            columns@,
                            rows@,
                            p,
                        )),
                    forall|p: int|
                        0 <= p < buf_w * buf_h ==> #[trigger] raster::rgba_at(buf@, p) == if p / (
                        buf_w as int) - dst_y < j || (p / (buf_w as int) - dst_y == j && p % (
                        buf_w as int) - dst_x < k) {
                            after(p)
                        } else {
                            raster::rgba_at(frame, p)
                        },
                    forall|i: int|
                        4 * (buf_w * buf_h) <= i < frame.len() ==> #[trigger] buf@[i] == frame[i],
                decreases columns@.len() - k,
            {
                let px: i64 = dst_x + k as i64;
                let ghost before = buf@;
                let ghost target: int = -1;
                if 0 <= px && px < buf_w as i64 {
                    let sx: u32 = hold(columns[k], sprite.width);
                    proof {
                        raster::lemma_index(px as int, py as int, buf_w as int, buf_h as int);
                        target = py * buf_w + px;
                    }
                    let p: usize = py as usize * buf_w + px as usize;
                    blend::blend_pixel(buf, p, sprite.get_pixel(sx, sy));
                }
                proof {
                    assert forall|p: int| 0 <= p < buf_w * buf_h implies #[trigger] raster::rgba_at(
                        buf@,
                        p,
                    ) == if p / (buf_w as int) - dst_y < j || (p / (buf_w as int) - dst_y == j && p
                        % (buf_w as int) - dst_x < k + 1) {
                        after(p)
                    } else {
                        raster::rgba_at(frame, p)
                    } by {
                        raster::lemma_coordinates(p, buf_w as int, buf_h as int);
                        assert(raster::rgba_at(before, p) == if p / (buf_w as int) - dst_y < j || (p
                            / (buf_w as int) - dst_y == j && p % (buf_w as int) - dst_x < k) {
                            after(p)
                        } else {
                            raster::rgba_at(frame, p)
                        });
                        if p != target {
                            assert(raster::rgba_at(buf@, p) == raster::rgba_at(before, p));
                        }
                    }
                }
                k += 1;
            }
        }
        proof {
            assert forall|p: int| 0 <= p < buf_w * buf_h implies #[trigger] raster::rgba_at(
                buf@,
                p,
            ) == if p / (buf_w as int) - dst_y < j + 1 {
                after(p)
            } else {
                raster::rgba_at(frame, p)
            } by {
                raster::lemma_coordinates(p, buf_w as int, buf_h as int);
            }
        }
        j += 1;
    }
}

/// A sprite changes a pixel of a frame only where the sprite pixel above it is not
/// transparent.
pub proof fn law_clear_pixels_draw_nothing(
    frame: Seq<u8>,
    width: int,
    sprite: RgbaImage,
    dst_x: int,
    dst_y: int,
    columns: Seq<usize>,
    rows: Seq<usize>,
    p: int,
)
    requires
        drawn(frame, width, sprite, dst_x, dst_y, columns, rows, p) != raster::rgba_at(frame, p),
    ensures
        0 <= p % width - dst_x < columns.len(),
        0 <= p / width - dst_y < rows.len(),
        sprite.pixel(
            held(columns[p % width - dst_x], sprite.width),
            held(rows[p / width - dst_y], sprite.height),
        ).a > 0,
{
}

/// A ray to the right crosses an edge that passes the height of its point exactly where the
/// point is to the left of the place on the edge at that height. With weights `m` and `k`
/// that place is at the weighted mean of the ends.
pub proof fn law_ray_crosses_to_the_right(
    x: int,
    y: int,
    a: (i32, i32),
    b: (i32, i32),
    m: int,
    k: int,
)
    requires
        0 <= m,
        0 <= k,
        0 < m + k,
        (m + k) * y == m * a.1 + k * b.1,
        (a.1 <= y) != (b.1 <= y),
    ensures
        crosses(x, y, a, b) <==> (m + k) * x < m * a.0 + k * b.0,
{
    let (s, rise) = (m + k, b.1 - a.1);
    let (run, width, height) = (x - a.0, b.0 - a.0, y - a.1);
    assert(s * height == k * rise) by (nonlinear_arith)
        requires
            s == m + k,
            rise == b.1 - a.1,
            height == y - a.1,
            s * y == m * a.1 + k * b.1,
    ;
    assert(s * run - k * width == s * x - (m * a.0 + k * b.0)) by (nonlinear_arith)
        requires
            s == m + k,
            run == x - a.0,
            width == b.0 - a.0,
    ;
    assert(s * (run * rise) - s * (width * height) == rise * (s * run - k * width))
        by (nonlinear_arith)
        requires
            s * height == k * rise,
    ;
    let d = run * rise - width * height;
    let e = s * run - k * width;
    assert(s * d == rise * e) by (nonlinear_arith)
        requires
            s * (run * rise) - s * (width * height) == rise * e,
            d == run * rise - width * height,
    ;
    assert(rise > 0 ==> (d < 0 <==> e < 0)) by (nonlinear_arith)
        requires
            s > 0,
            s * d == rise * e,
    ;
    assert(rise < 0 ==> (d > 0 <==> e < 0)) by (nonlinear_arith)
        requires
            s > 0,
            s * d == rise * e,
    ;
}

/// An edge that does not pass the height of a point is not crossed, and whichever way an edge
/// is taken, it is crossed or not.
pub proof fn law_edges_have_no_direction(x: int, y: int, a: (i32, i32), b: (i32, i32))
    ensures
        crosses(x, y, a, b) == crosses(x, y, b, a),
        crosses(x, y, a, b) ==> (a.1 <= y < b.1 || b.1 <= y < a.1),
{
    let (run, rise, width, height) = (x - a.0, b.1 - a.1, b.0 - a.0, y - a.1);
    assert((run - width) * (-rise) - (-width) * (height - rise) == -(run * rise - width * height))
        by (nonlinear_arith);
    assert((x - b.0) * (a.1 - b.1) == (run - width) * (-rise));
    assert((a.0 - b.0) * (y - b.1) == (-width) * (height - rise));
}

/// A point is inside a rectangle where it is from its left edge to before its right one, and
/// from its top to before its bottom.
pub proof fn law_inside_of_a_rectangle(
    x: int,
    y: int,
    left: i32,
    top: i32,
    right: i32,
    bottom: i32,
)
    requires
        left < right,
        top < bottom,
    ensures
        is_inside(x, y, seq![(left, top), (right, top), (right, bottom), (left, bottom)]) <==> {
            &&& left <= x < right
            &&& top <= y < bottom
        },
{
    let p = seq![(left, top), (right, top), (right, bottom), (left, bottom)];
    reveal_with_fuel(crossings, 5);
    if top <= y < bottom {
        let h = bottom - top;
        law_edges_have_no_direction(x, y, p[2], p[1]);
        assert((bottom - y) * top + (y - top) * bottom == h * y) by (nonlinear_arith)
            requires
                h == bottom - top,
        ;
        assert(((bottom - y) + (y - top)) * y == h * y && ((bottom - y) + (y - top)) * x == h * x);
        law_ray_crosses_to_the_right(x, y, p[1], p[2], bottom - y, y - top);
        law_ray_crosses_to_the_right(x, y, p[0], p[3], bottom - y, y - top);
        assert((bottom - y) * right + (y - top) * right == h * right && (bottom - y) * left + (y
            - top) * left == h * left) by (nonlinear_arith)
            requires
                h == bottom - top,
        ;
        assert((h * x < h * right <==> x < right) && (h * x < h * left <==> x < left))
            by (nonlinear_arith)
            requires
                h > 0,
        ;
    }
}

/// The outline of the arrow starts at its tip, one pixel to the right, and runs down its left
/// edge, into its notch, around its stem, and back along its right edge.
pub proof fn law_arrow_runs_around(i: int)
    requires
        0 <= i < 7,
    ensures
        arrow_outline().len() == 8,
        arrow_outline()[0] == (2i32, 0i32),
        arrow_outline()[7] == arrow_outline()[0],
        ({
            let steps = seq![
                (0int, 48int),
                (10, -10),
                (8, 18),
                (8, -3),
                (-8, -18),
                (12, 0),
                (-30, -35),
            ];
            &&& arrow_outline()[i + 1].0 - arrow_outline()[i].0 == steps[i].0
            &&& arrow_outline()[i + 1].1 - arrow_outline()[i].1 == steps[i].1
        }),
        arrow_fill().len() == 8,
        arrow_fill()[0] == (6i32, 7i32),
        arrow_fill()[7] == arrow_fill()[0],
        ({
            let steps = seq![
                (0int, 34int),
                (7, -7),
                (8, 17),
                (3, -1),
                (-7, -16),
                (10, 0),
                (-21, -27),
            ];
            &&& arrow_fill()[i + 1].0 - arrow_fill()[i].0 == steps[i].0
            &&& arrow_fill()[i + 1].1 - arrow_fill()[i].1 == steps[i].1
        }),
{
}

/// The arrow is white inside and a faint black around it, by where the middle of a pixel
/// lies, and nothing beyond its raster.
pub proof fn law_arrow_is_white_with_an_edge(x: int, y: int)
    ensures
        ({
            let on_raster = 0 <= x < 24 && 0 <= y < 36;
            let filled = is_inside(2 * x + 1, 2 * y + 1, arrow_fill());
            let outlined = is_inside(2 * x + 1, 2 * y + 1, arrow_outline());
            let color = arrow_color(x, y);
            &&& on_raster && filled ==> color == Rgba { r: 255, g: 255, b: 255, a: 255 }
            &&& on_raster && !filled && outlined ==> color == Rgba { r: 0, g: 0, b: 0, a: 220 }
            &&& !on_raster || !filled && !outlined ==> color.a == 0
        }),
{
}

/// The sprite shows the arrow, and, where nothing of the arrow is, its shadow one pixel down
/// and to the right.
pub proof fn law_sprite_casts_a_shadow(x: int, y: int)
    ensures
        arrow_color(x, y).a > 0 ==> sprite_color(x, y) == arrow_color(x, y),
        arrow_color(x, y).a > 0 && arrow_color(x + 1, y + 1).a == 0 ==> sprite_color(x + 1, y + 1)
            == (Rgba { r: 0, g: 0, b: 0, a: 80 }),
        sprite_color(x, y).a > 0 ==> arrow_color(x, y).a > 0 || arrow_color(x - 1, y - 1).a > 0,
{
}

/// A drawn sprite shows, column by column and row by row from where it is drawn to, the
/// sprite pixels that are asked for: an opaque one in place of the frame's pixel.
pub proof fn law_drawn_sprite_is_in_its_place(
    frame: Seq<u8>,
    width: int,
    height: int,
    sprite: RgbaImage,
    dst_x: int,
    dst_y: int,
    columns: Seq<usize>,
    rows: Seq<usize>,
    dx: int,
    dy: int,
)
    requires
        0 <= dx < columns.len(),
        0 <= dy < rows.len(),
        columns[dx] < sprite.width,
        rows[dy] < sprite.height,
        0 <= dst_x + dx < width,
        0 <= dst_y + dy < height,
    ensures
        ({
            let p = (dst_y + dy) * width + (dst_x + dx);
            let shown = drawn(frame, width, sprite, dst_x, dst_y, columns, rows, p);
            let source = 4 * (rows[dy] * sprite.width + columns[dx]);
            let alpha = sprite.data@[source + 3];
            &&& alpha == 255 ==> {
                &&& shown.r == sprite.data@[source]
                &&& shown.g == sprite.data@[source + 1]
                &&& shown.b == sprite.data@[source + 2]
                &&& shown.a == 255
            }
            &&& alpha == 0 ==> shown == raster::rgba_at(frame, p)
            &&& shown == blend::over(sprite.pixel(columns[dx] as int, rows[dy] as int), raster::rgba_at(
                frame,
                p,
            ))
        }),
{
    raster::lemma_index(dst_x + dx, dst_y + dy, width, height);
    let top = sprite.pixel(columns[dx] as int, rows[dy] as int);
    if top.a == 255 {
        blend::law_opaque_hides(
            top,
            raster::rgba_at(frame, (dst_y + dy) * width + (dst_x + dx)),
        );
    }
}

/// A sprite pixel beyond the last is the last.
pub proof fn law_sprite_ends_with_its_last_pixel(index: usize, length: u32)
    requires
        0 < length,
    ensures
        0 <= held(index, length) < length,
        index < length ==> held(index, length) == index,
        index >= length ==> held(index, length) == length - 1,
{
}

} // verus!
