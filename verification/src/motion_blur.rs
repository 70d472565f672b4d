//! Directional motion blur for camera movement.
use crate::raster;
use crate::scalar;
use crate::scalar::Scalar;
use vstd::arithmetic::div_mod::*;
use vstd::prelude::*;

verus! {

/// A blur of fewer pixels than this is not applied: the double 0.5.
pub const MIN_BLUR: u64 = 0x3fe0_0000_0000_0000;

/// A slower movement than this has no direction: the double 0.001.
pub const MIN_SPEED: u64 = 0x3f50_624d_d2f1_a9fc;

/// A blur of fewer pixels than this gets by with the fewest taps: the double 4.
pub const SHORT_BLUR: u64 = 0x4010_0000_0000_0000;

/// A blur of fewer pixels than this gets by with a middling number of taps: the double 8.
pub const MIDDLE_BLUR: u64 = 0x4020_0000_0000_0000;

/// A movement of fewer pixels a second than this is not blurred: the double 12.
pub const DEADZONE: u64 = 0x4028_0000_0000_0000;

/// The largest kernel whose sums are certain to fit in 32 bits.
pub const MAX_TAPS: usize = 0xff_ffff;

/// Where the radius of a blur comes from.
#[derive(Clone, Copy, Debug, PartialEq, Eq, Structural)]
pub enum BlurRule {
    /// Nothing is blurred: the radius is zero.
    Still,
    /// The radius grows with the square of the speed above the dead zone.
    Quadratic,
}

/// Where the radius of a blur comes from, for a speed in pixels a second and the intensity
/// that a slider is set to.
pub open spec fn blur_rule(speed: Scalar, slider: Scalar) -> BlurRule {
    if speed.spec_lt(scalar::scalar_of_bits(DEADZONE)) || slider.spec_le(
        scalar::scalar_of_bits(scalar::ZERO),
    ) {
        BlurRule::Still
    } else {
        BlurRule::Quadratic
    }
}

/// How many taps a blur takes, if it is applied at all.
pub open spec fn taps_for(blur_px: Scalar, speed: Scalar) -> Option<usize> {
    if blur_px.spec_lt(scalar::scalar_of_bits(MIN_BLUR)) || speed.spec_lt(
        scalar::scalar_of_bits(MIN_SPEED),
    ) {
        None
    } else if blur_px.spec_lt(scalar::scalar_of_bits(SHORT_BLUR)) {
        Some(7)
    } else if blur_px.spec_lt(scalar::scalar_of_bits(MIDDLE_BLUR)) {
        Some(11)
    } else {
        Some(15)
    }
}

/// A position moved by a tap and held to a side of the given length.
pub open spec fn held(position: int, delta: int, length: int) -> int {
    if position + delta < 0 {
        0
    } else if position + delta > length - 1 {
        length - 1
    } else {
        position + delta
    }
}

/// The byte that a tap reads for one channel of the pixel in column `x` of row `y`.
pub open spec fn tap_byte(
    src: Seq<u8>,
    width: int,
    height: int,
    x: int,
    y: int,
    tap: (i32, i32),
    c: int,
) -> u8 {
    src[4 * (held(y, tap.1 as int, height) * width + held(x, tap.0 as int, width)) + c]
}

/// The sum of what the first `n` taps read.
pub open spec fn tap_sum(
    src: Seq<u8>,
    width: int,
    height: int,
    x: int,
    y: int,
    taps: Seq<(i32, i32)>,
    c: int,
    n: nat,
) -> nat
    decreases n,
{
    if n == 0 {
        0
    } else {
        tap_sum(src, width, height, x, y, taps, c, (n - 1) as nat) + tap_byte(
            src,
            width,
            height,
            x,
            y,
            taps[n - 1],
            c,
        ) as nat
    }
}

/// The blurred byte with index `i`: the mean of what the taps read, rounded to the nearest.
pub open spec fn blurred_byte(
    src: Seq<u8>,
    width: int,
    height: int,
    taps: Seq<(i32, i32)>,
    i: int,
) -> int {
    let n = taps.len() as int;
    let p = i / 4;
    (tap_sum(src, width, height, p % width, p / width, taps, i % 4, taps.len()) + n / 2) / n
}

/// Decides whether a movement is blurred: not while it is slower than the dead zone, nor with
/// the slider at zero.
pub fn compute_blur_radius(speed: Scalar, slider: Scalar) -> (rule: BlurRule)
    ensures
        rule == blur_rule(speed, slider),
{
    if speed.lt(Scalar::from_bits(DEADZONE)) || slider.le(Scalar::from_bits(scalar::ZERO)) {
        BlurRule::Still
    } else {
        BlurRule::Quadratic
    }
}

/// How many taps a blur of `blur_px` pixels takes for a movement of the given speed.
///
/// A blur of less than half a pixel, or of a movement without direction, is not applied.
pub fn tap_count(blur_px: Scalar, speed: Scalar) -> (taps: Option<usize>)
    ensures
        taps == taps_for(blur_px, speed),
{
    if blur_px.lt(Scalar::from_bits(MIN_BLUR)) || speed.lt(Scalar::from_bits(MIN_SPEED)) {
        None
    } else if blur_px.lt(Scalar::from_bits(SHORT_BLUR)) {
        Some(7)
    } else if blur_px.lt(Scalar::from_bits(MIDDLE_BLUR)) {
        Some(11)
    } else {
        Some(15)
    }
}

/// A position moved by a tap and held to a side.
fn hold(position: u32, delta: i32, length: u32) -> (index: usize)
    requires
        position < length,
    ensures
        index == held(position as int, delta as int, length as int),
        index < length,
{
    let moved: i64 = position as i64 + delta as i64;
    if moved < 0 {
        0
    } else if moved > length as i64 - 1 {
        (length - 1) as usize
    } else {
        moved as usize
    }
}

/// The sum of a kernel is bounded by the extremes of what it reads.
proof fn lemma_sum_bounds(
    src: Seq<u8>,
    width: int,
    height: int,
    x: int,
    y: int,
    taps: Seq<(i32, i32)>,
    c: int,
    n: nat,
    low: int,
    high: int,
)
    requires
        0 <= x < width,
        0 <= y < height,
        0 <= c < 4,
        n <= taps.len(),
        forall|p: int| 0 <= p < width * height ==> low <= #[trigger] src[4 * p + c] <= high,
    ensures
        n * low <= tap_sum(src, width, height, x, y, taps, c, n) <= n * high,
    decreases n,
{
    if n > 0 {
        lemma_sum_bounds(
            src,
            width,
            height,
            x,
            y,
            taps,
            c,
            (n - 1) as nat,
            low,
            high,
        );
        let sx = held(x, taps[n - 1].0 as int, width);
        let sy = held(y, taps[n - 1].1 as int, height);
        raster::lemma_index(sx, sy, width, height);
        assert(low <= src[4 * (sy * width + sx) + c] <= high);
        let m = (n - 1) as nat;
        assert(n * low == m * low + low && n * high == m * high + high) by (nonlinear_arith)
            requires
                n == m + 1,
        ;
    } else {
        assert(n * low == 0 && n * high == 0) by (nonlinear_arith)
            requires
                n == 0,
        ;
    }
}

/// A rounded mean of values between two bounds is between them.
proof fn lemma_mean_bounds(sum: int, n: int, low: int, high: int)
    requires
        0 < n,
        n * low <= sum <= n * high,
    ensures
        low <= (sum + n / 2) / n <= high,
{
    let q = (sum + n / 2) / n;
    lemma_fundamental_div_mod(sum + n / 2, n);
    lemma_mod_bound(sum + n / 2, n);
    if q < low {
        assert(n * q + n <= n * low) by (nonlinear_arith)
            requires
                q + 1 <= low,
                0 < n,
        ;
    }
    if q > high {
        assert(n * high + n <= n * q) by (nonlinear_arith)
            requires
                high + 1 <= q,
                0 < n,
        ;
    }
}

/// A blurred channel keeps between the extremes of the channel before; an even channel
/// stays as it is.
pub proof fn law_blur_keeps_bounds(
    src: Seq<u8>,
    width: int,
    height: int,
    taps: Seq<(i32, i32)>,
    c: int,
    low: int,
    high: int,
    i: int,
)
    requires
        0 <= width,
        0 <= height,
        0 < taps.len(),
        0 <= c < 4,
        0 <= i < 4 * (width * height),
        i % 4 == c,
        forall|p: int| 0 <= p < width * height ==> low <= #[trigger] src[4 * p + c] <= high,
    ensures
        low <= blurred_byte(src, width, height, taps, i) <= high,
{
    let p = i / 4;
    raster::lemma_coordinates(p, width, height);
    lemma_sum_bounds(
        src,
        width,
        height,
        p % width,
        p / width,
        taps,
        c,
        taps.len(),
        low,
        high,
    );
    lemma_mean_bounds(
        tap_sum(src, width, height, p % width, p / width, taps, c, taps.len()) as int,
        taps.len() as int,
        low,
        high,
    );
}

/// The blurred pixel in column `x` of row `y`.
fn blurred_pixel(
    src: &[u8],
    width: u32,
    height: u32,
    x: u32,
    y: u32,
    tap_deltas: &[(i32, i32)],
) -> (pixel: [u8; 4])
    requires
        x < width,
        y < height,
        src@.len() >= 4 * (width * height),
        0 < tap_deltas@.len() <= MAX_TAPS,
    ensures
        forall|c: int|
            0 <= c < 4 ==> #[trigger] pixel@[c] == blurred_byte(
                src@,
                width as int,
                height as int,
                tap_deltas@,
                4 * (y * width + x) + c,
            ),
{
    let ghost (w, h) = (width as int, height as int);
    assert(src@.len() == src.len());
    let n: usize = tap_deltas.len();
    let mut r: u32 = 0;
    let mut g: u32 = 0;
    let mut b: u32 = 0;
    let mut a: u32 = 0;
    let mut t: usize = 0;
    while t < n
        invariant
            t <= n,
            n == tap_deltas@.len(),
            n <= MAX_TAPS,
            x < width,
            y < height,
            w == width,
            h == height,
            4 * (width * height) <= src@.len() <= usize::MAX,
            r == tap_sum(src@, w, h, x as int, y as int, tap_deltas@, 0, t as nat),
            g == tap_sum(src@, w, h, x as int, y as int, tap_deltas@, 1, t as nat),
            b == tap_sum(src@, w, h, x as int, y as int, tap_deltas@, 2, t as nat),
            a == tap_sum(src@, w, h, x as int, y as int, tap_deltas@, 3, t as nat),
            r <= 255 * t,
            g <= 255 * t,
            b <= 255 * t,
            a <= 255 * t,
        decreases n - t,
    {
        let tap: (i32, i32) = tap_deltas[t];
        let sx: usize = hold(x, tap.0, width);
        let sy: usize = hold(y, tap.1, height);
        proof {
            raster::lemma_index(sx as int, sy as int, w, h);
        }
        let s: usize = 4 * (sy * width as usize + sx);
        r = r + src[s] as u32;
        g = g + src[s + 1] as u32;
        b = b + src[s + 2] as u32;
        a = a + src[s + 3] as u32;
        t = t + 1;
    }
    proof {
        raster::lemma_index(x as int, y as int, w, h);
        lemma_mean_bounds(r as int, n as int, 0, 255);
        lemma_mean_bounds(g as int, n as int, 0, 255);
        lemma_mean_bounds(b as int, n as int, 0, 255);
        lemma_mean_bounds(a as int, n as int, 0, 255);
    }
    let count: u32 = n as u32;
    let half: u32 = count / 2;
    [
        ((r + half) / count) as u8,
        ((g + half) / count) as u8,
        ((b + half) / count) as u8,
        ((a + half) / count) as u8,
    ]
}

/// Makes every pixel of `dst` the mean of the pixels of `src` that the taps reach from it.
fn blur_along(src: &[u8], dst: &mut [u8], width: u32, height: u32, tap_deltas: &[(i32, i32)])
    requires
        src@.len() >= 4 * (width * height),
        old(dst)@.len() >= 4 * (width * height),
        0 < tap_deltas@.len() <= MAX_TAPS,
    ensures
        final(dst)@.len() == old(dst)@.len(),
        forall|i: int|
            0 <= i < 4 * (width * height) ==> #[trigger] final(dst)@[i] == blurred_byte(
                src@,
                width as int,
                height as int,
                tap_deltas@,
                i,
            ),
        forall|i: int|
            4 * (width * height) <= i < old(dst)@.len() ==> #[trigger] final(dst)@[i] == old(
                dst,
            )@[i],
{
    let ghost (w, h) = (width as int, height as int);
    let ghost before = dst@;
    assert(dst@.len() == dst.len());
    let mut y: u32 = 0;
    while y < height
        invariant
            y <= height,
            w == width,
            h == height,
            src@.len() >= 4 * (width * height),
            4 * (width * height) <= dst@.len() <= usize::MAX,
            dst@.len() == before.len(),
            0 < tap_deltas@.len() <= MAX_TAPS,
            forall|i: int|
                0 <= i < 4 * (y * width) ==> #[trigger] dst@[i] == blurred_byte(
                    src@,
                    w,
                    h,
                    tap_deltas@,
                    i,
                ),
            forall|i: int| 4 * (width * height) <= i < before.len() ==> #[trigger] dst@[i] == before[i],
        decreases height - y,
    {
        proof {
            assert((y + 1) * width == y * width + width) by (nonlinear_arith);
        }
        let mut x: u32 = 0;
        while x < width
            invariant
                x <= width,
                y < height,
                w == width,
                h == height,
                src@.len() >= 4 * (width * height),
                4 * (width * height) <= dst@.len() <= usize::MAX,
                dst@.len() == before.len(),
                0 < tap_deltas@.len() <= MAX_TAPS,
                forall|i: int|
                    0 <= i < 4 * (y * width + x) ==> #[trigger] dst@[i] == blurred_byte(
                        src@,
                        w,
                        h,
                        tap_deltas@,
                        i,
                    ),
                forall|i: int|
                    4 * (width * height) <= i < before.len() ==> #[trigger] dst@[i] == before[i],
            decreases width - x,
        {
            let pixel: [u8; 4] = blurred_pixel(src, width, height, x, y, tap_deltas);
            proof {
                raster::lemma_index(x as int, y as int, w, h);
                assert(pixel@[0] == blurred_byte(src@, w, h, tap_deltas@, 4 * (y * width + x) + 0));
                assert(pixel@[1] == blurred_byte(src@, w, h, tap_deltas@, 4 * (y * width + x) + 1));
                assert(pixel@[2] == blurred_byte(src@, w, h, tap_deltas@, 4 * (y * width + x) + 2));
                assert(pixel@[3] == blurred_byte(src@, w, h, tap_deltas@, 4 * (y * width + x) + 3));
            }
            let d: usize = 4 * (y as usize * width as usize + x as usize);
            dst[d] = pixel[0];
            dst[d + 1] = pixel[1];
            dst[d + 2] = pixel[2];
            dst[d + 3] = pixel[3];
            x += 1;
        }
        y += 1;
    }
    proof {
        assert(height * width == width * height) by (nonlinear_arith);
    }
}

/// Whether `dst` holds `src` blurred, and beyond the pixels what it held before.
pub open spec fn is_blurred(
    src: Seq<u8>,
    width: int,
    height: int,
    taps: Seq<(i32, i32)>,
    before: Seq<u8>,
    dst: Seq<u8>,
) -> bool {
    &&& dst.len() == before.len()
    &&& forall|i: int|
        0 <= i < 4 * (width * height) ==> #[trigger] dst[i] == blurred_byte(
            src,
            width,
            height,
            taps,
            i,
        )
    &&& forall|i: int|
        4 * (width * height) <= i < before.len() ==> #[trigger] dst[i] == before[i]
}

/// Blurs packed RGBA along a movement: every pixel of `dst` becomes the mean of the pixels
/// of `src` that the taps reach from it. Where no blur is applied, `dst` is left as it is.
///
/// `tap_deltas` are the steps of the taps along the movement, as many as `tap_count` says. A
/// tap beyond an edge reads the pixel at the edge.
pub fn apply(
    src: &[u8],
    dst: &mut [u8],
    width: u32,
    height: u32,
    blur_px: Scalar,
    speed: Scalar,
    tap_deltas: &[(i32, i32)],
)
    requires
        taps_for(blur_px, speed) matches Some(taps) ==> {
            &&& tap_deltas@.len() == taps
            &&& src@.len() >= 4 * (width * height)
            &&& old(dst)@.len() >= 4 * (width * height)
        },
    ensures
        taps_for(blur_px, speed) is None ==> final(dst)@ == old(dst)@,
        taps_for(blur_px, speed) is Some ==> is_blurred(
            src@,
            width as int,
            height as int,
            tap_deltas@,
            old(dst)@,
            final(dst)@,
        ),
{
    if tap_count(blur_px, speed).is_some() {
        blur_along(src, dst, width, height, tap_deltas);
    }
}

/// A tap that stays on the picture reads the pixel that is its whole step away.
pub proof fn law_tap_reads_a_step_away(
    src: Seq<u8>,
    width: int,
    height: int,
    x: int,
    y: int,
    tap: (i32, i32),
    c: int,
)
    requires
        0 <= x + tap.0 < width,
        0 <= y + tap.1 < height,
    ensures
        tap_byte(src, width, height, x, y, tap, c) == src[4 * ((y + tap.1) * width + (x + tap.0))
            + c],
{
}

/// A tap that leaves the picture reads the pixel at the edge that it leaves over, in the row
/// or column that it has reached.
pub proof fn law_tap_stops_at_the_edge(
    src: Seq<u8>,
    width: int,
    height: int,
    x: int,
    y: int,
    tap: (i32, i32),
    c: int,
)
    requires
        0 < width,
        0 < height,
    ensures
        ({
            let reached_x = x + tap.0;
            let reached_y = y + tap.1;
            let read = tap_byte(src, width, height, x, y, tap, c);
            &&& 0 <= reached_y < height ==> {
                &&& reached_x < 0 ==> read == src[4 * (reached_y * width) + c]
                &&& reached_x >= width ==> read == src[4 * (reached_y * width + (width - 1)) + c]
            }
            &&& 0 <= reached_x < width ==> {
                &&& reached_y < 0 ==> read == src[4 * reached_x + c]
                &&& reached_y >= height ==> read == src[4 * ((height - 1) * width + reached_x) + c]
            }
            &&& reached_x < 0 && reached_y < 0 ==> read == src[c]
            &&& reached_x >= width && reached_y < 0 ==> read == src[4 * (width - 1) + c]
            &&& reached_x < 0 && reached_y >= height ==> read == src[4 * ((height - 1) * width) + c]
            &&& reached_x >= width && reached_y >= height ==> read == src[4 * ((height - 1) * width
                + (width - 1)) + c]
        }),
{
    assert(0 * width == 0) by (nonlinear_arith);
}

/// Every tap counts once: one more adds the byte that it reads.
pub proof fn law_every_tap_counts(
    src: Seq<u8>,
    width: int,
    height: int,
    x: int,
    y: int,
    taps: Seq<(i32, i32)>,
    tap: (i32, i32),
    c: int,
)
    ensures
        tap_sum(src, width, height, x, y, seq![], c, 0) == 0,
        tap_sum(src, width, height, x, y, taps.push(tap), c, taps.len() + 1) == tap_sum(
            src,
            width,
            height,
            x,
            y,
            taps,
            c,
            taps.len(),
        ) + tap_byte(src, width, height, x, y, tap, c),
{
    lemma_sum_reads_a_prefix(src, width, height, x, y, taps, taps.push(tap), c, taps.len());
}

/// The sum of the first taps depends on those alone.
proof fn lemma_sum_reads_a_prefix(
    src: Seq<u8>,
    width: int,
    height: int,
    x: int,
    y: int,
    taps: Seq<(i32, i32)>,
    more: Seq<(i32, i32)>,
    c: int,
    n: nat,
)
    requires
        n <= taps.len() <= more.len(),
        forall|i: int| 0 <= i < n ==> #[trigger] taps[i] == more[i],
    ensures
        tap_sum(src, width, height, x, y, taps, c, n) == tap_sum(
            src,
            width,
            height,
            x,
            y,
            more,
            c,
            n,
        ),
    decreases n,
{
    if n > 0 {
        lemma_sum_reads_a_prefix(src, width, height, x, y, taps, more, c, (n - 1) as nat);
    }
}

/// A blurred byte is the mean of what the taps read from its own pixel and in its own
/// channel, within one half.
pub proof fn law_blurred_is_the_mean(
    src: Seq<u8>,
    width: int,
    height: int,
    taps: Seq<(i32, i32)>,
    x: int,
    y: int,
    c: int,
)
    requires
        0 <= x < width,
        0 <= y < height,
        0 <= c < 4,
        taps.len() > 0,
    ensures
        ({
            let n = taps.len() as int;
            let sum = tap_sum(src, width, height, x, y, taps, c, taps.len());
            let blurred = blurred_byte(src, width, height, taps, 4 * (y * width + x) + c);
            -n <= 2 * (sum - n * blurred) <= n
        }),
{
    raster::lemma_index(x, y, width, height);
    let n = taps.len() as int;
    let i = 4 * (y * width + x) + c;
    assert(i / 4 == y * width + x && i % 4 == c);
    let sum = tap_sum(src, width, height, x, y, taps, c, taps.len());
    lemma_fundamental_div_mod(sum + n / 2, n);
    lemma_mod_bound(sum + n / 2, n);
}

/// Taps that all make one step move the picture by that step.
pub proof fn law_one_step_moves_the_picture(
    src: Seq<u8>,
    width: int,
    height: int,
    taps: Seq<(i32, i32)>,
    step: (i32, i32),
    x: int,
    y: int,
    c: int,
)
    requires
        0 <= x < width,
        0 <= y < height,
        0 <= x + step.0 < width,
        0 <= y + step.1 < height,
        0 <= c < 4,
        taps.len() > 0,
        forall|i: int| 0 <= i < taps.len() ==> #[trigger] taps[i] == step,
    ensures
        blurred_byte(src, width, height, taps, 4 * (y * width + x) + c) == src[4 * ((y + step.1)
            * width + (x + step.0)) + c],
{
    let read = tap_byte(src, width, height, x, y, step, c);
    lemma_sum_of_one_step(src, width, height, x, y, taps, step, c, taps.len());
    law_blurred_is_the_mean(src, width, height, taps, x, y, c);
    law_tap_reads_a_step_away(src, width, height, x, y, step, c);
    let n = taps.len() as int;
    let blurred = blurred_byte(src, width, height, taps, 4 * (y * width + x) + c);
    assert(n * read - n * blurred == n * (read - blurred)) by (nonlinear_arith);
    if read != blurred {
        assert(2 * (n * (read - blurred)) > n || 2 * (n * (read - blurred)) < -n)
            by (nonlinear_arith)
            requires
                n > 0,
                read - blurred >= 1 || read - blurred <= -1,
        ;
    }
}

/// Taps that all make one step read the same byte.
proof fn lemma_sum_of_one_step(
    src: Seq<u8>,
    width: int,
    height: int,
    x: int,
    y: int,
    taps: Seq<(i32, i32)>,
    step: (i32, i32),
    c: int,
    n: nat,
)
    requires
        n <= taps.len(),
        forall|i: int| 0 <= i < taps.len() ==> #[trigger] taps[i] == step,
    ensures
        tap_sum(src, width, height, x, y, taps, c, n) == n * tap_byte(
            src,
            width,
            height,
            x,
            y,
            step,
            c,
        ),
    decreases n,
{
    if n > 0 {
        let m = (n - 1) as nat;
        lemma_sum_of_one_step(src, width, height, x, y, taps, step, c, m);
        let read = tap_byte(src, width, height, x, y, step, c);
        assert(taps[n - 1] == step);
        assert(n * read == m * read + read) by (nonlinear_arith)
            requires
                n == m + 1,
        ;
    } else {
        assert(0 * tap_byte(src, width, height, x, y, step, c) == 0) by (nonlinear_arith);
    }
}

/// A longer blur never takes fewer taps, and a blur takes an odd number of them, so that one
/// is in the middle.
pub proof fn law_longer_blurs_take_more_taps(shorter: Scalar, longer: Scalar, speed: Scalar)
    requires
        shorter.spec_le(longer),
    ensures
        taps_for(shorter, speed) matches Some(few) ==> {
            &&& few % 2 == 1
            &&& 7 <= few <= 15
            &&& taps_for(longer, speed) matches Some(many) && few <= many
        },
{
}

/// A faster movement that is not blurred is not blurred when it is slower either; nor is any
/// with the slider at zero.
pub proof fn law_slower_is_stiller(slower: Scalar, faster: Scalar, slider: Scalar)
    requires
        slower.spec_le(faster),
    ensures
        blur_rule(faster, slider) is Still ==> blur_rule(slower, slider) is Still,
        blur_rule(faster, scalar::scalar_of_bits(0)) is Still,
{
}

/// Every channel of every pixel of a blurred picture is the mean of what the taps read there,
/// and what lies behind the picture stays.
pub proof fn law_whole_picture_is_blurred(
    src: Seq<u8>,
    width: int,
    height: int,
    taps: Seq<(i32, i32)>,
    before: Seq<u8>,
    dst: Seq<u8>,
    x: int,
    y: int,
    c: int,
    behind: int,
)
    requires
        is_blurred(src, width, height, taps, before, dst),
        4 * (width * height) <= behind < before.len(),
        0 <= x < width,
        0 <= y < height,
        0 <= c < 4,
        taps.len() > 0,
    ensures
        ({
            let n = taps.len() as int;
            let sum = tap_sum(src, width, height, x, y, taps, c, taps.len());
            -n <= 2 * (sum - n * dst[4 * (y * width + x) + c]) <= n
        }),
        dst[behind] == before[behind],
        dst.len() == before.len(),
{
    raster::lemma_index(x, y, width, height);
    law_blurred_is_the_mean(src, width, height, taps, x, y, c);
}

} // verus!
