//! Rounded corners: where they are, and how much of a pixel at their arc they cover.
use vstd::prelude::*;

verus! {

/// The largest radius that a corner is drawn with.
pub const MAX_RADIUS: u32 = 200;

pub open spec fn min(a: int, b: int) -> int {
    if a <= b {
        a
    } else {
        b
    }
}

/// The radius that fits a rectangle: at most the given one, and half of either side.
pub open spec fn fitting_radius(width: int, height: int, radius: int) -> int {
    min(min(radius, width / 2), height / 2)
}

/// How far a position is from the centre of the corner arc at its end of a side.
///
/// The side is `length` long; within `radius` of its start the centre is at `radius`,
/// within `radius` of its end at `length - radius`, and between there is no corner.
pub open spec fn corner_offset(position: int, length: int, radius: int) -> Option<int> {
    if position < radius {
        Some(position - radius)
    } else if position >= length - radius {
        Some(position - (length - radius))
    } else {
        None
    }
}

/// The squared distance of a pixel in a corner region from the centre of the arc there.
pub open spec fn corner_distance(x: int, y: int, width: int, height: int, radius: int) -> Option<
    int,
> {
    match (corner_offset(x, width, radius), corner_offset(y, height, radius)) {
        (Some(dx), Some(dy)) => Some(dx * dx + dy * dy),
        _ => None,
    }
}

/// Whether `root` is the square root of `n`, rounded down.
pub open spec fn is_floor_root(n: int, root: int) -> bool {
    &&& 0 <= root
    &&& root * root <= n
    &&& n < (root + 1) * (root + 1)
}

/// The square root of `n`, rounded down.
pub open spec fn floor_root(n: int) -> int {
    choose|root: int| is_floor_root(n, root)
}

/// The square root of `n`, rounded up.
pub open spec fn ceil_root(n: int) -> int {
    let root = floor_root(n);
    if root * root == n {
        root
    } else {
        root + 1
    }
}

/// Whether a distance, given squared, is in or beyond the feathered edge of an arc: more
/// than 3/4 of a pixel less than the radius.
pub open spec fn reaches_feather(distance2: int, radius: int) -> bool {
    16 * distance2 > (4 * radius - 3) * (4 * radius - 3)
}

/// How much of a pixel lies outside an arc, in 255ths.
///
/// With the distance `d`, this is `255 (d - (radius - 3/4)) / (3/2)`, which is
/// `170 d - 170 radius + 127.5`, rounded to the nearest whole number and held to 255. Its
/// whole part moves with that of `170 d`, the root of `28900 d^2`.
pub open spec fn outside_coverage(distance2: int, radius: int) -> int {
    min(255, floor_root(28900 * distance2) - 170 * radius + 128)
}

/// How much of a pixel lies inside an arc, in 255ths.
///
/// This is 255 less the exact coverage outside, `127.5 + 170 radius - 170 d`, rounded to
/// the nearest whole number and held to 0.
pub open spec fn inside_coverage(distance2: int, radius: int) -> int {
    let coverage = 128 + 170 * radius - ceil_root(28900 * distance2);
    if coverage < 0 {
        0
    } else {
        coverage
    }
}

/// A number has at most one square root, rounded down.
pub proof fn lemma_root_is_unique(n: int, a: int, b: int)
    requires
        is_floor_root(n, a),
        is_floor_root(n, b),
    ensures
        a == b,
{
    if a < b {
        assert((a + 1) * (a + 1) <= b * b) by (nonlinear_arith)
            requires
                0 <= a,
                a + 1 <= b,
        ;
    }
    if b < a {
        assert((b + 1) * (b + 1) <= a * a) by (nonlinear_arith)
            requires
                0 <= b,
                b + 1 <= a,
        ;
    }
}

/// The square root of `n`, rounded down.
pub fn isqrt(n: u64) -> (root: u64)
    requires
        n <= u32::MAX,
    ensures
        is_floor_root(n as int, root as int),
        root == floor_root(n as int),
        root <= 0xffff,
{
    let mut low: u64 = 0;
    let mut high: u64 = 0x1_0000;
    while high - low > 1
        invariant
            low < high <= 0x1_0000,
            low * low <= n < high * high,
        decreases high - low,
    {
        let middle: u64 = low + (high - low) / 2;
        assert(middle * middle <= 0xffff_ffff_ffff) by (nonlinear_arith)
            requires
                0 <= middle <= 0x1_0000,
        ;
        if middle * middle <= n {
            low = middle;
        } else {
            high = middle;
        }
    }
    assert(is_floor_root(n as int, low as int));
    proof {
        lemma_root_is_unique(n as int, low as int, floor_root(n as int));
    }
    low
}

/// The radius that fits a rectangle: at most the given one, and half of either side.
pub fn fit_radius(width: u32, height: u32, radius: u32) -> (fitting: u32)
    ensures
        fitting == fitting_radius(width as int, height as int, radius as int),
        fitting <= radius,
        2 * fitting <= width,
        2 * fitting <= height,
{
    let mut fitting: u32 = radius;
    if width / 2 < fitting {
        fitting = width / 2;
    }
    if height / 2 < fitting {
        fitting = height / 2;
    }
    fitting
}

/// How far a position on a side is from the centre of the corner arc at its end.
fn offset(position: u32, length: u32, radius: u32) -> (offset: Option<i64>)
    requires
        position < length,
        2 * radius <= length,
    ensures
        offset is Some <==> corner_offset(position as int, length as int, radius as int) is Some,
        offset matches Some(d) ==> {
            &&& corner_offset(position as int, length as int, radius as int) == Some(d as int)
            &&& -(radius as int) <= d < radius
        },
{
    if position < radius {
        Some(position as i64 - radius as i64)
    } else if position >= length - radius {
        Some(position as i64 - (length - radius) as i64)
    } else {
        None
    }
}

/// The squared distance of a pixel in a corner region from the centre of the arc there.
pub fn distance2(x: u32, y: u32, width: u32, height: u32, radius: u32) -> (distance2: Option<u64>)
    requires
        x < width,
        y < height,
        2 * radius <= width,
        2 * radius <= height,
        radius <= MAX_RADIUS,
    ensures
        distance2 is Some <==> corner_distance(
            x as int,
            y as int,
            width as int,
            height as int,
            radius as int,
        ) is Some,
        distance2 matches Some(n) ==> {
            &&& corner_distance(x as int, y as int, width as int, height as int, radius as int)
                == Some(n as int)
            &&& n <= 80_000
        },
{
    match (offset(x, width, radius), offset(y, height, radius)) {
        (Some(dx), Some(dy)) => {
            assert(0 <= dx * dx <= 40_000 && 0 <= dy * dy <= 40_000) by (nonlinear_arith)
                requires
                    -200 <= dx <= 200,
                    -200 <= dy <= 200,
            ;
            Some((dx * dx + dy * dy) as u64)
        },
        _ => None,
    }
}

/// Whether a squared distance is in or beyond the feathered edge of an arc.
pub fn feathered(distance2: u64, radius: u32) -> (feathered: bool)
    requires
        distance2 <= 80_000,
        0 < radius <= MAX_RADIUS,
    ensures
        feathered == reaches_feather(distance2 as int, radius as int),
{
    let edge: u64 = 4 * radius as u64 - 3;
    assert(edge * edge <= 640_000) by (nonlinear_arith)
        requires
            0 <= edge <= 800,
    ;
    16 * distance2 > edge * edge
}

/// The exact coverage of a feathered pixel rounds to no less than 0.
proof fn lemma_feather_is_positive(distance2: int, radius: int, root: int)
    requires
        reaches_feather(distance2, radius),
        0 < radius,
        is_floor_root(28900 * distance2, root),
    ensures
        root >= 170 * radius - 128,
        root * root == 28900 * distance2 ==> root >= 170 * radius - 127,
{
    if root * root == 28900 * distance2 && root < 170 * radius - 127 {
        assert(16 * (root * root) <= 28900 * ((4 * radius - 3) * (4 * radius - 3)))
            by (nonlinear_arith)
            requires
                0 <= root <= 170 * radius - 128,
        ;
    }
    if root + 1 <= 170 * radius - 128 {
        let bound = 170 * radius - 128;
        assert((root + 1) * (root + 1) <= bound * bound) by (nonlinear_arith)
            requires
                0 <= root,
                root + 1 <= bound,
        ;
        // 4 * bound < 170 (4 radius - 3), so 16 bound^2 < 28900 (4 radius - 3)^2.
        assert(16 * (bound * bound) <= 28900 * ((4 * radius - 3) * (4 * radius - 3)))
            by (nonlinear_arith)
            requires
                0 < radius,
                bound == 170 * radius - 128,
                1 <= bound,
        ;
    }
}

/// How much of a feathered pixel lies outside an arc, in 255ths.
pub fn coverage_outside(distance2: u64, radius: u32) -> (coverage: u8)
    requires
        distance2 <= 80_000,
        0 < radius <= MAX_RADIUS,
        reaches_feather(distance2 as int, radius as int),
    ensures
        coverage == outside_coverage(distance2 as int, radius as int),
{
    let root: u64 = isqrt(28900 * distance2);
    proof {
        lemma_feather_is_positive(distance2 as int, radius as int, root as int);
    }
    let coverage: u64 = root + 128 - 170 * radius as u64;
    if coverage > 255 {
        255
    } else {
        coverage as u8
    }
}

/// How much of a feathered pixel lies inside an arc, in 255ths.
pub fn coverage_inside(distance2: u64, radius: u32) -> (coverage: u8)
    requires
        distance2 <= 80_000,
        0 < radius <= MAX_RADIUS,
        reaches_feather(distance2 as int, radius as int),
    ensures
        coverage == inside_coverage(distance2 as int, radius as int),
{
    let n: u64 = 28900 * distance2;
    let root: u64 = isqrt(n);
    proof {
        lemma_feather_is_positive(distance2 as int, radius as int, root as int);
        assert(root * root <= 0xffff_ffff) by (nonlinear_arith)
            requires
                0 <= root <= 0xffff,
        ;
    }
    let ceiling: u64 = if root * root == n { root } else { root + 1 };
    let most: u64 = 128 + 170 * radius as u64;
    if ceiling >= most {
        0
    } else {
        (most - ceiling) as u8
    }
}

/// Every natural number has a square root, rounded down.
proof fn lemma_root_exists(n: int)
    requires
        0 <= n,
    ensures
        is_floor_root(n, floor_root(n)),
    decreases n,
{
    if n == 0 {
        assert(is_floor_root(0, 0));
    } else {
        lemma_root_exists(n - 1);
        let root = floor_root(n - 1);
        if (root + 1) * (root + 1) <= n {
            assert((root + 1) * (root + 1) < (root + 2) * (root + 2)) by (nonlinear_arith)
                requires
                    0 <= root,
            ;
            assert(is_floor_root(n, root + 1));
        } else {
            assert(is_floor_root(n, root));
        }
    }
}

/// The square of a residue modulo 170 is a multiple of 170 only for the residue 0.
proof fn lemma_residue(t: u32)
    by (bit_vector)
    requires
        t < 170,
        (t * t) % 170 == 0,
    ensures
        t == 0,
{
}

/// If `28900 n` is a square, its root is a multiple of 170 and `n` is a square itself.
proof fn lemma_whole_root(n: int, root: int)
    requires
        0 <= root,
        root * root == 28900 * n,
    ensures
        root == 170 * (root / 170),
        n == (root / 170) * (root / 170),
{
    let q = root / 170;
    let t = root % 170;
    assert(root * root == 170 * (170 * (q * q) + 2 * (q * t)) + t * t) by (nonlinear_arith)
        requires
            root == 170 * q + t,
    ;
    let u = t as u32;
    assert(0 <= t * t < 28900) by (nonlinear_arith)
        requires
            0 <= t < 170,
    ;
    assert((u * u) % 170 == 0);
    lemma_residue(u);
    assert(root * root == 28900 * (q * q)) by (nonlinear_arith)
        requires
            root == 170 * q,
    ;
}

/// What an arc covers of a feathered pixel and what it leaves make up the whole pixel,
/// except that a pixel whose centre is on the arc is split in halves, both rounded up.
pub proof fn law_coverages_complement(distance2: int, radius: int)
    requires
        0 <= distance2,
        0 < radius,
        reaches_feather(distance2, radius),
    ensures
        distance2 != radius * radius ==> inside_coverage(distance2, radius) + outside_coverage(
            distance2,
            radius,
        ) == 255,
        distance2 == radius * radius ==> inside_coverage(distance2, radius) == 128
            && outside_coverage(distance2, radius) == 128,
{
    let n = 28900 * distance2;
    let root = floor_root(n);
    lemma_root_exists(n);
    if root * root == n {
        lemma_whole_root(distance2, root);
        let d = root / 170;
        if d < radius {
            assert(16 * (d * d) <= (4 * radius - 3) * (4 * radius - 3)) by (nonlinear_arith)
                requires
                    0 <= d,
                    d + 1 <= radius,
            ;
        }
    }
    if distance2 == radius * radius {
        assert((170 * radius) * (170 * radius) == n && n < (170 * radius + 1) * (170 * radius + 1))
            by (nonlinear_arith)
            requires
                n == 28900 * (radius * radius),
                0 < radius,
        ;
        assert(is_floor_root(n, 170 * radius));
        lemma_root_is_unique(n, root, 170 * radius);
    }
}

/// Coverages are 255ths of a pixel.
pub proof fn law_coverage_range(distance2: int, radius: int)
    requires
        0 <= distance2,
        0 < radius,
        reaches_feather(distance2, radius),
    ensures
        0 <= outside_coverage(distance2, radius) <= 255,
        0 <= inside_coverage(distance2, radius) <= 255,
{
    let n = 28900 * distance2;
    lemma_root_exists(n);
    lemma_feather_is_positive(distance2, radius, floor_root(n));
}

/// The feather is a pixel and a half wide: three quarters of a pixel beyond the radius nothing
/// of a pixel is inside the arc.
pub proof fn law_feather_ends(distance2: int, radius: int)
    requires
        0 <= distance2,
        0 < radius,
        16 * distance2 >= (4 * radius + 3) * (4 * radius + 3),
    ensures
        reaches_feather(distance2, radius),
        outside_coverage(distance2, radius) == 255,
        inside_coverage(distance2, radius) == 0,
{
    let n = 28900 * distance2;
    let root = floor_root(n);
    lemma_root_exists(n);
    assert((4 * radius + 3) * (4 * radius + 3) > (4 * radius - 3) * (4 * radius - 3))
        by (nonlinear_arith)
        requires
            0 < radius,
    ;
    let bound = 170 * radius + 127;
    assert(16 * n > (4 * bound) * (4 * bound)) by (nonlinear_arith)
        requires
            n == 28900 * distance2,
            16 * distance2 >= (4 * radius + 3) * (4 * radius + 3),
            bound == 170 * radius + 127,
            0 <= radius,
    ;
    assert(n > bound * bound) by (nonlinear_arith)
        requires
            16 * n > (4 * bound) * (4 * bound),
    ;
    if root < bound {
        assert((root + 1) * (root + 1) <= bound * bound) by (nonlinear_arith)
            requires
                0 <= root,
                root + 1 <= bound,
        ;
    }
}

/// Farther out, no less of a pixel lies outside the arc.
pub proof fn law_coverage_grows(near: int, far: int, radius: int)
    requires
        0 <= near <= far,
    ensures
        outside_coverage(near, radius) <= outside_coverage(far, radius),
        reaches_feather(near, radius) ==> reaches_feather(far, radius),
{
    let (a, b) = (floor_root(28900 * near), floor_root(28900 * far));
    lemma_root_exists(28900 * near);
    lemma_root_exists(28900 * far);
    if b + 1 <= a {
        assert((b + 1) * (b + 1) <= a * a) by (nonlinear_arith)
            requires
                0 <= b,
                b + 1 <= a,
        ;
    }
}

/// A rectangle has four corners: a pixel is in one where it is within the radius of an end of
/// either side.
pub proof fn law_corners_are_at_the_ends(x: int, y: int, width: int, height: int, radius: int)
    requires
        0 <= radius,
        2 * radius <= width,
        2 * radius <= height,
    ensures
        corner_distance(x, y, width, height, radius) is Some <==> {
            &&& x < radius || x >= width - radius
            &&& y < radius || y >= height - radius
        },
{
}

/// All four corners are alike: so far from the centre of its arc, across and down, a pixel is
/// at the same distance in each of them, by Pythagoras.
pub proof fn law_corners_are_alike(
    across: int,
    down: int,
    width: int,
    height: int,
    radius: int,
)
    requires
        0 < across < radius,
        0 < down < radius,
        2 * radius <= width,
        2 * radius <= height,
    ensures
        ({
            let (left, right) = (radius - across, width - radius + across);
            let (top, bottom) = (radius - down, height - radius + down);
            let squared = Some(across * across + down * down);
            &&& corner_distance(left, top, width, height, radius) == squared
            &&& corner_distance(right, top, width, height, radius) == squared
            &&& corner_distance(left, bottom, width, height, radius) == squared
            &&& corner_distance(right, bottom, width, height, radius) == squared
        }),
{
    assert((-across) * (-across) == across * across && (-down) * (-down) == down * down)
        by (nonlinear_arith);
}

/// At the outer edges of the rectangle a pixel is a whole radius from the centre of its arc
/// on the left and at the top; at the inner edges of the corners on the right and at the
/// bottom it is level with the centre.
pub proof fn law_corners_reach_the_edges(x: int, y: int, width: int, height: int, radius: int)
    requires
        0 < radius,
        2 * radius <= width,
        2 * radius <= height,
        0 <= x < width,
        0 <= y < height,
    ensures
        corner_distance(x, y, width, height, radius) matches Some(n) ==> {
            let across = if x < radius {
                radius - x
            } else {
                x - (width - radius)
            };
            let down = if y < radius {
                radius - y
            } else {
                y - (height - radius)
            };
            n == across * across + down * down && 0 <= across <= radius && 0 <= down <= radius
        },
{
    let across = radius - x;
    let down = radius - y;
    assert((-across) * (-across) == across * across && (-down) * (-down) == down * down)
        by (nonlinear_arith);
}

/// The radius that fits is the largest that is neither above the given one nor above half of
/// a side.
pub proof fn law_fitting_radius_is_the_largest(width: int, height: int, radius: int, other: int)
    requires
        0 <= width,
        0 <= height,
        0 <= radius,
    ensures
        0 <= fitting_radius(width, height, radius) <= radius,
        2 * fitting_radius(width, height, radius) <= width,
        2 * fitting_radius(width, height, radius) <= height,
        other <= radius && 2 * other <= width && 2 * other <= height ==> other <= fitting_radius(
            width,
            height,
            radius,
        ),
{
}

/// A pixel a whole pixel inside the arc is left alone, and one on the arc or beyond it is not.
pub proof fn law_feather_is_at_the_arc(distance2: int, radius: int)
    requires
        0 < radius,
        0 <= distance2,
    ensures
        distance2 <= (radius - 1) * (radius - 1) ==> !reaches_feather(distance2, radius),
        distance2 >= radius * radius ==> reaches_feather(distance2, radius),
{
    assert(16 * ((radius - 1) * (radius - 1)) <= (4 * radius - 3) * (4 * radius - 3))
        by (nonlinear_arith)
        requires
            0 < radius,
    ;
    assert(16 * (radius * radius) > (4 * radius - 3) * (4 * radius - 3)) by (nonlinear_arith)
        requires
            0 < radius,
    ;
}

/// A feathered pixel is covered in proportion to how far it is from the inner edge of the
/// feather, three quarters of a pixel inside the radius, a pixel and a half covering it
/// whole. With `d` the distance, the coverage is within one half of
/// `255 (d - (radius - 3/4)) / (3/2)`, which is stated here without root and fraction.
pub proof fn law_coverage_goes_by_distance(distance2: int, radius: int)
    requires
        0 <= distance2,
        0 < radius,
        reaches_feather(distance2, radius),
        outside_coverage(distance2, radius) < 255,
    ensures
        ({
            let lowest = 340 * radius - 255 + 2 * outside_coverage(distance2, radius) - 1;
            let highest = lowest + 2;
            &&& 0 <= lowest
            &&& lowest * lowest <= 115_600 * distance2 < highest * highest
        }),
{
    let n = 28900 * distance2;
    let root = floor_root(n);
    lemma_root_exists(n);
    lemma_feather_is_positive(distance2, radius, root);
    let lowest = 340 * radius - 255 + 2 * outside_coverage(distance2, radius) - 1;
    assert(lowest == 2 * root);
    assert((2 * root) * (2 * root) == 4 * (root * root) && (2 * root + 2) * (2 * root + 2) == 4 * ((
    root + 1) * (root + 1))) by (nonlinear_arith);
}

/// The feather starts three quarters of a pixel inside the radius.
pub proof fn law_feather_starts(quarters: int, distance2: int, radius: int)
    requires
        0 < radius,
        0 <= quarters,
        16 * distance2 == quarters * quarters,
    ensures
        reaches_feather(distance2, radius) <==> quarters > 4 * radius - 3,
{
    let edge = 4 * radius - 3;
    if quarters > edge {
        assert(quarters * quarters > edge * edge) by (nonlinear_arith)
            requires
                quarters > edge,
                edge > 0,
        ;
    } else {
        assert(quarters * quarters <= edge * edge) by (nonlinear_arith)
            requires
                0 <= quarters <= edge,
        ;
    }
}

} // verus!
