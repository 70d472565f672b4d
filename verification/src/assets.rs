//! The assets of a composition that are the same in every frame: the canvas with its
//! shadow, the corner frame and the corner mask.
use crate::color;
use crate::corners;
use crate::corners::MAX_RADIUS;
use crate::raster;
use crate::raster::{Painter, Rgba, RgbaImage, GrayImage};
use vstd::prelude::*;

verus! {

/// The shadow is drawn at one over this of the canvas resolution.
pub const SHADOW_SCALE: u32 = 4;

/// How far below the recording its shadow lies, in shadow pixels (8 canvas pixels).
pub const SHADOW_DROP: u32 = 2;

/// How much larger than a corner of the recording the corner of its shadow is.
pub const SHADOW_SPREAD: u32 = 2;

/// The opacity of the shadow: 45 percent.
pub const SHADOW_ALPHA: u8 = 115;

/// The standard deviation of the blur that softens the shadow, in shadow pixels.
pub const SHADOW_SIGMA: u8 = 3;

/// A length on the canvas in shadow pixels, rounded to the nearest.
pub open spec fn in_shadow_pixels(length: int) -> int {
    (length + 2) / 4
}

/// One side of the canvas in shadow pixels; a shadow is never empty.
pub open spec fn shadow_side(side: u32) -> u32 {
    if side < SHADOW_SCALE {
        1
    } else {
        side / SHADOW_SCALE
    }
}

/// The rectangle that a recording takes up.
#[derive(Clone, Copy, Debug, PartialEq, Eq, Structural)]
pub struct Frame {
    pub x: u32,
    pub y: u32,
    pub width: u32,
    pub height: u32,
}

impl Frame {
    /// Whether a pixel is in the rectangle.
    pub open spec fn holds(self, x: int, y: int) -> bool {
        self.x <= x < self.x + self.width && self.y <= y < self.y + self.height
    }

    /// The squared distance of a pixel in a rounded corner from the centre of its arc.
    pub open spec fn distance2(self, x: int, y: int, radius: int) -> Option<int> {
        corners::corner_distance(
            x - self.x,
            y - self.y,
            self.width as int,
            self.height as int,
            radius,
        )
    }

    /// The largest radius that the corners can be rounded with.
    pub open spec fn radius(self, corner_radius: int) -> int {
        corners::fitting_radius(self.width as int, self.height as int, corner_radius)
    }

    /// Whether a pixel is in the rectangle.
    pub fn contains(&self, x: u32, y: u32) -> (held: bool)
        ensures
            held == self.holds(x as int, y as int),
    {
        x >= self.x && x - self.x < self.width && y >= self.y && y - self.y < self.height
    }
}

/// The rectangle of a recording, lowered, in shadow pixels.
pub open spec fn shadow_frame(video: Frame) -> Frame {
    Frame {
        x: in_shadow_pixels(video.x as int) as u32,
        y: (in_shadow_pixels(video.y as int) + SHADOW_DROP) as u32,
        width: in_shadow_pixels(video.width as int) as u32,
        height: in_shadow_pixels(video.height as int) as u32,
    }
}

/// The corner radius of a shadow, in shadow pixels.
pub open spec fn shadow_radius(video: Frame, corner_radius: int) -> int {
    shadow_frame(video).radius(
        in_shadow_pixels(corners::min(corner_radius, MAX_RADIUS as int)) + SHADOW_SPREAD,
    )
}

/// The colour of a shadow pixel before the blur: a filled rounded rectangle.
pub open spec fn shadow_color(video: Frame, corner_radius: int, x: int, y: int) -> Rgba {
    let frame = shadow_frame(video);
    let radius = shadow_radius(video, corner_radius);
    let cut = match frame.distance2(x, y, radius) {
        Some(n) => n > radius * radius,
        None => false,
    };
    if frame.holds(x, y) && !cut {
        Rgba { r: 0, g: 0, b: 0, a: SHADOW_ALPHA }
    } else {
        Rgba::spec_clear()
    }
}

/// The packed pixels of a shadow before the blur.
pub open spec fn shadow_stamp_bytes(
    canvas_w: u32,
    canvas_h: u32,
    video: Frame,
    corner_radius: int,
) -> Seq<u8> {
    raster::painted(
        shadow_side(canvas_w) as int,
        shadow_side(canvas_h) as int,
        |x: int, y: int| shadow_color(video, corner_radius, x, y),
    )
}

/// Whether a recording is too small to show at shadow resolution.
pub open spec fn casts_nothing(video: Frame) -> bool {
    shadow_frame(video).width == 0 || shadow_frame(video).height == 0
}

/// Whether a recording lies so far to the right or below that its shadow is not on the canvas.
pub open spec fn misses(video: Frame, canvas_w: u32, canvas_h: u32) -> bool {
    shadow_frame(video).x >= shadow_side(canvas_w) || shadow_frame(video).y >= shadow_side(canvas_h)
}

/// Whether a raster is a shadow for the canvas: the rounded rectangle, blurred at shadow
/// resolution and scaled back up. It is black, nowhere darker than the rectangle, and
/// transparent without one.
pub open spec fn is_shadow(
    shadow: RgbaImage,
    canvas_w: u32,
    canvas_h: u32,
    video: Frame,
    corner_radius: int,
) -> bool {
    let (w, h) = (shadow_side(canvas_w), shadow_side(canvas_h));
    &&& shadow.wf()
    &&& shadow.width == canvas_w
    &&& shadow.height == canvas_h
    &&& shadow.is_black()
    &&& shadow.channel_within(3, SHADOW_ALPHA as int)
    &&& casts_nothing(video) || misses(video, canvas_w, canvas_h) ==> shadow.channel_within(3, 0)
    &&& exists|blurred: Seq<u8>| #[trigger]
        raster::blur_outcome(
            w,
            h,
            shadow_stamp_bytes(canvas_w, canvas_h, video, corner_radius),
            SHADOW_SIGMA,
            blurred,
        ) && shadow.data@ == raster::triangle_resized(w, h, blurred, canvas_w, canvas_h)
}

/// The colour of a pixel of the corner frame: the background where a rounded corner cuts
/// the recording off, feathered at the arc, and transparent elsewhere.
pub open spec fn corner_frame_color(
    video: Frame,
    corner_radius: int,
    background: (u8, u8, u8),
    x: int,
    y: int,
) -> Rgba {
    let radius = video.radius(corners::min(corner_radius, MAX_RADIUS as int));
    match video.distance2(x, y, radius) {
        Some(n) => if video.holds(x, y) && corners::reaches_feather(n, radius) {
            Rgba {
                r: background.0,
                g: background.1,
                b: background.2,
                a: corners::outside_coverage(n, radius) as u8,
            }
        } else {
            Rgba::spec_clear()
        },
        None => Rgba::spec_clear(),
    }
}

/// The value of a pixel of the corner mask: white inside the rounded rectangle, black
/// outside, feathered at the arc.
pub open spec fn corner_mask_value(width: int, height: int, corner_radius: int, x: int, y: int) -> int {
    let radius = corners::fitting_radius(width, height, corners::min(corner_radius, MAX_RADIUS as int));
    match corners::corner_distance(x, y, width, height, radius) {
        Some(n) => if corners::reaches_feather(n, radius) {
            corners::inside_coverage(n, radius)
        } else {
            255
        },
        None => 255,
    }
}

/// Whether a canvas of this size can be filled, and, if it has a shadow, whether the
/// shadow can be scaled up to it.
pub open spec fn canvas_fits(canvas_w: u32, canvas_h: u32, shadow: bool) -> bool {
    if shadow {
        &&& canvas_w <= 0x40_0000
        &&& canvas_h <= 0x40_0000
        &&& raster::fits(shadow_side(canvas_w) as int, canvas_h as int, 16)
        &&& raster::fits(canvas_w as int, canvas_h as int, 4)
    } else {
        raster::fits(canvas_w as int, canvas_h as int, 4)
    }
}

/// Whether a canvas of this size can be filled: what a caller that does not know tests before
/// it generates one.
pub fn can_fill(canvas_w: u32, canvas_h: u32, shadow: bool) -> (fits: bool)
    ensures
        fits == canvas_fits(canvas_w, canvas_h, shadow),
{
    let most: u128 = isize::MAX as u128;
    let (w, h): (u128, u128) = (canvas_w as u128, canvas_h as u128);
    assert(0 <= w * h <= 0x1_0000_0000 * 0x1_0000_0000) by (nonlinear_arith)
        requires
            0 <= w <= 0x1_0000_0000,
            0 <= h <= 0x1_0000_0000,
    ;
    if !shadow {
        return 4 * (w * h) <= most;
    }
    let side: u128 = if canvas_w < SHADOW_SCALE { 1 } else { (canvas_w / SHADOW_SCALE) as u128 };
    assert(0 <= side * h <= 0x1_0000_0000 * 0x1_0000_0000) by (nonlinear_arith)
        requires
            0 <= side <= 0x1_0000_0000,
            0 <= h <= 0x1_0000_0000,
    ;
    canvas_w <= 0x40_0000 && canvas_h <= 0x40_0000 && 16 * (side * h) <= most && 4 * (w * h) <= most
}

struct Solid {
    color: Rgba,
}

impl Painter for Solid {
    closed spec fn ready(&self) -> bool {
        true
    }

    closed spec fn color_at(&self, x: int, y: int) -> Rgba {
        self.color
    }

    fn color(&self, x: u32, y: u32) -> (color: Rgba) {
        self.color
    }
}

struct ShadowStamp {
    frame: Frame,
    radius: u32,
    video: Ghost<Frame>,
    corner_radius: Ghost<int>,
}

impl Painter for ShadowStamp {
    closed spec fn ready(&self) -> bool {
        &&& self.frame == shadow_frame(self.video@)
        &&& self.radius == shadow_radius(self.video@, self.corner_radius@)
        &&& 2 * self.radius <= self.frame.width
        &&& 2 * self.radius <= self.frame.height
        &&& self.radius <= MAX_RADIUS
    }

    closed spec fn color_at(&self, x: int, y: int) -> Rgba {
        shadow_color(self.video@, self.corner_radius@, x, y)
    }

    fn color(&self, x: u32, y: u32) -> (color: Rgba) {
        if !self.frame.contains(x, y) {
            return Rgba::clear();
        }
        let frame = self.frame;
        match corners::distance2(x - frame.x, y - frame.y, frame.width, frame.height, self.radius) {
            Some(n) => {
                assert(self.radius * self.radius <= 40_000) by (nonlinear_arith)
                    requires
                        0 <= self.radius <= 200,
                ;
                if n > self.radius as u64 * self.radius as u64 {
                    return Rgba::clear();
                }
            },
            None => {},
        }
        Rgba { r: 0, g: 0, b: 0, a: SHADOW_ALPHA }
    }
}

struct CornerFrame {
    video: Frame,
    radius: u32,
    background: (u8, u8, u8),
    corner_radius: Ghost<int>,
}

impl Painter for CornerFrame {
    closed spec fn ready(&self) -> bool {
        &&& self.radius == self.video.radius(corners::min(self.corner_radius@, MAX_RADIUS as int))
        &&& 2 * self.radius <= self.video.width
        &&& 2 * self.radius <= self.video.height
        &&& self.radius <= MAX_RADIUS
    }

    closed spec fn color_at(&self, x: int, y: int) -> Rgba {
        corner_frame_color(self.video, self.corner_radius@, self.background, x, y)
    }

    fn color(&self, x: u32, y: u32) -> (color: Rgba) {
        if !self.video.contains(x, y) {
            return Rgba::clear();
        }
        let video = self.video;
        match corners::distance2(x - video.x, y - video.y, video.width, video.height, self.radius) {
            Some(n) if corners::feathered(n, self.radius) => Rgba {
                r: self.background.0,
                g: self.background.1,
                b: self.background.2,
                a: corners::coverage_outside(n, self.radius),
            },
            _ => Rgba::clear(),
        }
    }
}

/// A length on the canvas in shadow pixels, rounded to the nearest.
fn to_shadow_pixels(length: u32) -> (scaled: u32)
    ensures
        scaled == in_shadow_pixels(length as int),
{
    ((length as u64 + 2) / 4) as u32
}

fn at_most(value: u32, limit: u32) -> (least: u32)
    ensures
        least == corners::min(value as int, limit as int),
{
    if value <= limit {
        value
    } else {
        limit
    }
}

/// Draws the shadow of a recording at shadow resolution: a filled rounded rectangle.
pub fn generate_shadow_stamp(
    canvas_w: u32,
    canvas_h: u32,
    video: Frame,
    corner_radius: u32,
) -> (stamp: RgbaImage)
    requires
        raster::fits(shadow_side(canvas_w) as int, shadow_side(canvas_h) as int, 4),
    ensures
        stamp.wf(),
        stamp.width == shadow_side(canvas_w),
        stamp.height == shadow_side(canvas_h),
        stamp.shows(|x: int, y: int| shadow_color(video, corner_radius as int, x, y)),
        stamp.data@ == shadow_stamp_bytes(canvas_w, canvas_h, video, corner_radius as int),
        stamp.is_black(),
        stamp.channel_within(3, SHADOW_ALPHA as int),
        casts_nothing(video) || misses(video, canvas_w, canvas_h) ==> stamp.channel_within(3, 0),
{
    let frame = Frame {
        x: to_shadow_pixels(video.x),
        y: to_shadow_pixels(video.y) + SHADOW_DROP,
        width: to_shadow_pixels(video.width),
        height: to_shadow_pixels(video.height),
    };
    let spread: u32 = to_shadow_pixels(at_most(corner_radius, MAX_RADIUS)) + SHADOW_SPREAD;
    let radius: u32 = corners::fit_radius(frame.width, frame.height, spread);
    let painter = ShadowStamp {
        frame,
        radius,
        video: Ghost(video),
        corner_radius: Ghost(corner_radius as int),
    };
    let w: u32 = if canvas_w < SHADOW_SCALE { 1 } else { canvas_w / SHADOW_SCALE };
    let h: u32 = if canvas_h < SHADOW_SCALE { 1 } else { canvas_h / SHADOW_SCALE };
    let stamp = raster::paint(w, h, &painter);
    proof {
        let color = |x: int, y: int| shadow_color(video, corner_radius as int, x, y);
        assert(stamp.shows(color)) by {
            assert forall|x: int, y: int| 0 <= x < w && 0 <= y < h implies #[trigger] stamp.pixel(
                x,
                y,
            ) == color(x, y) by {}
        }
        raster::lemma_shows_is_painted(stamp, color);
        assert forall|i: int| 0 <= i < stamp.data@.len() implies #[trigger] stamp.data@[i] <= if i
            % 4 == 3 && !casts_nothing(video) && !misses(video, canvas_w, canvas_h) {
            SHADOW_ALPHA as int
        } else {
            0
        } by {
            let p = i / 4;
            raster::lemma_coordinates(p, w as int, h as int);
            assert(stamp.data@[i] == raster::channel(color(p % (w as int), p / (w as int)), i % 4));
        }
    }
    stamp
}

/// Generates a canvas-sized shadow, mostly transparent.
///
/// The rounded rectangle is drawn and blurred at a quarter of the resolution and then
/// scaled up. What the blur makes of it is the outside world's; everything handed to it,
/// and everything done with its outcome, is fixed.
pub fn generate_shadow_image(
    canvas_w: u32,
    canvas_h: u32,
    video: Frame,
    corner_radius: u32,
) -> (shadow: RgbaImage)
    requires
        canvas_fits(canvas_w, canvas_h, true),
    ensures
        is_shadow(shadow, canvas_w, canvas_h, video, corner_radius as int),
{
    proof {
        let (w, h) = (shadow_side(canvas_w) as int, shadow_side(canvas_h) as int);
        assert(w * h <= w * canvas_h || (canvas_h == 0 && h == 1)) by (nonlinear_arith)
            requires
                0 < w,
                h <= canvas_h || (canvas_h == 0 && h == 1),
        ;
        assert(w * 1 == w);
    }
    let stamp = generate_shadow_stamp(canvas_w, canvas_h, video, corner_radius);
    let blurred = raster::blur(&stamp, SHADOW_SIGMA);
    let shadow = raster::resize(&blurred, canvas_w, canvas_h);
    proof {
        if canvas_w == 0 || canvas_h == 0 {
            assert(shadow.data@.len() == 0) by (nonlinear_arith)
                requires
                    shadow.data@.len() == 4 * (canvas_w * canvas_h),
                    canvas_w == 0 || canvas_h == 0,
            ;
        } else {
            assert(stamp.channel_within(0, 0) && stamp.channel_within(1, 0) && stamp.channel_within(
                2,
                0,
            ));
            assert(blurred.channel_within(0, 0) && blurred.channel_within(1, 0)
                && blurred.channel_within(2, 0) && blurred.channel_within(3, SHADOW_ALPHA as int));
            assert(casts_nothing(video) || misses(video, canvas_w, canvas_h)
                ==> blurred.channel_within(3, 0));
        }
    }
    shadow
}

/// Casts a shadow onto a canvas of one colour.
pub fn shade_canvas(background: (u8, u8, u8), shadow: &RgbaImage) -> (canvas: RgbaImage)
    requires
        shadow.wf(),
        raster::fits(shadow.width as int, shadow.height as int, 4),
    ensures
        canvas.wf(),
        canvas.width == shadow.width,
        canvas.height == shadow.height,
        canvas.shows(
            |x: int, y: int|
                raster::alpha_blended(
                    (Rgba { r: background.0, g: background.1, b: background.2, a: 255 }),
                    shadow.pixel(x, y),
                ),
        ),
        forall|x: int, y: int|
            0 <= x < canvas.width && 0 <= y < canvas.height && shadow.pixel(x, y).a == 0
                ==> #[trigger] canvas.pixel(x, y) == (Rgba {
                r: background.0,
                g: background.1,
                b: background.2,
                a: 255,
            }),
{
    let color = Rgba { r: background.0, g: background.1, b: background.2, a: 255 };
    let solid = raster::paint(shadow.width, shadow.height, &Solid { color });
    let canvas = raster::overlay(&solid, shadow);
    assert forall|x: int, y: int| 0 <= x < canvas.width && 0 <= y < canvas.height implies (
    #[trigger] canvas.pixel(x, y)) == raster::alpha_blended(color, shadow.pixel(x, y)) && (shadow.pixel(
        x,
        y,
    ).a == 0 ==> canvas.pixel(x, y) == color) by {
        assert(solid.pixel(x, y) == color);
    }
    canvas
}

/// Generates a canvas-sized raster with a solid background and an optional shadow.
pub fn generate_canvas_image(
    canvas_w: u32,
    canvas_h: u32,
    video_x: u32,
    video_y: u32,
    video_w: u32,
    video_h: u32,
    bg_color_hex: &str,
    corner_radius: u32,
    shadow: bool,
) -> (canvas: Result<RgbaImage, String>)
    requires
        color::pieces_are_whole(bg_color_hex@),
        canvas_fits(canvas_w, canvas_h, shadow),
    ensures
        canvas is Ok <==> color::color_of(bg_color_hex@) is Some,
        canvas matches Err(message) ==> message@ == color::color_error(bg_color_hex@),
        canvas matches Ok(image) ==> {
            let rgb = color::color_of(bg_color_hex@)->0;
            let video = Frame { x: video_x, y: video_y, width: video_w, height: video_h };
            let background = Rgba { r: rgb.0, g: rgb.1, b: rgb.2, a: 255 };
            &&& image.wf()
            &&& image.width == canvas_w
            &&& image.height == canvas_h
            &&& !shadow ==> image.shows(|x: int, y: int| background)
            &&& shadow ==> exists|cast: RgbaImage| #[trigger]
                is_shadow(cast, canvas_w, canvas_h, video, corner_radius as int) && image.shows(
                    |x: int, y: int| raster::alpha_blended(background, cast.pixel(x, y)),
                )
            &&& shadow && casts_nothing(video) ==> image.shows(|x: int, y: int| background)
            &&& shadow && (video_x >= canvas_w + 8 || video_y >= canvas_h + 8) ==> image.shows(
                |x: int, y: int| background,
            )
        },
{
    let rgb = match color::parse_hex_color(bg_color_hex) {
        Ok(rgb) => rgb,
        Err(message) => return Err(message),
    };
    if shadow {
        let video = Frame { x: video_x, y: video_y, width: video_w, height: video_h };
        let cast = generate_shadow_image(canvas_w, canvas_h, video, corner_radius);
        let image = shade_canvas(rgb, &cast);
        proof {
            let background = Rgba { r: rgb.0, g: rgb.1, b: rgb.2, a: 255 };
            assert(is_shadow(cast, canvas_w, canvas_h, video, corner_radius as int));
            assert(image.shows(|x: int, y: int| raster::alpha_blended(background, cast.pixel(x, y))));
            if casts_nothing(video) || misses(video, canvas_w, canvas_h) {
                assert forall|x: int, y: int|
                    0 <= x < canvas_w && 0 <= y < canvas_h implies #[trigger] image.pixel(x, y)
                    == background by {
                    raster::lemma_index(x, y, canvas_w as int, canvas_h as int);
                    assert(cast.data@[4 * (y * canvas_w + x) + 3] == 0);
                    assert(cast.pixel(x, y).a == 0);
                }
            }
        }
        Ok(image)
    } else {
        let color = Rgba { r: rgb.0, g: rgb.1, b: rgb.2, a: 255 };
        Ok(raster::paint(canvas_w, canvas_h, &Solid { color }))
    }
}

/// Generates a corner frame: a canvas-sized overlay that paints the background over the
/// corners of the recording.
pub fn generate_corner_frame(
    canvas_w: u32,
    canvas_h: u32,
    video_x: u32,
    video_y: u32,
    video_w: u32,
    video_h: u32,
    bg_color_hex: &str,
    corner_radius: u32,
) -> (frame: Result<RgbaImage, String>)
    requires
        color::pieces_are_whole(bg_color_hex@),
        raster::fits(canvas_w as int, canvas_h as int, 4),
        canvas_w <= i32::MAX,
        canvas_h <= i32::MAX,
        video_x + video_w <= i32::MAX,
        video_y + video_h <= i32::MAX,
    ensures
        frame is Ok <==> color::color_of(bg_color_hex@) is Some,
        frame matches Err(message) ==> message@ == color::color_error(bg_color_hex@),
        frame matches Ok(image) ==> {
            let rgb = color::color_of(bg_color_hex@)->0;
            let video = Frame { x: video_x, y: video_y, width: video_w, height: video_h };
            &&& image.wf()
            &&& image.width == canvas_w
            &&& image.height == canvas_h
            &&& image.shows(
                |x: int, y: int| corner_frame_color(video, corner_radius as int, rgb, x, y),
            )
        },
        frame matches Ok(image) ==> forall|x: int, y: int|
            0 <= x < canvas_w && 0 <= y < canvas_h && !(video_x <= x < video_x + video_w && video_y
                <= y < video_y + video_h) ==> (#[trigger] image.pixel(x, y)).a == 0,
        frame matches Ok(image) ==> (corner_radius >= 6 && video_w >= 12 && video_h >= 12
            ==> forall|x: int, y: int|
            0 <= x < canvas_w && 0 <= y < canvas_h && (x == video_x || x == video_x + video_w - 1)
                && (y == video_y || y == video_y + video_h - 1) ==> (#[trigger] image.pixel(x, y)).a
                == 255),
{
    let background = match color::parse_hex_color(bg_color_hex) {
        Ok(rgb) => rgb,
        Err(message) => return Err(message),
    };
    let video = Frame { x: video_x, y: video_y, width: video_w, height: video_h };
    let radius: u32 = corners::fit_radius(video_w, video_h, at_most(corner_radius, MAX_RADIUS));
    let painter = CornerFrame {
        video,
        radius,
        background,
        corner_radius: Ghost(corner_radius as int),
    };
    let image = raster::paint(canvas_w, canvas_h, &painter);
    assert(image.shows(
        |x: int, y: int| corner_frame_color(video, corner_radius as int, background, x, y),
    )) by {
        assert forall|x: int, y: int|
            0 <= x < canvas_w && 0 <= y < canvas_h implies #[trigger] image.pixel(x, y)
            == corner_frame_color(video, corner_radius as int, background, x, y) by {}
    }
    proof {
        if corner_radius >= 6 && video_w >= 12 && video_h >= 12 {
            let r = radius as int;
            lemma_outermost_pixels_are_beyond(r);
            law_corner_frame_covers_the_corners(
                video, corner_radius as int, r, background, false, false, r, r,
            );
            law_corner_frame_covers_the_corners(
                video, corner_radius as int, r, background, true, false, r - 1, r,
            );
            law_corner_frame_covers_the_corners(
                video, corner_radius as int, r, background, false, true, r, r - 1,
            );
            law_corner_frame_covers_the_corners(
                video, corner_radius as int, r, background, true, true, r - 1, r - 1,
            );
        }
    }
    Ok(image)
}

/// Generates a greyscale corner mask of the recording's size.
pub fn generate_corner_mask(video_w: u32, video_h: u32, corner_radius: u32) -> (mask: GrayImage)
    requires
        raster::fits(video_w as int, video_h as int, 1),
        video_w <= i32::MAX,
        video_h <= i32::MAX,
    ensures
        mask.wf(),
        mask.width == video_w,
        mask.height == video_h,
        forall|x: int, y: int|
            0 <= x < video_w && 0 <= y < video_h ==> #[trigger] mask.value(x, y)
                == corner_mask_value(video_w as int, video_h as int, corner_radius as int, x, y),
        corner_radius >= 6 && video_w >= 12 && video_h >= 12 ==> forall|x: int, y: int|
            (x == 0 || x == video_w - 1) && (y == 0 || y == video_h - 1) ==> #[trigger] mask.value(
                x,
                y,
            ) == 0,
{
    let radius: u32 = corners::fit_radius(video_w, video_h, at_most(corner_radius, MAX_RADIUS));
    let ghost value = |x: int, y: int|
        corner_mask_value(video_w as int, video_h as int, corner_radius as int, x, y);
    let mut data: Vec<u8> = Vec::new();
    let mut y: u32 = 0;
    while y < video_h
        invariant
            y <= video_h,
            radius == corners::fitting_radius(
                video_w as int,
                video_h as int,
                corners::min(corner_radius as int, MAX_RADIUS as int),
            ),
            radius <= MAX_RADIUS,
            2 * radius <= video_w,
            2 * radius <= video_h,
            value == (|x: int, y: int|
                corner_mask_value(video_w as int, video_h as int, corner_radius as int, x, y)),
            data@.len() == y * video_w,
            forall|px: int, py: int|
                0 <= px < video_w && 0 <= py < y ==> #[trigger] data@[py * video_w + px] == value(
                    px,
                    py,
                ),
        decreases video_h - y,
    {
        let mut x: u32 = 0;
        proof {
            assert((y + 1) * video_w == y * video_w + video_w) by (nonlinear_arith);
        }
        while x < video_w
            invariant
                y < video_h,
                x <= video_w,
                radius == corners::fitting_radius(
                    video_w as int,
                    video_h as int,
                    corners::min(corner_radius as int, MAX_RADIUS as int),
                ),
                radius <= MAX_RADIUS,
                2 * radius <= video_w,
                2 * radius <= video_h,
                value == (|x: int, y: int|
                    corner_mask_value(video_w as int, video_h as int, corner_radius as int, x, y)),
                data@.len() == y * video_w + x,
                forall|px: int, py: int|
                    0 <= px < video_w && 0 <= py < y ==> #[trigger] data@[py * video_w + px]
                        == value(px, py),
                forall|px: int|
                    0 <= px < x ==> #[trigger] data@[y * video_w + px] == value(px, y as int),
            decreases video_w - x,
        {
            let ghost before = data@;
            let covered: u8 = match corners::distance2(x, y, video_w, video_h, radius) {
                Some(n) if corners::feathered(n, radius) => corners::coverage_inside(n, radius),
                _ => 255,
            };
            data.push(covered);
            proof {
                assert forall|px: int, py: int|
                    0 <= px < video_w && 0 <= py < y implies #[trigger] data@[py * video_w + px]
                    == value(px, py) by {
                    raster::lemma_index(px, py, video_w as int, y as int);
                    assert(video_w * y == y * video_w) by (nonlinear_arith);
                    assert(before[py * video_w + px] == value(px, py));
                }
                assert forall|px: int| 0 <= px < x + 1 implies #[trigger] data@[y * video_w + px]
                    == value(px, y as int) by {
                    assert(0 <= y * video_w) by (nonlinear_arith);
                    if px < x {
                        assert(before[y * video_w + px] == value(px, y as int));
                    }
                }
            }
            x += 1;
        }
        y += 1;
    }
    proof {
        assert(video_h * video_w == video_w * video_h) by (nonlinear_arith);
        if corner_radius >= 6 && video_w >= 12 && video_h >= 12 {
            let r = radius as int;
            let cr = corner_radius as int;
            lemma_outermost_pixels_are_beyond(r);
            law_mask_rounds_the_corners(video_w, video_h, cr, r, false, false, r, r);
            law_mask_rounds_the_corners(video_w, video_h, cr, r, true, false, r - 1, r);
            law_mask_rounds_the_corners(video_w, video_h, cr, r, false, true, r, r - 1);
            law_mask_rounds_the_corners(video_w, video_h, cr, r, true, true, r - 1, r - 1);
        }
    }
    GrayImage { width: video_w, height: video_h, data }
}

/// A corner frame is transparent outside the recording, wherever the recording lies.
pub proof fn law_frame_is_clear_outside(
    video: Frame,
    corner_radius: int,
    background: (u8, u8, u8),
    x: int,
    y: int,
)
    requires
        !video.holds(x, y),
    ensures
        corner_frame_color(video, corner_radius, background, x, y) == Rgba::spec_clear(),
{
}

/// The mask keeps of every pixel of the recording what the corner frame leaves of it, except
/// that a pixel whose centre is on the arc is split in halves, both rounded up.
pub proof fn law_mask_completes_frame(
    video: Frame,
    corner_radius: u32,
    background: (u8, u8, u8),
    x: int,
    y: int,
)
    requires
        video.holds(x, y),
    ensures
        ({
            let radius = video.radius(corners::min(corner_radius as int, MAX_RADIUS as int));
            let on_arc = video.distance2(x, y, radius) == Some(radius * radius);
            let hidden = corner_frame_color(video, corner_radius as int, background, x, y).a;
            let kept = corner_mask_value(
                video.width as int,
                video.height as int,
                corner_radius as int,
                x - video.x,
                y - video.y,
            );
            &&& !on_arc ==> hidden + kept == 255
            &&& on_arc ==> hidden == 128 && kept == 128
        }),
{
    let radius = video.radius(corners::min(corner_radius as int, MAX_RADIUS as int));
    let (width, height) = (video.width as int, video.height as int);
    if let Some(n) = video.distance2(x, y, radius) {
        let dx = corners::corner_offset(x - video.x, width, radius)->0;
        let dy = corners::corner_offset(y - video.y, height, radius)->0;
        assert(0 <= dx * dx && 0 <= dy * dy) by (nonlinear_arith);
        if n == radius * radius {
            assert(16 * (radius * radius) > (4 * radius - 3) * (4 * radius - 3))
                by (nonlinear_arith)
                requires
                    radius > 0,
            ;
        }
        if corners::reaches_feather(n, radius) {
            corners::law_coverage_range(n, radius);
            corners::law_coverages_complement(n, radius);
        }
    }
}

/// Without rounded corners the corner frame hides nothing.
pub proof fn law_square_corners_hide_nothing(
    video: Frame,
    background: (u8, u8, u8),
    x: int,
    y: int,
)
    ensures
        corner_frame_color(video, 0, background, x, y) == Rgba::spec_clear(),
{
}

/// The shadow lies under its recording, eight canvas pixels down: its place and its size are
/// those of the recording, in units of four canvas pixels and rounded to the nearest.
pub proof fn law_shadow_lies_under_recording(video: Frame)
    ensures
        -2 < 4 * shadow_frame(video).x - video.x <= 2,
        -2 < 4 * shadow_frame(video).y - (video.y + 8) <= 2,
        -2 < 4 * shadow_frame(video).width - video.width <= 2,
        -2 < 4 * shadow_frame(video).height - video.height <= 2,
{
}

/// The shadow has a quarter of the canvas's resolution, rounded down, but never none.
pub proof fn law_shadow_has_a_quarter_of_the_resolution(side: u32)
    ensures
        side >= 4 ==> 4 * shadow_side(side) <= side < 4 * shadow_side(side) + 4,
        side < 4 ==> shadow_side(side) == 1,
{
}

/// The corners of a shadow are rounded as those of the recording, held to 200 canvas pixels,
/// and by two shadow pixels more, as far as its sides allow.
pub proof fn law_shadow_corners_are_wider(video: Frame, corner_radius: int, wider: int)
    requires
        0 <= corner_radius,
        corner_radius <= 200 ==> -2 < 4 * (wider - 2) - corner_radius <= 2,
        corner_radius > 200 ==> wider == 52,
    ensures
        ({
            let radius = shadow_radius(video, corner_radius);
            let frame = shadow_frame(video);
            &&& 0 <= radius <= wider
            &&& 2 * radius <= frame.width && 2 * radius <= frame.height
            &&& radius == wider || 2 * (radius + 1) > frame.width || 2 * (radius + 1) > frame.height
        }),
{
}

/// A shadow is 45 percent black where its rectangle is, and nothing outside of it.
pub proof fn law_shadow_fills_its_rectangle(video: Frame, corner_radius: int, x: int, y: int)
    requires
        0 <= corner_radius,
    ensures
        ({
            let frame = shadow_frame(video);
            let radius = shadow_radius(video, corner_radius);
            let color = shadow_color(video, corner_radius, x, y);
            let across = x - frame.x;
            let down = y - frame.y;
            let on_it = 0 <= across < frame.width && 0 <= down < frame.height;
            &&& !on_it ==> color == Rgba { r: 0, g: 0, b: 0, a: 0 }
            &&& on_it && (radius <= across < frame.width - radius || radius <= down < frame.height
                - radius) ==> color == Rgba { r: 0, g: 0, b: 0, a: 115 }
        }),
{
}

/// The corners of a shadow are cut off along arcs, all four alike.
pub proof fn law_shadow_corners_are_round(
    video: Frame,
    corner_radius: int,
    right: bool,
    bottom: bool,
    across: int,
    down: int,
)
    requires
        0 <= corner_radius,
        ({
            let radius = shadow_radius(video, corner_radius);
            &&& (if right { 0 } else { 1int }) <= across <= (if right { radius - 1 } else { radius })
            &&& (if bottom { 0 } else { 1int }) <= down <= (if bottom { radius - 1 } else { radius })
        }),
    ensures
        ({
            let frame = shadow_frame(video);
            let radius = shadow_radius(video, corner_radius);
            let x = if right {
                frame.x + frame.width - radius + across
            } else {
                frame.x + radius - across
            };
            let y = if bottom {
                frame.y + frame.height - radius + down
            } else {
                frame.y + radius - down
            };
            let kept = across * across + down * down <= radius * radius;
            &&& kept ==> shadow_color(video, corner_radius, x, y) == Rgba { r: 0, g: 0, b: 0, a: 115 }
            &&& !kept ==> shadow_color(video, corner_radius, x, y).a == 0
        }),
{
    assert((-across) * (-across) == across * across && (-down) * (-down) == down * down)
        by (nonlinear_arith);
}

/// The stamp of a shadow holds its pixels row by row.
pub proof fn law_stamp_holds_the_shadow(
    canvas_w: u32,
    canvas_h: u32,
    video: Frame,
    corner_radius: int,
    x: int,
    y: int,
)
    requires
        0 <= x < shadow_side(canvas_w),
        0 <= y < shadow_side(canvas_h),
    ensures
        ({
            let bytes = shadow_stamp_bytes(canvas_w, canvas_h, video, corner_radius);
            let p = 4 * (y * shadow_side(canvas_w) + x);
            let color = shadow_color(video, corner_radius, x, y);
            &&& bytes.len() == 4 * (shadow_side(canvas_w) * shadow_side(canvas_h))
            &&& bytes[p] == color.r && bytes[p + 1] == color.g && bytes[p + 2] == color.b
            &&& bytes[p + 3] == color.a
        }),
{
    raster::law_painted_bytes(
        shadow_side(canvas_w) as int,
        shadow_side(canvas_h) as int,
        |x: int, y: int| shadow_color(video, corner_radius, x, y),
        x,
        y,
    );
}

/// A shadow is its stamp, blurred by three shadow pixels and scaled up to the canvas; it is
/// black, and at no pixel more than 45 percent opaque.
pub proof fn law_shadow_is_soft(
    shadow: RgbaImage,
    canvas_w: u32,
    canvas_h: u32,
    video: Frame,
    corner_radius: int,
    x: int,
    y: int,
)
    requires
        is_shadow(shadow, canvas_w, canvas_h, video, corner_radius),
        0 <= x < canvas_w,
        0 <= y < canvas_h,
    ensures
        shadow.width == canvas_w,
        shadow.height == canvas_h,
        shadow.pixel(x, y).r == 0 && shadow.pixel(x, y).g == 0 && shadow.pixel(x, y).b == 0,
        shadow.pixel(x, y).a <= 115,
        shadow_frame(video).width == 0 || shadow_frame(video).height == 0 ==> shadow.pixel(x, y).a
            == 0,
        video.x >= canvas_w + 8 || video.y >= canvas_h + 8 ==> shadow.pixel(x, y).a == 0,
        exists|blurred: Seq<u8>| #[trigger]
            raster::blur_outcome(
                shadow_side(canvas_w),
                shadow_side(canvas_h),
                shadow_stamp_bytes(canvas_w, canvas_h, video, corner_radius),
                3,
                blurred,
            ) && shadow.data@ == raster::triangle_resized(
                shadow_side(canvas_w),
                shadow_side(canvas_h),
                blurred,
                canvas_w,
                canvas_h,
            ),
{
    raster::law_bounded_channels_bound_pixels(shadow, 115, x, y);
    raster::law_bounded_channels_bound_pixels(shadow, 0, x, y);
}

/// The outermost pixels of large corners are beyond the feather.
proof fn lemma_outermost_pixels_are_beyond(radius: int)
    requires
        radius >= 6,
    ensures
        16 * (radius * radius + radius * radius) >= (4 * radius + 3) * (4 * radius + 3),
        16 * ((radius - 1) * (radius - 1) + radius * radius) >= (4 * radius + 3) * (4 * radius + 3),
        16 * (radius * radius + (radius - 1) * (radius - 1)) >= (4 * radius + 3) * (4 * radius + 3),
        16 * ((radius - 1) * (radius - 1) + (radius - 1) * (radius - 1)) >= (4 * radius + 3) * (4
            * radius + 3),
{
    assert(16 * ((radius - 1) * (radius - 1) + (radius - 1) * (radius - 1)) >= (4 * radius + 3) * (4
        * radius + 3) && (radius - 1) * (radius - 1) <= radius * radius) by (nonlinear_arith)
        requires
            radius >= 6,
    ;
}

/// Whether a radius is the one that corners are rounded with: the given one, held to 200 and
/// to half of either side.
pub open spec fn rounds(radius: int, corner_radius: int, width: int, height: int) -> bool {
    &&& 0 <= radius <= corner_radius
    &&& radius <= 200
    &&& 2 * radius <= width
    &&& 2 * radius <= height
    &&& radius == corner_radius || radius == 200 || 2 * (radius + 1) > width || 2 * (radius + 1)
        > height
}

/// The background covers the recording beyond the arcs of its corners, all four alike: so far
/// from the centre of its arc, across and down, a pixel is covered as its distance says, and
/// not at all where that is inside the feather.
pub proof fn law_corner_frame_covers_the_corners(
    video: Frame,
    corner_radius: int,
    radius: int,
    background: (u8, u8, u8),
    right: bool,
    bottom: bool,
    across: int,
    down: int,
)
    requires
        rounds(radius, corner_radius, video.width as int, video.height as int),
        (if right { 0 } else { 1int }) <= across <= (if right { radius - 1 } else { radius }),
        (if bottom { 0 } else { 1int }) <= down <= (if bottom { radius - 1 } else { radius }),
    ensures
        ({
            let x = if right {
                video.x + video.width - radius + across
            } else {
                video.x + radius - across
            };
            let y = if bottom {
                video.y + video.height - radius + down
            } else {
                video.y + radius - down
            };
            let n = across * across + down * down;
            let color = corner_frame_color(video, corner_radius, background, x, y);
            &&& 16 * n <= (4 * radius - 3) * (4 * radius - 3) ==> color.a == 0
            &&& 16 * n > (4 * radius - 3) * (4 * radius - 3) ==> {
                &&& (color.r, color.g, color.b) == background
                &&& color.a == corners::outside_coverage(n, radius)
            }
            &&& 16 * n >= (4 * radius + 3) * (4 * radius + 3) ==> color.a == 255
        }),
{
    assert((-across) * (-across) == across * across && (-down) * (-down) == down * down)
        by (nonlinear_arith);
    let n = across * across + down * down;
    assert(0 <= across * across && 0 <= down * down) by (nonlinear_arith);
    if corners::reaches_feather(n, radius) {
        corners::law_coverage_range(n, radius);
    }
    assert((4 * radius + 3) * (4 * radius + 3) > (4 * radius - 3) * (4 * radius - 3))
        by (nonlinear_arith)
        requires
            0 < radius,
    ;
    if 16 * n >= (4 * radius + 3) * (4 * radius + 3) {
        corners::law_feather_ends(n, radius);
    }
}

/// Between its corners the recording is not covered, and outside of it nothing is painted.
pub proof fn law_corner_frame_leaves_the_rest(
    video: Frame,
    corner_radius: int,
    radius: int,
    background: (u8, u8, u8),
    x: int,
    y: int,
)
    requires
        rounds(radius, corner_radius, video.width as int, video.height as int),
        ({
            ||| x < video.x
            ||| x >= video.x + video.width
            ||| y < video.y
            ||| y >= video.y + video.height
            ||| video.x + radius <= x < video.x + video.width - radius
            ||| video.y + radius <= y < video.y + video.height - radius
        }),
    ensures
        corner_frame_color(video, corner_radius, background, x, y) == (Rgba {
            r: 0,
            g: 0,
            b: 0,
            a: 0,
        }),
{
}

/// The mask is white but for the corners, and black beyond their arcs, all four alike.
pub proof fn law_mask_rounds_the_corners(
    width: u32,
    height: u32,
    corner_radius: int,
    radius: int,
    right: bool,
    bottom: bool,
    across: int,
    down: int,
)
    requires
        rounds(radius, corner_radius, width as int, height as int),
        (if right { 0 } else { 1int }) <= across <= (if right { radius - 1 } else { radius }),
        (if bottom { 0 } else { 1int }) <= down <= (if bottom { radius - 1 } else { radius }),
    ensures
        ({
            let x = if right {
                width - radius + across
            } else {
                radius - across
            };
            let y = if bottom {
                height - radius + down
            } else {
                radius - down
            };
            let n = across * across + down * down;
            let value = corner_mask_value(width as int, height as int, corner_radius, x, y);
            &&& 16 * n <= (4 * radius - 3) * (4 * radius - 3) ==> value == 255
            &&& 16 * n >= (4 * radius + 3) * (4 * radius + 3) ==> value == 0
            &&& 16 * n > (4 * radius - 3) * (4 * radius - 3) && n != radius * radius ==> value == 255
                - corners::outside_coverage(n, radius)
            &&& n == radius * radius ==> value == 128
        }),
{
    assert((-across) * (-across) == across * across && (-down) * (-down) == down * down)
        by (nonlinear_arith);
    let n = across * across + down * down;
    assert(0 <= across * across && 0 <= down * down) by (nonlinear_arith);
    assert((4 * radius + 3) * (4 * radius + 3) > (4 * radius - 3) * (4 * radius - 3))
        by (nonlinear_arith)
        requires
            0 < radius,
    ;
    assert(16 * (radius * radius) > (4 * radius - 3) * (4 * radius - 3)) by (nonlinear_arith)
        requires
            0 < radius,
    ;
    if corners::reaches_feather(n, radius) {
        corners::law_coverages_complement(n, radius);
    }
    if 16 * n >= (4 * radius + 3) * (4 * radius + 3) {
        corners::law_feather_ends(n, radius);
    }
}

/// Between the corners the mask is white.
pub proof fn law_mask_keeps_the_rest(
    width: int,
    height: int,
    corner_radius: int,
    radius: int,
    x: int,
    y: int,
)
    requires
        rounds(radius, corner_radius, width, height),
        radius <= x < width - radius || radius <= y < height - radius,
    ensures
        corner_mask_value(width, height, corner_radius, x, y) == 255,
{
}

} // verus!
