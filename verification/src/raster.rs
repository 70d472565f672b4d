//! Pixel rasters, and the image operations that the `image` crate performs on them.
use vstd::arithmetic::div_mod::*;
use vstd::prelude::*;

verus! {

/// A colour with an alpha channel.
#[derive(Clone, Copy, Debug, PartialEq, Eq, Structural)]
pub struct Rgba {
    pub r: u8,
    pub g: u8,
    pub b: u8,
    pub a: u8,
}

impl Rgba {
    /// The transparent pixel that an empty raster consists of.
    pub open spec fn spec_clear() -> Rgba {
        Rgba { r: 0, g: 0, b: 0, a: 0 }
    }

    /// The transparent pixel that an empty raster consists of.
    pub fn clear() -> (pixel: Rgba)
        ensures
            pixel == Rgba::spec_clear(),
    {
        Rgba { r: 0, g: 0, b: 0, a: 0 }
    }
}

/// The pixel with index `p` in packed RGBA bytes.
pub open spec fn rgba_at(bytes: Seq<u8>, p: int) -> Rgba {
    Rgba { r: bytes[4 * p], g: bytes[4 * p + 1], b: bytes[4 * p + 2], a: bytes[4 * p + 3] }
}

/// The byte of a pixel that holds the given channel.
pub open spec fn channel(pixel: Rgba, c: int) -> u8 {
    if c == 0 {
        pixel.r
    } else if c == 1 {
        pixel.g
    } else if c == 2 {
        pixel.b
    } else {
        pixel.a
    }
}

/// The packed bytes of a raster that shows `color` at every pixel.
pub open spec fn painted(width: int, height: int, color: spec_fn(int, int) -> Rgba) -> Seq<u8> {
    Seq::new(
        (4 * (width * height)) as nat,
        |i: int| channel(color((i / 4) % width, (i / 4) / width), i % 4),
    )
}

/// Whether a raster of this size fits in memory, at the given number of bytes a pixel.
pub open spec fn fits(width: int, height: int, pixel_bytes: int) -> bool {
    pixel_bytes * (width * height) <= isize::MAX
}

/// An RGBA raster: packed pixels, row by row from the top.
#[derive(Debug)]
pub struct RgbaImage {
    pub width: u32,
    pub height: u32,
    pub data: Vec<u8>,
}

impl RgbaImage {
    /// The buffer holds exactly the pixels of the raster.
    pub open spec fn wf(self) -> bool {
        self.data@.len() == 4 * (self.width * self.height)
    }

    /// The pixel in column `x` of row `y`.
    pub open spec fn pixel(self, x: int, y: int) -> Rgba {
        rgba_at(self.data@, y * self.width + x)
    }

    /// Every pixel has the colour that `color` gives for its column and row.
    pub open spec fn shows(self, color: spec_fn(int, int) -> Rgba) -> bool {
        forall|x: int, y: int|
            0 <= x < self.width && 0 <= y < self.height ==> #[trigger] self.pixel(x, y) == color(
                x,
                y,
            )
    }

    /// Whether no byte of a channel is above a bound.
    pub open spec fn channel_within(self, c: int, most: int) -> bool {
        forall|i: int| 0 <= i < self.data@.len() && i % 4 == c ==> #[trigger] self.data@[i] <= most
    }

    /// Red, green and blue are zero everywhere.
    pub open spec fn is_black(self) -> bool {
        self.channel_within(0, 0) && self.channel_within(1, 0) && self.channel_within(2, 0)
    }

    /// The number of columns.
    pub fn width(&self) -> (width: u32)
        ensures
            width == self.width,
    {
        self.width
    }

    /// The number of rows.
    pub fn height(&self) -> (height: u32)
        ensures
            height == self.height,
    {
        self.height
    }

    /// The pixel in column `x` of row `y`.
    pub fn get_pixel(&self, x: u32, y: u32) -> (pixel: Rgba)
        requires
            self.wf(),
            x < self.width,
            y < self.height,
        ensures
            pixel == self.pixel(x as int, y as int),
    {
        proof {
            lemma_index(x as int, y as int, self.width as int, self.height as int);
            assert(self.data@.len() == self.data.len());
        }
        let p: usize = y as usize * self.width as usize + x as usize;
        Rgba {
            r: self.data[4 * p],
            g: self.data[4 * p + 1],
            b: self.data[4 * p + 2],
            a: self.data[4 * p + 3],
        }
    }
}

/// A greyscale raster: one byte a pixel, row by row from the top.
#[derive(Debug)]
pub struct GrayImage {
    pub width: u32,
    pub height: u32,
    pub data: Vec<u8>,
}

impl GrayImage {
    /// The buffer holds exactly the pixels of the raster.
    pub open spec fn wf(self) -> bool {
        self.data@.len() == self.width * self.height
    }

    /// The value in column `x` of row `y`.
    pub open spec fn value(self, x: int, y: int) -> u8 {
        self.data@[y * self.width + x]
    }

    /// The number of columns.
    pub fn width(&self) -> (width: u32)
        ensures
            width == self.width,
    {
        self.width
    }

    /// The number of rows.
    pub fn height(&self) -> (height: u32)
        ensures
            height == self.height,
    {
        self.height
    }

    /// The value in column `x` of row `y`.
    pub fn get_pixel(&self, x: u32, y: u32) -> (value: u8)
        requires
            self.wf(),
            x < self.width,
            y < self.height,
        ensures
            value == self.value(x as int, y as int),
    {
        proof {
            lemma_index(x as int, y as int, self.width as int, self.height as int);
            assert(self.data@.len() == self.data.len());
        }
        let p: usize = y as usize * self.width as usize + x as usize;
        self.data[p]
    }
}

/// Row-major indices of a raster are below its pixel count and split back into
/// column and row.
pub proof fn lemma_index(x: int, y: int, width: int, height: int)
    requires
        0 <= x < width,
        0 <= y < height,
    ensures
        0 <= y * width,
        y * width + x < width * height,
        y * width + width <= width * height,
        (y * width + x) % width == x,
        (y * width + x) / width == y,
{
    assert(0 <= y * width) by (nonlinear_arith)
        requires
            0 <= y,
            0 <= width,
    ;
    assert(y * width + width <= width * height) by (nonlinear_arith)
        requires
            y + 1 <= height,
            0 <= width,
    ;
    lemma_fundamental_div_mod_converse(y * width + x, width, y, x);
}

/// An index of a raster names a column and a row of it.
pub proof fn lemma_coordinates(p: int, width: int, height: int)
    requires
        0 <= p < width * height,
        0 <= width,
        0 <= height,
    ensures
        0 <= p % width < width,
        0 <= p / width < height,
        p == (p / width) * width + p % width,
{
    assert(width > 0) by (nonlinear_arith)
        requires
            0 <= p < width * height,
            0 <= width,
    ;
    lemma_fundamental_div_mod(p, width);
    lemma_mod_bound(p, width);
    let q = p / width;
    assert(width * q == q * width) by (nonlinear_arith);
    assert(0 <= q < height) by (nonlinear_arith)
        requires
            p == width * q + p % width,
            0 <= p % width < width,
            0 <= p < width * height,
            width > 0,
    ;
}

/// A raster that shows `color` holds exactly its painted bytes.
pub proof fn lemma_shows_is_painted(image: RgbaImage, color: spec_fn(int, int) -> Rgba)
    requires
        image.wf(),
        image.shows(color),
    ensures
        image.data@ == painted(image.width as int, image.height as int, color),
{
    let (w, h) = (image.width as int, image.height as int);
    assert forall|i: int| 0 <= i < image.data@.len() implies image.data@[i] == #[trigger] painted(
        w,
        h,
        color,
    )[i] by {
        let p = i / 4;
        lemma_coordinates(p, w, h);
        assert(image.pixel(p % w, p / w) == color(p % w, p / w));
    }
    assert(image.data@ =~= painted(w, h, color));
}

/// What decides the colour of every pixel of a raster.
pub trait Painter {
    /// What the painter needs to hold.
    spec fn ready(&self) -> bool;

    /// The colour in column `x` of row `y`.
    spec fn color_at(&self, x: int, y: int) -> Rgba;

    /// The colour in column `x` of row `y`.
    fn color(&self, x: u32, y: u32) -> (color: Rgba)
        requires
            self.ready(),
        ensures
            color == self.color_at(x as int, y as int),
    ;
}

/// Paints a raster pixel by pixel.
pub fn paint<P: Painter>(width: u32, height: u32, painter: &P) -> (image: RgbaImage)
    requires
        painter.ready(),
        fits(width as int, height as int, 4),
    ensures
        image.wf(),
        image.width == width,
        image.height == height,
        image.shows(|x: int, y: int| painter.color_at(x, y)),
{
    let mut data: Vec<u8> = Vec::new();
    let mut y: u32 = 0;
    while y < height
        invariant
            painter.ready(),
            y <= height,
            data@.len() == 4 * (y * width),
            forall|px: int, py: int|
                0 <= px < width && 0 <= py < y ==> #[trigger] rgba_at(data@, py * width + px)
                    == painter.color_at(px, py),
        decreases height - y,
    {
        let mut x: u32 = 0;
        proof {
            assert((y + 1) * width == y * width + width) by (nonlinear_arith);
        }
        while x < width
            invariant
                painter.ready(),
                y < height,
                x <= width,
                data@.len() == 4 * (y * width + x),
                forall|px: int, py: int|
                    0 <= px < width && 0 <= py < y ==> #[trigger] rgba_at(data@, py * width + px)
                        == painter.color_at(px, py),
                forall|px: int|
                    0 <= px < x ==> #[trigger] rgba_at(data@, y * width + px) == painter.color_at(
                        px,
                        y as int,
                    ),
            decreases width - x,
        {
            let ghost before = data@;
            let color = painter.color(x, y);
            data.push(color.r);
            data.push(color.g);
            data.push(color.b);
            data.push(color.a);
            proof {
                assert forall|px: int, py: int|
                    0 <= px < width && 0 <= py < y implies #[trigger] rgba_at(
                    data@,
                    py * width + px,
                ) == painter.color_at(px, py) by {
                    lemma_index(px, py, width as int, y as int);
                    assert(width * y == y * width) by (nonlinear_arith);
                    assert(rgba_at(before, py * width + px) == painter.color_at(px, py));
                }
                assert forall|px: int| 0 <= px < x + 1 implies #[trigger] rgba_at(
                    data@,
                    y * width + px,
                ) == painter.color_at(px, y as int) by {
                    assert(0 <= y * width) by (nonlinear_arith);
                    if px < x {
                        assert(rgba_at(before, y * width + px) == painter.color_at(px, y as int));
                    }
                }
            }
            x += 1;
        }
        y += 1;
    }
    proof {
        assert(height * width == width * height) by (nonlinear_arith);
    }
    RgbaImage { width, height, data }
}

/// Whether the `image` crate's Gaussian blur may turn the packed pixels of a raster
/// into `blurred`.
///
/// The blur weighs pixels by an exponential whose last digits are the machine's, so it
/// is a relation and not a function.
pub uninterp spec fn blur_outcome(
    width: u32,
    height: u32,
    pixels: Seq<u8>,
    sigma: u8,
    blurred: Seq<u8>,
) -> bool;

/// The packed pixels that the `image` crate's triangle filter makes of a raster when
/// it is resized.
pub uninterp spec fn triangle_resized(
    width: u32,
    height: u32,
    pixels: Seq<u8>,
    new_width: u32,
    new_height: u32,
) -> Seq<u8>;

/// The pixel that the `image` crate's alpha blending makes of a pixel and one above it.
pub uninterp spec fn alpha_blended(bottom: Rgba, top: Rgba) -> Rgba;

/// `image::DynamicImage::blur`: a Gaussian blur with the given standard deviation.
///
/// Trusted: the raster keeps its size, the pixels are one of the blur's outcomes for
/// this raster and deviation, and no byte of a channel comes out above all bytes of the
/// channel before: the weights are rounded down to whole numbers and come to no more than
/// the number that their sum is divided by.
#[verifier::external_body]
pub(crate) fn blur(source: &RgbaImage, sigma: u8) -> (blurred: RgbaImage)
    requires
        source.wf(),
        0 < source.width <= 0x10_0000,
        0 < source.height <= 0x10_0000,
        0 < sigma <= 16,
    ensures
        blurred.wf(),
        blurred.width == source.width,
        blurred.height == source.height,
        blur_outcome(source.width, source.height, source.data@, sigma, blurred.data@),
        forall|c: int, most: int| #[trigger]
            source.channel_within(c, most) ==> blurred.channel_within(c, most),
{
    let raw = source.data.clone();
    let buffer = image::RgbaImage::from_raw(source.width, source.height, raw).unwrap();
    let blurred = image::DynamicImage::ImageRgba8(buffer).blur(sigma.into()).to_rgba8();
    RgbaImage { width: blurred.width(), height: blurred.height(), data: blurred.into_raw() }
}

/// `image::imageops::resize` with `FilterType::Triangle`.
///
/// Trusted: the raster gets the new size, and its pixels depend on the old raster and the
/// new size alone. Neither side getting smaller, every byte is a mean of a few bytes of its
/// channel, rounded to the nearest, and so not above all of them. The bounds keep the sample
/// positions, which are single precision, within the raster. Where a side gets smaller,
/// nothing is said of how large a byte is: a mean of many bytes gathers rounding errors.
#[verifier::external_body]
pub(crate) fn resize(source: &RgbaImage, new_width: u32, new_height: u32) -> (resized: RgbaImage)
    requires
        source.wf(),
        0 < source.width <= 0x10_0000,
        0 < source.height <= 0x10_0000,
        new_width <= 0x40_0000,
        new_height <= 0x40_0000,
        fits(source.width as int, new_height as int, 16),
        fits(new_width as int, new_height as int, 4),
    ensures
        resized.wf(),
        resized.width == new_width,
        resized.height == new_height,
        resized.data@ == triangle_resized(
            source.width,
            source.height,
            source.data@,
            new_width,
            new_height,
        ),
        source.width <= new_width && source.height <= new_height ==> forall|c: int, most: int|
            #[trigger] source.channel_within(c, most) ==> resized.channel_within(c, most),
{
    let raw = source.data.clone();
    let buffer = image::RgbaImage::from_raw(source.width, source.height, raw).unwrap();
    let filter = image::imageops::FilterType::Triangle;
    let resized = image::imageops::resize(&buffer, new_width, new_height, filter);
    RgbaImage { width: resized.width(), height: resized.height(), data: resized.into_raw() }
}

/// `image::imageops::overlay` at the origin, of two rasters of one size.
///
/// Trusted: every pixel of `top` is blended onto the pixel below it and onto no other; a
/// transparent one leaves what is below, and an opaque one replaces it.
#[verifier::external_body]
pub(crate) fn overlay(bottom: &RgbaImage, top: &RgbaImage) -> (blended: RgbaImage)
    requires
        bottom.wf(),
        top.wf(),
        top.width == bottom.width,
        top.height == bottom.height,
    ensures
        blended.wf(),
        blended.width == bottom.width,
        blended.height == bottom.height,
        blended.shows(|x: int, y: int| alpha_blended(bottom.pixel(x, y), top.pixel(x, y))),
        forall|x: int, y: int|
            0 <= x < bottom.width && 0 <= y < bottom.height && top.pixel(x, y).a == 0
                ==> #[trigger] blended.pixel(x, y) == bottom.pixel(x, y),
        forall|x: int, y: int|
            0 <= x < bottom.width && 0 <= y < bottom.height && top.pixel(x, y).a == 255
                ==> #[trigger] blended.pixel(x, y) == top.pixel(x, y),
{
    let below = bottom.data.clone();
    let mut canvas = image::RgbaImage::from_raw(bottom.width, bottom.height, below).unwrap();
    let above = top.data.clone();
    let layer = image::RgbaImage::from_raw(top.width, top.height, above).unwrap();
    image::imageops::overlay(&mut canvas, &layer, 0, 0);
    RgbaImage { width: canvas.width(), height: canvas.height(), data: canvas.into_raw() }
}

/// A pixel is four bytes, red, green, blue and alpha; pixels follow one another along a row,
/// and rows follow one another down the raster.
pub proof fn law_pixels_are_packed(image: RgbaImage, x: int, y: int)
    ensures
        image.pixel(x, y).r == image.data@[4 * (y * image.width + x)],
        image.pixel(x, y).g == image.data@[4 * (y * image.width + x) + 1],
        image.pixel(x, y).b == image.data@[4 * (y * image.width + x) + 2],
        image.pixel(x, y).a == image.data@[4 * (y * image.width + x) + 3],
{
}

/// The bytes of a painted raster are the channels of its colours, pixel by pixel.
pub proof fn law_painted_bytes(
    width: int,
    height: int,
    color: spec_fn(int, int) -> Rgba,
    x: int,
    y: int,
)
    requires
        0 <= x < width,
        0 <= y < height,
    ensures
        painted(width, height, color).len() == 4 * (width * height),
        painted(width, height, color)[4 * (y * width + x)] == color(x, y).r,
        painted(width, height, color)[4 * (y * width + x) + 1] == color(x, y).g,
        painted(width, height, color)[4 * (y * width + x) + 2] == color(x, y).b,
        painted(width, height, color)[4 * (y * width + x) + 3] == color(x, y).a,
{
    lemma_index(x, y, width, height);
    let p = y * width + x;
    assert((4 * p) / 4 == p && (4 * p + 1) / 4 == p && (4 * p + 2) / 4 == p && (4 * p + 3) / 4
        == p);
}

/// A greyscale raster holds one byte a pixel, row by row.
pub proof fn law_grey_pixels_are_packed(image: GrayImage, x: int, y: int)
    ensures
        image.value(x, y) == image.data@[y * image.width + x],
{
}

/// A channel is within a bound exactly when every pixel of the raster is.
pub proof fn law_bounded_channels_bound_pixels(image: RgbaImage, most: int, x: int, y: int)
    requires
        image.wf(),
        0 <= x < image.width,
        0 <= y < image.height,
    ensures
        image.channel_within(0, most) ==> image.pixel(x, y).r <= most,
        image.channel_within(1, most) ==> image.pixel(x, y).g <= most,
        image.channel_within(2, most) ==> image.pixel(x, y).b <= most,
        image.channel_within(3, most) ==> image.pixel(x, y).a <= most,
        image.is_black() ==> image.pixel(x, y).r == 0 && image.pixel(x, y).g == 0 && image.pixel(
            x,
            y,
        ).b == 0,
{
    lemma_index(x, y, image.width as int, image.height as int);
    let p = y * image.width + x;
    assert((4 * p) % 4 == 0 && (4 * p + 1) % 4 == 1 && (4 * p + 2) % 4 == 2 && (4 * p + 3) % 4
        == 3);
    let data = image.data@;
    assert(data[4 * p] >= 0 && data[4 * p + 1] >= 0 && data[4 * p + 2] >= 0 && data[4 * p + 3]
        >= 0);
}

/// A raster that shows colours shows each in its place: in every column of every row.
pub proof fn law_colors_show_everywhere(
    image: RgbaImage,
    color: spec_fn(int, int) -> Rgba,
    x: int,
    y: int,
)
    requires
        image.shows(color),
        0 <= x < image.width,
        0 <= y < image.height,
    ensures
        image.data@[4 * (y * image.width + x)] == color(x, y).r,
        image.data@[4 * (y * image.width + x) + 1] == color(x, y).g,
        image.data@[4 * (y * image.width + x) + 2] == color(x, y).b,
        image.data@[4 * (y * image.width + x) + 3] == color(x, y).a,
{
    assert(image.pixel(x, y) == color(x, y));
}

} // verus!
