//! Alpha blending in place, on packed RGBA bytes.
use crate::raster;
use crate::raster::Rgba;
use vstd::prelude::*;

verus! {

/// A channel of the pixel above, weighed by its alpha against the one below.
pub open spec fn mix(above: u8, below: u8, alpha: u8) -> u8 {
    ((above * alpha + below * (255 - alpha)) / 255) as u8
}

/// The pixel that comes of laying one over another: a transparent one changes nothing,
/// and any other leaves an opaque pixel.
pub open spec fn over(top: Rgba, bottom: Rgba) -> Rgba {
    if top.a == 0 {
        bottom
    } else {
        Rgba {
            r: mix(top.r, bottom.r, top.a),
            g: mix(top.g, bottom.g, top.a),
            b: mix(top.b, bottom.b, top.a),
            a: 255,
        }
    }
}

/// The mean of two channels lies between them.
proof fn lemma_mix_between(above: u8, below: u8, alpha: u8)
    ensures
        above <= below ==> above <= (above * alpha + below * (255 - alpha)) / 255 <= below,
        below <= above ==> below <= (above * alpha + below * (255 - alpha)) / 255 <= above,
{
    let sum = above * alpha + below * (255 - alpha);
    assert(sum - 255 * below == (above - below) * alpha) by (nonlinear_arith)
        requires
            sum == above * alpha + below * (255 - alpha),
    ;
    assert(above <= below ==> (above - below) * 255 <= (above - below) * alpha <= 0)
        by (nonlinear_arith)
        requires
            0 <= alpha <= 255,
    ;
    assert(below <= above ==> 0 <= (above - below) * alpha <= (above - below) * 255)
        by (nonlinear_arith)
        requires
            0 <= alpha <= 255,
    ;
}

/// A channel of the pixel above, weighed by its alpha against the one below.
fn mix_channel(above: u8, below: u8, alpha: u8) -> (mixed: u8)
    ensures
        mixed == mix(above, below, alpha),
{
    proof {
        lemma_mix_between(above, below, alpha);
        assert(above * alpha <= 65_025) by (nonlinear_arith)
            requires
                above <= 255,
                alpha <= 255,
        ;
        assert(below * (255 - alpha) <= 65_025) by (nonlinear_arith)
            requires
                below <= 255,
                0 <= 255 - alpha <= 255,
        ;
    }
    let inverse: u32 = 255 - alpha as u32;
    ((above as u32 * alpha as u32 + below as u32 * inverse) / 255) as u8
}

/// Lays `top` over the pixel with index `p`.
pub fn blend_pixel(bytes: &mut [u8], p: usize, top: Rgba)
    requires
        4 * p + 3 < old(bytes)@.len(),
    ensures
        final(bytes)@.len() == old(bytes)@.len(),
        raster::rgba_at(final(bytes)@, p as int) == over(
            top,
            raster::rgba_at(old(bytes)@, p as int),
        ),
        forall|i: int|
            0 <= i < old(bytes)@.len() && !(4 * p <= i < 4 * p + 4) ==> #[trigger] final(bytes)@[i]
                == old(bytes)@[i],
{
    if top.a == 0 {
        return ;
    }
    assert(bytes@.len() == bytes.len());
    bytes[4 * p] = mix_channel(top.r, bytes[4 * p], top.a);
    bytes[4 * p + 1] = mix_channel(top.g, bytes[4 * p + 1], top.a);
    bytes[4 * p + 2] = mix_channel(top.b, bytes[4 * p + 2], top.a);
    bytes[4 * p + 3] = 255;
}

/// An opaque pixel hides what it is laid over.
pub proof fn law_opaque_hides(top: Rgba, bottom: Rgba)
    requires
        top.a == 255,
    ensures
        over(top, bottom) == top,
{
}

/// A blended channel lies between the channels that it is blended from.
pub proof fn law_blend_between(top: Rgba, bottom: Rgba)
    ensures
        top.r <= bottom.r ==> top.r <= over(top, bottom).r <= bottom.r,
        bottom.r <= top.r ==> bottom.r <= over(top, bottom).r <= top.r,
        top.g <= bottom.g ==> top.g <= over(top, bottom).g <= bottom.g,
        bottom.g <= top.g ==> bottom.g <= over(top, bottom).g <= top.g,
        top.b <= bottom.b ==> top.b <= over(top, bottom).b <= bottom.b,
        bottom.b <= top.b ==> bottom.b <= over(top, bottom).b <= top.b,
{
    lemma_mix_between(top.r, bottom.r, top.a);
    lemma_mix_between(top.g, bottom.g, top.a);
    lemma_mix_between(top.b, bottom.b, top.a);
}

/// A transparent pixel leaves what it is laid over; any other leaves an opaque pixel.
pub proof fn law_transparent_shows_through(top: Rgba, bottom: Rgba)
    ensures
        top.a == 0 ==> over(top, bottom) == bottom,
        top.a > 0 ==> over(top, bottom).a == 255,
{
}

/// A blended channel is, but for rounding down, as far from the one below as the alpha is
/// from zero.
pub proof fn law_blend_goes_by_alpha(top: Rgba, bottom: Rgba)
    requires
        top.a > 0,
    ensures
        0 <= 255 * bottom.r + top.a * (top.r - bottom.r) - 255 * over(top, bottom).r < 255,
        0 <= 255 * bottom.g + top.a * (top.g - bottom.g) - 255 * over(top, bottom).g < 255,
        0 <= 255 * bottom.b + top.a * (top.b - bottom.b) - 255 * over(top, bottom).b < 255,
{
    lemma_mix_between(top.r, bottom.r, top.a);
    lemma_mix_between(top.g, bottom.g, top.a);
    lemma_mix_between(top.b, bottom.b, top.a);
    lemma_mix_by_alpha(top.r, bottom.r, top.a);
    lemma_mix_by_alpha(top.g, bottom.g, top.a);
    lemma_mix_by_alpha(top.b, bottom.b, top.a);
}

/// The weighted sum of two channels, seen from the one below.
proof fn lemma_mix_by_alpha(above: u8, below: u8, alpha: u8)
    ensures
        above * alpha + below * (255 - alpha) == 255 * below + alpha * (above - below),
{
    assert(above * alpha + below * (255 - alpha) == 255 * below + alpha * (above - below))
        by (nonlinear_arith);
}

} // verus!
