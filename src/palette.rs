//! Palette extraction: the pixels are packed as RGB bytes and handed to a
//! median-cut quantiser.
use vstd::prelude::*;
use crate::raster::{Raster, Rgb, Rgba};
use palette_extract::{get_palette_with_options, MaxColors, PixelEncoding, PixelFilter, Quality};

verus! {

/// The most colours a palette may hold.
pub const MAX_PALETTE: u8 = 11;

/// The most pixels handed to the quantiser at once (4096 × 4096): its
/// per-box channel sums are 32-bit and hold up to 252 per pixel.
pub const MAX_QUANTIZE_PIXELS: usize = 16_777_216;

/// Pixel sampling stride of the quantiser: every pixel is considered.
pub const QUALITY: u8 = 1;

/// The colours that the quantiser finds in a packed RGB byte sequence,
/// sampling every `quality`-th pixel and keeping at most `max_colors`, most
/// prominent first.
pub uninterp spec fn palette_of(rgb: Seq<u8>, quality: u8, max_colors: u8) -> Seq<Rgb>;

/// The red, green and blue bytes of each pixel in turn; alpha is left out.
pub open spec fn packed_rgb(pixels: Seq<Rgba>) -> Seq<u8>
    decreases pixels.len(),
{
    if pixels.len() == 0 {
        Seq::empty()
    } else {
        let p = pixels.last();
        packed_rgb(pixels.drop_last()).add(seq![p.r, p.g, p.b])
    }
}

/// Relies on palette_extract::get_palette_with_options with RGB encoding and
/// no pixel filter: the colours depend on the arguments alone. The queue of
/// colour boxes starts with one box and never shrinks, so at least one colour
/// comes back. The first splitting round stops at `ceil(0.75 * max_colors)`
/// boxes, below `max_colors` from 4 on, and the second adds at most what is
/// left, so no more than `max_colors` come back. A quality of 0 would never
/// advance through the pixels; with no whole pixel the colour bounds stay at
/// their initial extremes and their 8-bit sums overflow; past
/// `MAX_QUANTIZE_PIXELS` pixels the 32-bit channel sums may overflow.
#[verifier::external_body]
fn quantize_rgb(rgb: &Vec<u8>, quality: u8, max_colors: u8) -> (r: Vec<Rgb>)
    requires
        1 <= quality,
        4 <= max_colors,
        3 <= rgb@.len() <= 3 * MAX_QUANTIZE_PIXELS,
    ensures
        r@ == palette_of(rgb@, quality, max_colors),
        1 <= r@.len() <= max_colors,
{
    let colors = get_palette_with_options(
        rgb.as_slice(),
        PixelEncoding::Rgb,
        Quality::new(quality),
        MaxColors::new(max_colors),
        PixelFilter::None,
    );
    colors.into_iter().map(|c| Rgb { r: c.r, g: c.g, b: c.b }).collect()
}

proof fn lemma_packed_len(pixels: Seq<Rgba>)
    ensures
        packed_rgb(pixels).len() == 3 * pixels.len(),
    decreases pixels.len(),
{
    if pixels.len() > 0 {
        lemma_packed_len(pixels.drop_last());
    }
}

/// The pixels of `image` in row-major order as packed RGB bytes.
pub fn rgb_bytes(image: &Raster) -> (r: Vec<u8>)
    ensures
        r@ == packed_rgb(image.pixels@),
        r@.len() == 3 * image.pixels@.len(),
{
    let mut out: Vec<u8> = Vec::new();
    let mut i: usize = 0;
    while i < image.pixels.len()
        invariant
            i <= image.pixels@.len(),
            out@ == packed_rgb(image.pixels@.subrange(0, i as int)),
        decreases image.pixels@.len() - i,
    {
        let p = image.pixels[i];
        out.push(p.r);
        out.push(p.g);
        out.push(p.b);
        proof {
            let s = image.pixels@.subrange(0, i as int + 1);
            assert(s.drop_last() =~= image.pixels@.subrange(0, i as int));
            assert(out@ =~= packed_rgb(s));
        }
        i = i + 1;
    }
    assert(image.pixels@.subrange(0, image.pixels@.len() as int) =~= image.pixels@);
    proof {
        lemma_packed_len(image.pixels@);
    }
    out
}

/// The palette of `image`: between one and `MAX_PALETTE` colours, most
/// prominent first, found with every pixel considered.
pub fn get_palette_colors(image: &Raster) -> (r: Vec<Rgb>)
    requires
        1 <= image.pixels@.len() <= MAX_QUANTIZE_PIXELS,
    ensures
        r@ == palette_of(packed_rgb(image.pixels@), QUALITY, MAX_PALETTE),
        1 <= r@.len() <= MAX_PALETTE,
{
    let rgb = rgb_bytes(image);
    quantize_rgb(&rgb, QUALITY, MAX_PALETTE)
}

} // verus!
