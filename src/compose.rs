//! Building the output canvas: the source image on top, the swatch strip
//! below it.
use vstd::prelude::*;
use vstd::arithmetic::div_mod::lemma_fundamental_div_mod;
use crate::geometry::{
    lemma_owner_in_span, lemma_span_fits, lemma_step_facts, owner_of, start_of, width_of,
};
use crate::palette::{
    get_palette_colors, packed_rgb, palette_of, MAX_PALETTE, MAX_QUANTIZE_PIXELS, QUALITY,
};
use crate::raster::{flat_index, Raster, Rgb, Rgba};
use crate::swatch::{get_palette_images, swatch_pixel};

verus! {

/// Thickness of the white frame round each swatch.
pub const BORDER: u32 = 5;

/// Height of the strip, as a percentage of the source height.
pub const STRIP_PERCENT: u32 = 20;

/// The strip is `STRIP_PERCENT` percent of the source height, truncated.
pub open spec fn strip_height_of(height: int) -> int {
    STRIP_PERCENT * height / 100
}

/// The strip pixel at column `x`, row `y` (counted from the strip's top), for
/// a strip `total` wide and `strip_h` high showing `palette`.
pub open spec fn strip_pixel(palette: Seq<Rgb>, total: int, strip_h: int, x: int, y: int) -> Rgba {
    let k = palette.len() as int;
    let i = owner_of(total, k, x);
    swatch_pixel(palette[i], BORDER as int, width_of(total, k, i), strip_h, x - start_of(total, k, i), y)
}

/// The canvas that `source` and `palette` compose into: `source` in rows
/// `[0, H)`, the strip in rows `[H, H + strip_h)`.
pub open spec fn composed(source: Raster, palette: Seq<Rgb>, out: Raster) -> bool {
    let w = source.width as int;
    let h = source.height as int;
    &&& out.wf()
    &&& out.width == source.width
    &&& out.height == h + strip_height_of(h)
    &&& forall|x: int, y: int| 0 <= x < w && 0 <= y < h ==> #[trigger] out.pixel(x, y) == source.pixel(x, y)
    &&& forall|x: int, y: int|
        0 <= x < w && h <= y < h + strip_height_of(h) ==> #[trigger] out.pixel(x, y) == strip_pixel(
            palette,
            w,
            strip_height_of(h),
            x,
            y - h,
        )
}

/// Whether the output canvas for a `width` × `height` source has a size that
/// this machine can address.
pub open spec fn canvas_fits(width: int, height: int) -> bool {
    &&& height + strip_height_of(height) <= u32::MAX
    &&& width * (height + strip_height_of(height)) <= usize::MAX
}

/// A source fewer than five rows high gets a strip of height zero, so its
/// canvas is exactly as high as the source.
pub proof fn lemma_short_source(height: int)
    requires
        0 <= height < 5,
    ensures
        strip_height_of(height) == 0,
        height + strip_height_of(height) == height,
{
}

/// The composed canvas is determined by its inputs: two canvases composed
/// from the same source and palette hold the same pixels.
pub proof fn lemma_composed_unique(source: Raster, palette: Seq<Rgb>, a: Raster, b: Raster)
    requires
        composed(source, palette, a),
        composed(source, palette, b),
    ensures
        a.pixels@ == b.pixels@,
{
    let w = a.width as int;
    let total_h = a.height as int;
    assert forall|k: int| 0 <= k < a.pixels@.len() implies a.pixels@[k] == b.pixels@[k] by {
        assert(w > 0) by (nonlinear_arith)
            requires k < w * total_h, 0 <= k, 0 <= total_h;
        lemma_fundamental_div_mod(k, w);
        let x = k % w;
        let y = k / w;
        assert(0 <= y < total_h) by (nonlinear_arith)
            requires k == w * y + x, 0 <= x < w, 0 <= k < w * total_h;
        assert(k == flat_index(w, x, y)) by (nonlinear_arith)
            requires k == w * y + x;
        assert(a.pixel(x, y) == b.pixel(x, y));
    }
    assert(a.pixels@ =~= b.pixels@);
}

/// The strip height for a source `height` pixels high.
pub fn strip_height(height: u32) -> (r: u32)
    ensures
        r == strip_height_of(height as int),
{
    (STRIP_PERCENT as u64 * height as u64 / 100) as u32
}

/// Composes `source` and its `palette` into the output canvas. The strip
/// below the source is split into one swatch per palette entry, placed left
/// to right with a cursor that steps by the nominal width; the last swatch
/// absorbs the rest of the width.
pub fn compose_with_palette(source: &Raster, palette: &Vec<Rgb>) -> (out: Raster)
    requires
        source.wf(),
        1 <= palette@.len(),
        canvas_fits(source.width as int, source.height as int),
    ensures
        composed(*source, palette@, out),
{
    let width = source.width;
    let height = source.height;
    let strip_h = strip_height(height);
    let k = palette.len();
    let step: u32 = (width as u64 / k as u64) as u32;
    proof {
        lemma_step_facts(width as int, k as int);
        assert(width as int * strip_h as int <= width as int * (height + strip_h)) by (nonlinear_arith)
            requires 0 <= height, 0 <= width;
        assert(step as int * strip_h as int <= width as int * strip_h as int) by (nonlinear_arith)
            requires step <= width, 0 <= strip_h;
    }
    let swatches = get_palette_images(palette, (width, step, strip_h), BORDER);
    assert(step as int == width as int / k as int);
    assert forall|i: int| 0 <= i < k implies #[trigger] swatches@[i].wf() && swatches@[i].width
        == width_of(width as int, k as int, i) && swatches@[i].height == strip_h by {}
    let mut canvas = Raster::new_filled(width, height + strip_h, Rgba { r: 0, g: 0, b: 0, a: 255 });
    canvas.copy_from(source, 0, 0);
    let mut pos: u32 = 0;
    let mut j: usize = 0;
    while j < swatches.len()
        invariant
            source.wf(),
            width == source.width,
            height == source.height,
            strip_h == strip_height_of(height as int),
            k == palette@.len(),
            1 <= k,
            step as int == width as int / k as int,
            swatches@.len() == k,
            forall|i: int|
                0 <= i < k ==> {
                    &&& #[trigger] swatches@[i].wf()
                    &&& swatches@[i].width == width_of(width as int, k as int, i)
                    &&& swatches@[i].height == strip_h
                },
            forall|i: int, x: int, y: int|
                0 <= i < k && 0 <= x < swatches@[i].width && 0 <= y < swatches@[i].height
                    ==> #[trigger] swatches@[i].pixel(x, y) == swatch_pixel(
                    palette@[i],
                    BORDER as int,
                    swatches@[i].width as int,
                    swatches@[i].height as int,
                    x,
                    y,
                ),
            j <= k,
            pos as int == start_of(width as int, k as int, j as int),
            canvas.wf(),
            canvas.width == width,
            canvas.height == height + strip_h,
            forall|x: int, y: int|
                0 <= x < width && 0 <= y < height ==> #[trigger] canvas.pixel(x, y) == source.pixel(x, y),
            forall|x: int, y: int|
                0 <= x < (if j == k { width as int } else { pos as int }) && height <= y < height
                    + strip_h ==> #[trigger] canvas.pixel(x, y) == strip_pixel(
                    palette@,
                    width as int,
                    strip_h as int,
                    x,
                    y - height,
                ),
        decreases k - j,
    {
        proof {
            lemma_span_fits(width as int, k as int, j as int);
        }
        let ghost before = canvas;
        let ghost sw = swatches@[j as int];
        assert(sw.wf());
        let placed = canvas.copy_from(&swatches[j], pos, height);
        assert(placed);
        let ghost done = if j + 1 == k { width as int } else { pos + step };
        proof {
            lemma_step_facts(width as int, k as int);
            if j + 1 < k {
                assert(width_of(width as int, k as int, j as int) == step);
            }
            assert forall|x: int, y: int|
                0 <= x < done && height <= y < height + strip_h implies #[trigger] canvas.pixel(x, y)
                == strip_pixel(palette@, width as int, strip_h as int, x, y - height) by {
                if x >= pos {
                    assert(x < pos + sw.width);
                    lemma_owner_in_span(width as int, k as int, j as int, x);
                    assert(canvas.pixel(x, y) == sw.pixel(x - pos, y - height));
                }
            }
            assert((j as int + 1) * step == j as int * step + step) by (nonlinear_arith);
            assert((j as int + 1) * step <= k as int * step) by (nonlinear_arith)
                requires j + 1 <= k, 0 <= step;
            assert(k as int * step == step * k as int) by (nonlinear_arith);
        }
        pos = pos + step;
        j = j + 1;
    }
    canvas
}

/// The output canvas for `source`: the source image on top, and below it a
/// strip of swatches of the palette that the quantiser finds in it.
pub fn palette_strip_image(source: &Raster) -> (out: Raster)
    requires
        source.wf(),
        1 <= source.pixels@.len() <= MAX_QUANTIZE_PIXELS,
        canvas_fits(source.width as int, source.height as int),
    ensures
        composed(*source, palette_of(packed_rgb(source.pixels@), QUALITY, MAX_PALETTE), out),
{
    let palette = get_palette_colors(source);
    compose_with_palette(source, &palette)
}

} // verus!
