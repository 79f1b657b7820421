//! Rasterising swatches: a rectangle of one palette colour inside a white
//! frame.
use vstd::prelude::*;
use crate::geometry::{get_width_palette_diff, swatch_width_spec};
use crate::raster::{flat_index, lemma_index_in_bounds, Raster, Rgb, Rgba};

verus! {

/// Pure white, with the alpha that every strip pixel carries.
pub open spec fn white() -> Rgba {
    Rgba { r: 255, g: 255, b: 255, a: 0 }
}

/// The fill pixel of a swatch of colour `c`.
pub open spec fn fill_of(c: Rgb) -> Rgba {
    Rgba { r: c.r, g: c.g, b: c.b, a: 0 }
}

/// Whether `(x, y)` of a `w` × `h` swatch lies in its frame of thickness `b`:
/// the near edges are compared strictly below `b`, the far ones strictly
/// above `w - b` and `h - b`.
pub open spec fn in_frame(b: int, w: int, h: int, x: int, y: int) -> bool {
    x < b || x > w - b || y < b || y > h - b
}

/// The pixel at `(x, y)` of a `w` × `h` swatch of colour `c` framed `b` thick.
pub open spec fn swatch_pixel(c: Rgb, b: int, w: int, h: int, x: int, y: int) -> Rgba {
    if in_frame(b, w, h, x, y) {
        white()
    } else {
        fill_of(c)
    }
}

/// The pixel at `coordinates` of a `width` × `height` swatch of `color`
/// framed `border` pixels thick.
pub fn get_pallete_square_color(
    color: &Rgb,
    border: u32,
    width: u32,
    height: u32,
    coordinates: (u32, u32),
) -> (p: Rgba)
    requires
        coordinates.0 < width,
        coordinates.1 < height,
    ensures
        p == swatch_pixel(*color, border as int, width as int, height as int, coordinates.0 as int, coordinates.1 as int),
{
    let (x, y) = coordinates;
    let square_color = Rgba { r: color.r, g: color.g, b: color.b, a: 0 };
    let white = Rgba { r: 255, g: 255, b: 255, a: 0 };
    if x < border || x > width - border {
        white
    } else if y < border || y > height - border {
        white
    } else {
        square_color
    }
}

/// The frame covers the leftmost `b` columns and the topmost `b` rows of a
/// swatch; every pixel with `b <= x <= w - b` and `b <= y <= h - b` shows the
/// swatch colour.
pub proof fn lemma_frame(c: Rgb, b: int, w: int, h: int, x: int, y: int)
    requires
        0 <= x < w,
        0 <= y < h,
    ensures
        x < b || y < b ==> swatch_pixel(c, b, w, h, x, y) == white(),
        b <= x <= w - b && b <= y <= h - b ==> swatch_pixel(c, b, w, h, x, y) == fill_of(c),
{
}

/// A freshly allocated `width` × `height` swatch of `color` framed `border`
/// pixels thick.
pub fn render_swatch(color: &Rgb, border: u32, width: u32, height: u32) -> (r: Raster)
    requires
        width as int * height as int <= usize::MAX,
    ensures
        r.wf(),
        r.width == width,
        r.height == height,
        forall|x: int, y: int|
            0 <= x < width && 0 <= y < height ==> #[trigger] r.pixel(x, y) == swatch_pixel(
                *color,
                border as int,
                width as int,
                height as int,
                x,
                y,
            ),
{
    let mut pixels: Vec<Rgba> = Vec::new();
    let mut y: u32 = 0;
    while y < height
        invariant
            width as int * height as int <= usize::MAX,
            y <= height,
            pixels@.len() == y as int * width as int,
            forall|xx: int, yy: int|
                0 <= xx < width && 0 <= yy < y ==> #[trigger] pixels@[flat_index(width as int, xx, yy)]
                    == swatch_pixel(*color, border as int, width as int, height as int, xx, yy),
        decreases height - y,
    {
        let mut x: u32 = 0;
        while x < width
            invariant
                width as int * height as int <= usize::MAX,
                y < height,
                x <= width,
                pixels@.len() == y as int * width as int + x,
                forall|xx: int, yy: int|
                    0 <= xx < width && 0 <= yy < y ==> #[trigger] pixels@[flat_index(width as int, xx, yy)]
                        == swatch_pixel(*color, border as int, width as int, height as int, xx, yy),
                forall|xx: int| 0 <= xx < x ==> #[trigger] pixels@[flat_index(width as int, xx, y as int)]
                    == swatch_pixel(*color, border as int, width as int, height as int, xx, y as int),
            decreases width - x,
        {
            let p = get_pallete_square_color(color, border, width, height, (x, y));
            proof {
                lemma_index_in_bounds(width as int, height as int, x as int, y as int);
            }
            let ghost before = pixels@;
            pixels.push(p);
            assert forall|xx: int, yy: int| 0 <= xx < width && 0 <= yy < y implies #[trigger] pixels@[flat_index(width as int, xx, yy)]
                == swatch_pixel(*color, border as int, width as int, height as int, xx, yy) by {
                lemma_index_in_bounds(width as int, y as int, xx, yy);
                assert(width as int * y as int == y as int * width as int) by (nonlinear_arith);
                assert(pixels@[flat_index(width as int, xx, yy)] == before[flat_index(width as int, xx, yy)]);
            }
            x = x + 1;
        }
        proof {
            assert((y as int + 1) * width as int == y as int * width as int + width as int) by (nonlinear_arith);
        }
        y = y + 1;
    }
    proof {
        assert(width as int * height as int == height as int * width as int) by (nonlinear_arith);
    }
    Raster { width, height, pixels }
}

/// One rendered swatch per palette entry, in palette order. `dimentions` is
/// the strip width, the nominal swatch width and the strip height; swatch `i`
/// is as wide as `get_width_palette_diff` gives for it.
pub fn get_palette_images(palette: &Vec<Rgb>, dimentions: (u32, u32, u32), border_width: u32) -> (r:
    Vec<Raster>)
    requires
        dimentions.0 as int * dimentions.2 as int <= usize::MAX,
        dimentions.1 as int * dimentions.2 as int <= usize::MAX,
    ensures
        r@.len() == palette@.len(),
        forall|i: int|
            0 <= i < r@.len() ==> {
                &&& #[trigger] r@[i].wf()
                &&& r@[i].width == swatch_width_spec(
                    dimentions.0 as int,
                    dimentions.1 as int,
                    i,
                    palette@.len() as int,
                )
                &&& r@[i].height == dimentions.2
            },
        forall|i: int, x: int, y: int|
            0 <= i < r@.len() && 0 <= x < r@[i].width && 0 <= y < r@[i].height
                ==> #[trigger] r@[i].pixel(x, y) == swatch_pixel(
                palette@[i],
                border_width as int,
                r@[i].width as int,
                r@[i].height as int,
                x,
                y,
            ),
{
    let (total_width, color_width, color_height) = dimentions;
    let mut images: Vec<Raster> = Vec::new();
    let mut i: usize = 0;
    while i < palette.len()
        invariant
            dimentions == (total_width, color_width, color_height),
            total_width as int * color_height as int <= usize::MAX,
            color_width as int * color_height as int <= usize::MAX,
            i <= palette@.len(),
            images@.len() == i,
            forall|j: int|
                0 <= j < i ==> {
                    &&& #[trigger] images@[j].wf()
                    &&& images@[j].width == swatch_width_spec(
                        total_width as int,
                        color_width as int,
                        j,
                        palette@.len() as int,
                    )
                    &&& images@[j].height == color_height
                },
            forall|j: int, x: int, y: int|
                0 <= j < i && 0 <= x < images@[j].width && 0 <= y < images@[j].height
                    ==> #[trigger] images@[j].pixel(x, y) == swatch_pixel(
                    palette@[j],
                    border_width as int,
                    images@[j].width as int,
                    images@[j].height as int,
                    x,
                    y,
                ),
        decreases palette@.len() - i,
    {
        let actual_width = get_width_palette_diff((total_width, color_width), i, palette.len());
        proof {
            let h = color_height as int;
            if actual_width <= color_width {
                assert(actual_width as int * h <= color_width as int * h) by (nonlinear_arith)
                    requires actual_width <= color_width, h >= 0;
            } else {
                assert(color_width as int <= color_width as int * palette@.len() as int) by (nonlinear_arith)
                    requires palette@.len() >= 1;
                assert(actual_width as int * h <= total_width as int * h) by (nonlinear_arith)
                    requires actual_width <= total_width, h >= 0;
            }
        }
        let swatch = render_swatch(&palette[i], border_width, actual_width, color_height);
        images.push(swatch);
        i = i + 1;
    }
    images
}

} // verus!
