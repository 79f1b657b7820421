use palette_strip::compose::{compose_with_palette, palette_strip_image, strip_height};
use palette_strip::geometry::get_width_palette_diff;
use palette_strip::palette::{get_palette_colors, rgb_bytes};
use palette_strip::raster::{Raster, Rgb, Rgba};
use palette_strip::source::{parse_source_kind, SourceKind};
use palette_strip::swatch::{get_palette_images, get_pallete_square_color, render_swatch};

const WHITE: Rgba = Rgba { r: 255, g: 255, b: 255, a: 0 };

fn solid(width: u32, height: u32, p: Rgba) -> Raster {
    Raster::new_filled(width, height, p)
}

fn distinct_palette(n: u8) -> Vec<Rgb> {
    (0..n).map(|i| Rgb { r: i * 20, g: 100, b: 200 - i * 10 }).collect()
}

fn fill(c: Rgb) -> Rgba {
    Rgba { r: c.r, g: c.g, b: c.b, a: 0 }
}

#[test]
fn solid_red_single_swatch_canvas() {
    let red = Rgba { r: 255, g: 0, b: 0, a: 255 };
    let src = solid(100, 100, red);
    let palette = vec![Rgb { r: 255, g: 0, b: 0 }];
    let out = compose_with_palette(&src, &palette);
    assert_eq!((out.width, out.height), (100, 120));
    for y in 0..100 {
        for x in 0..100 {
            assert_eq!(out.get_pixel(x, y), red);
        }
    }
    let red_fill = Rgba { r: 255, g: 0, b: 0, a: 0 };
    for y in 0..20u32 {
        for x in 0..100u32 {
            let framed = x < 5 || x >= 96 || y < 5 || y >= 16;
            let want = if framed { WHITE } else { red_fill };
            assert_eq!(out.get_pixel(x, 100 + y), want, "strip pixel ({}, {})", x, y);
        }
    }
}

#[test]
fn hundred_by_fifty_eleven_swatches() {
    assert_eq!(strip_height(50), 10);
    let step = 100 / 11;
    assert_eq!(step, 9);
    for i in 0..10 {
        assert_eq!(get_width_palette_diff((100, step), i, 11), 9);
    }
    assert_eq!(get_width_palette_diff((100, step), 10, 11), 10);
    let palette = distinct_palette(11);
    let swatches = get_palette_images(&palette, (100, step, 10), 5);
    assert_eq!(swatches.len(), 11);
    let total: u32 = swatches.iter().map(|s| s.width).sum();
    assert_eq!(total, 100);
    let src = solid(100, 50, Rgba { r: 1, g: 2, b: 3, a: 255 });
    let out = compose_with_palette(&src, &palette);
    assert_eq!((out.width, out.height), (100, 60));
    // The last swatch starts at cursor 90 and is 10 wide: its single fill
    // pixel column is local column 5.
    assert_eq!(out.get_pixel(95, 55), fill(palette[10]));
    assert_eq!(out.get_pixel(94, 55), WHITE);
    assert_eq!(out.get_pixel(96, 55), WHITE);
    // A 9-wide swatch with a 5-pixel frame is white throughout.
    for x in 0..90 {
        assert_eq!(out.get_pixel(x, 55), WHITE);
    }
}

#[test]
fn thirty_three_wide_even_split() {
    let step = 33 / 11;
    assert_eq!(step, 3);
    let widths: Vec<u32> = (0..11).map(|i| get_width_palette_diff((33, step), i, 11)).collect();
    assert!(widths.iter().all(|w| *w == 3));
    assert_eq!(widths.iter().sum::<u32>(), 33);
}

#[test]
fn thirty_two_wide_last_swatch_absorbs_rest() {
    let step = 32 / 11;
    assert_eq!(step, 2);
    assert_eq!(get_width_palette_diff((32, step), 10, 11), 12);
    for i in 0..10 {
        assert_eq!(get_width_palette_diff((32, step), i, 11), 2);
    }
    let palette = distinct_palette(11);
    let src = solid(32, 10, Rgba { r: 9, g: 9, b: 9, a: 255 });
    let out = compose_with_palette(&src, &palette);
    assert_eq!((out.width, out.height), (32, 12));
    // Strip of height 2 with a 5-pixel frame: every strip pixel is white.
    for x in 0..32 {
        assert_eq!(out.get_pixel(x, 10), WHITE);
        assert_eq!(out.get_pixel(x, 11), WHITE);
    }
}

#[test]
fn last_swatch_placed_at_cursor_twenty() {
    // Tall strip so that the fill of the 12-wide last swatch shows.
    let palette = distinct_palette(11);
    let src = solid(32, 100, Rgba { r: 9, g: 9, b: 9, a: 255 });
    let out = compose_with_palette(&src, &palette);
    assert_eq!(out.height, 120);
    // Last swatch spans [20, 32): local columns 5..=7 are fill.
    for x in 25..28 {
        assert_eq!(out.get_pixel(x, 110), fill(palette[10]));
    }
    assert_eq!(out.get_pixel(24, 110), WHITE);
    assert_eq!(out.get_pixel(28, 110), WHITE);
}

#[test]
fn unsupported_source_kind() {
    assert_eq!(parse_source_kind("ftp"), None);
    assert_eq!(parse_source_kind(""), None);
    assert_eq!(parse_source_kind("URL"), None);
    assert_eq!(parse_source_kind("files"), None);
    assert_eq!(parse_source_kind("url"), Some(SourceKind::Url));
    assert_eq!(parse_source_kind("file"), Some(SourceKind::File));
}

#[test]
fn strip_height_truncates() {
    assert_eq!(strip_height(0), 0);
    assert_eq!(strip_height(4), 0);
    assert_eq!(strip_height(5), 1);
    assert_eq!(strip_height(9), 1);
    assert_eq!(strip_height(100), 20);
    assert_eq!(strip_height(u32::MAX), 858993459);
}

#[test]
fn short_source_has_no_strip() {
    let src = solid(7, 4, Rgba { r: 4, g: 5, b: 6, a: 7 });
    let out = compose_with_palette(&src, &distinct_palette(3));
    assert_eq!((out.width, out.height), (7, 4));
    assert_eq!(out.pixels, src.pixels);
}

#[test]
fn single_swatch_spans_width() {
    assert_eq!(get_width_palette_diff((37, 37), 0, 1), 37);
    let swatches = get_palette_images(&distinct_palette(1), (37, 37, 8), 2);
    assert_eq!(swatches.len(), 1);
    assert_eq!((swatches[0].width, swatches[0].height), (37, 8));
}

#[test]
fn divisible_width_equal_swatches() {
    let swatches = get_palette_images(&distinct_palette(4), (40, 10, 3), 1);
    assert!(swatches.iter().all(|s| s.width == 10 && s.height == 3));
}

#[test]
fn non_divisible_width_last_wider_by_remainder() {
    let w = 43;
    let k = 4;
    let step = w / k as u32;
    let widths: Vec<u32> = (0..k).map(|i| get_width_palette_diff((w, step), i, k)).collect();
    assert_eq!(widths, vec![10, 10, 10, 13]);
    assert_eq!(widths[3] - widths[0], w % k as u32);
}

#[test]
fn more_swatches_than_columns() {
    // Step 0: only the last swatch has width, and it covers the whole strip.
    let palette = distinct_palette(11);
    assert_eq!(get_width_palette_diff((5, 0), 3, 11), 0);
    assert_eq!(get_width_palette_diff((5, 0), 10, 11), 5);
    let src = solid(5, 50, Rgba { r: 0, g: 0, b: 0, a: 255 });
    let out = compose_with_palette(&src, &palette);
    assert_eq!((out.width, out.height), (5, 60));
}

#[test]
fn width_diff_not_last_keeps_step() {
    assert_eq!(get_width_palette_diff((100, 30), 1, 3), 30);
    assert_eq!(get_width_palette_diff((100, 30), 2, 3), 40);
    assert_eq!(get_width_palette_diff((90, 30), 2, 3), 30);
    // Steps that overshoot the total leave the last swatch at the step.
    assert_eq!(get_width_palette_diff((50, 30), 2, 3), 30);
}

#[test]
fn square_color_frame_rule() {
    let c = Rgb { r: 10, g: 20, b: 30 };
    let f = fill(c);
    assert_eq!(get_pallete_square_color(&c, 5, 20, 20, (4, 10)), WHITE);
    assert_eq!(get_pallete_square_color(&c, 5, 20, 20, (5, 10)), f);
    assert_eq!(get_pallete_square_color(&c, 5, 20, 20, (15, 10)), f);
    assert_eq!(get_pallete_square_color(&c, 5, 20, 20, (16, 10)), WHITE);
    assert_eq!(get_pallete_square_color(&c, 5, 20, 20, (10, 4)), WHITE);
    assert_eq!(get_pallete_square_color(&c, 5, 20, 20, (10, 15)), f);
    assert_eq!(get_pallete_square_color(&c, 5, 20, 20, (10, 16)), WHITE);
    // Narrower than the frame: white everywhere.
    assert_eq!(get_pallete_square_color(&c, 5, 2, 20, (1, 10)), WHITE);
    // No frame at all: the near edges are fill.
    assert_eq!(get_pallete_square_color(&c, 0, 3, 3, (0, 0)), f);
}

#[test]
fn render_swatch_frame() {
    let c = Rgb { r: 7, g: 8, b: 9 };
    let s = render_swatch(&c, 2, 6, 5);
    assert_eq!((s.width, s.height, s.pixels.len()), (6, 5, 30));
    for y in 0..5u32 {
        for x in 0..6u32 {
            let framed = x < 2 || x > 4 || y < 2 || y > 3;
            let want = if framed { WHITE } else { fill(c) };
            assert_eq!(s.get_pixel(x, y), want);
        }
    }
}

#[test]
fn copy_from_places_and_rejects() {
    let a = Rgba { r: 1, g: 1, b: 1, a: 1 };
    let b = Rgba { r: 2, g: 2, b: 2, a: 2 };
    let mut dst = solid(4, 3, a);
    let src = solid(2, 2, b);
    assert!(dst.copy_from(&src, 2, 1));
    for y in 0..3u32 {
        for x in 0..4u32 {
            let inside = x >= 2 && y >= 1;
            assert_eq!(dst.get_pixel(x, y), if inside { b } else { a });
        }
    }
    let mut dst2 = solid(4, 3, a);
    assert!(!dst2.copy_from(&src, 3, 0));
    assert!(!dst2.copy_from(&src, 0, 2));
    assert!(dst2.pixels.iter().all(|p| *p == a));
}

#[test]
fn rgb_bytes_drop_alpha() {
    let img = Raster {
        width: 2,
        height: 1,
        pixels: vec![Rgba { r: 1, g: 2, b: 3, a: 4 }, Rgba { r: 5, g: 6, b: 7, a: 8 }],
    };
    assert_eq!(rgb_bytes(&img), vec![1, 2, 3, 5, 6, 7]);
}

#[test]
fn palette_bounds_and_dominant_red() {
    let red = Rgba { r: 255, g: 0, b: 0, a: 255 };
    let palette = get_palette_colors(&solid(20, 20, red));
    assert!(!palette.is_empty() && palette.len() <= 11);
    assert!(palette.iter().any(|c| c.r > 200 && c.g < 40 && c.b < 40));
}

#[test]
fn palette_two_colours() {
    let mut img = solid(10, 10, Rgba { r: 0, g: 0, b: 255, a: 255 });
    for i in 0..50 {
        img.pixels[i] = Rgba { r: 0, g: 255, b: 0, a: 255 };
    }
    let palette = get_palette_colors(&img);
    assert!(!palette.is_empty() && palette.len() <= 11);
    assert!(palette.iter().any(|c| c.b > 200 && c.r < 40 && c.g < 40));
    assert!(palette.iter().any(|c| c.g > 200 && c.r < 40 && c.b < 40));
}

#[test]
fn whole_pipeline_dimensions() {
    let mut img = solid(30, 25, Rgba { r: 200, g: 10, b: 10, a: 255 });
    img.pixels[0] = Rgba { r: 0, g: 0, b: 0, a: 255 };
    let out = palette_strip_image(&img);
    assert_eq!((out.width, out.height), (30, 30));
    for y in 0..25 {
        for x in 0..30 {
            assert_eq!(out.get_pixel(x, y), img.get_pixel(x, y));
        }
    }
    let again = palette_strip_image(&img);
    assert_eq!(out.pixels, again.pixels);
}
