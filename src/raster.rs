//! In-memory RGBA rasters: row-major pixel grids with exact pixel access.
use vstd::prelude::*;

verus! {

/// A palette entry: three 8-bit channels.
#[derive(Clone, Copy, Debug, PartialEq, Eq, Structural)]
pub struct Rgb {
    pub r: u8,
    pub g: u8,
    pub b: u8,
}

/// One pixel of a raster: four 8-bit channels.
#[derive(Clone, Copy, Debug, PartialEq, Eq, Structural)]
pub struct Rgba {
    pub r: u8,
    pub g: u8,
    pub b: u8,
    pub a: u8,
}

/// A rectangular, row-major grid of pixels.
#[derive(Debug)]
pub struct Raster {
    pub width: u32,
    pub height: u32,
    pub pixels: Vec<Rgba>,
}

/// Position of pixel `(x, y)` in the row-major buffer of a grid `w` wide.
pub open spec fn flat_index(w: int, x: int, y: int) -> int {
    y * w + x
}

/// Row-major positions of in-bounds pixels lie inside the buffer.
pub proof fn lemma_index_in_bounds(w: int, h: int, x: int, y: int)
    requires
        0 <= x < w,
        0 <= y < h,
    ensures
        0 <= flat_index(w, x, y) < w * h,
        flat_index(w, x, y) + 1 <= w * h,
{
    assert(0 <= y * w) by (nonlinear_arith)
        requires 0 <= y, 0 <= w;
    assert(y * w + w <= w * h) by (nonlinear_arith)
        requires y < h, 0 <= w;
}

/// Distinct in-bounds pixels occupy distinct buffer positions.
pub proof fn lemma_index_injective(w: int, x1: int, y1: int, x2: int, y2: int)
    requires
        0 <= x1 < w,
        0 <= x2 < w,
        0 <= y1,
        0 <= y2,
        flat_index(w, x1, y1) == flat_index(w, x2, y2),
    ensures
        x1 == x2,
        y1 == y2,
{
    if y1 < y2 {
        assert(y1 * w + w <= y2 * w) by (nonlinear_arith)
            requires y1 < y2, 0 <= w;
    } else if y2 < y1 {
        assert(y2 * w + w <= y1 * w) by (nonlinear_arith)
            requires y2 < y1, 0 <= w;
    }
}

impl Raster {
    /// The buffer holds exactly one pixel per grid cell.
    pub open spec fn wf(&self) -> bool {
        self.pixels@.len() == self.width as int * self.height as int
    }

    /// The pixel at column `x`, row `y`.
    pub open spec fn pixel(&self, x: int, y: int) -> Rgba {
        self.pixels@[flat_index(self.width as int, x, y)]
    }

    /// A `width` × `height` raster with every pixel set to `fill`.
    pub fn new_filled(width: u32, height: u32, fill: Rgba) -> (r: Raster)
        requires
            width as int * height as int <= usize::MAX,
        ensures
            r.wf(),
            r.width == width,
            r.height == height,
            forall|x: int, y: int| 0 <= x < width && 0 <= y < height ==> r.pixel(x, y) == fill,
    {
        let n: usize = width as usize * height as usize;
        let mut pixels: Vec<Rgba> = Vec::new();
        let mut i: usize = 0;
        while i < n
            invariant
                n == width as int * height as int,
                i <= n,
                pixels@.len() == i,
                forall|k: int| 0 <= k < i ==> pixels@[k] == fill,
            decreases n - i,
        {
            pixels.push(fill);
            i = i + 1;
        }
        let r = Raster { width, height, pixels };
        assert forall|x: int, y: int| 0 <= x < width && 0 <= y < height implies r.pixel(x, y)
            == fill by {
            lemma_index_in_bounds(width as int, height as int, x, y);
        }
        r
    }

    /// The pixel at column `x`, row `y`.
    pub fn get_pixel(&self, x: u32, y: u32) -> (p: Rgba)
        requires
            self.wf(),
            x < self.width,
            y < self.height,
        ensures
            p == self.pixel(x as int, y as int),
    {
        proof {
            lemma_index_in_bounds(self.width as int, self.height as int, x as int, y as int);
        }
        let n = self.pixels.len();
        let k: usize = y as usize * self.width as usize + x as usize;
        self.pixels[k]
    }

    /// Copies all of `src` into this raster with its top-left corner at
    /// `(x0, y0)`. Returns `false`, leaving this raster untouched, when `src`
    /// does not fit inside it at that offset.
    pub fn copy_from(&mut self, src: &Raster, x0: u32, y0: u32) -> (ok: bool)
        requires
            old(self).wf(),
            src.wf(),
        ensures
            ok == (x0 as int + src.width <= old(self).width && y0 as int + src.height
                <= old(self).height),
            final(self).wf(),
            final(self).width == old(self).width,
            final(self).height == old(self).height,
            forall|x: int, y: int|
                0 <= x < old(self).width && 0 <= y < old(self).height
                    ==> #[trigger] final(self).pixel(x, y) == if ok && x0 <= x < x0 + src.width && y0 <= y < y0
                    + src.height {
                    src.pixel(x - x0, y - y0)
                } else {
                    old(self).pixel(x, y)
                },
    {
        if !(x0 as u64 + src.width as u64 <= self.width as u64 && y0 as u64 + src.height as u64
            <= self.height as u64) {
            return false;
        }
        let ghost before = *self;
        let w = self.width;
        let h = self.height;
        let mut dy: u32 = 0;
        while dy < src.height
            invariant
                before.wf(),
                src.wf(),
                x0 + src.width <= w,
                y0 + src.height <= h,
                w == before.width,
                h == before.height,
                self.width == w,
                self.height == h,
                self.wf(),
                dy <= src.height,
                forall|x: int, y: int|
                    0 <= x < w && 0 <= y < h ==> #[trigger] self.pixel(x, y) == if x0 <= x < x0
                        + src.width && y0 <= y < y0 + dy {
                        src.pixel(x - x0, y - y0)
                    } else {
                        before.pixel(x, y)
                    },
            decreases src.height - dy,
        {
            let mut dx: u32 = 0;
            while dx < src.width
                invariant
                    before.wf(),
                    src.wf(),
                    x0 + src.width <= w,
                    y0 + src.height <= h,
                    w == before.width,
                    h == before.height,
                    self.width == w,
                    self.height == h,
                    self.wf(),
                    dy < src.height,
                    dx <= src.width,
                    forall|x: int, y: int|
                        0 <= x < w && 0 <= y < h ==> #[trigger] self.pixel(x, y) == if (x0 <= x
                            < x0 + src.width && y0 <= y < y0 + dy) || (x0 <= x < x0 + dx && y
                            == y0 + dy) {
                            src.pixel(x - x0, y - y0)
                        } else {
                            before.pixel(x, y)
                        },
                decreases src.width - dx,
            {
                let p = src.get_pixel(dx, dy);
                let tx: u32 = x0 + dx;
                let ty: u32 = y0 + dy;
                proof {
                    lemma_index_in_bounds(w as int, h as int, tx as int, ty as int);
                }
                let n = self.pixels.len();
                let k: usize = ty as usize * w as usize + tx as usize;
                let ghost mid = *self;
                self.pixels.set(k, p);
                assert forall|x: int, y: int| 0 <= x < w && 0 <= y < h implies #[trigger] self.pixel(x, y) == if (x0 <= x < x0 + src.width && y0 <= y < y0 + dy) || (x0 <= x < x0 + dx
                    + 1 && y == y0 + dy) {
                    src.pixel(x - x0, y - y0)
                } else {
                    before.pixel(x, y)
                } by {
                    lemma_index_in_bounds(w as int, h as int, x, y);
                    if x != tx || y != ty {
                        if flat_index(w as int, x, y) == flat_index(w as int, tx as int, ty as int) {
                            lemma_index_injective(w as int, x, y, tx as int, ty as int);
                        }
                        assert(self.pixel(x, y) == mid.pixel(x, y));
                    }
                }
                dx = dx + 1;
            }
            dy = dy + 1;
        }
        true
    }
}

} // verus!
