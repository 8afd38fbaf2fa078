//! An RGBA pixel buffer with an alpha-compositing blend.

use vstd::prelude::*;

verus! {

/// One pixel: red, green, blue and alpha channels.
#[derive(Clone, Copy, Debug, PartialEq, Eq, Structural)]
pub struct Rgba {
    pub r: u8,
    pub g: u8,
    pub b: u8,
    pub a: u8,
}

/// Blend of one colour channel: `src * alpha + dst * (1 - alpha)` on the 0..=255 scale.
pub open spec fn blend_channel(src: u8, dst: u8, alpha: u8) -> u8 {
    ((src as int * alpha as int + dst as int * (255 - alpha as int)) / 255) as u8
}

/// Source-over alpha: the coverage of the result.
pub open spec fn blend_alpha(src_a: u8, dst_a: u8) -> u8 {
    (src_a as int + (dst_a as int * (255 - src_a as int)) / 255) as u8
}

/// The pixel that results from compositing `src` over `dst`.
pub open spec fn blend_spec(dst: Rgba, src: Rgba) -> Rgba {
    Rgba {
        r: blend_channel(src.r, dst.r, src.a),
        g: blend_channel(src.g, dst.g, src.a),
        b: blend_channel(src.b, dst.b, src.a),
        a: blend_alpha(src.a, dst.a),
    }
}

proof fn lemma_blend_channel_bound(src: u8, dst: u8, alpha: u8)
    ensures
        0 <= src as int * alpha as int + dst as int * (255 - alpha as int) <= 255 * 255,
{
    assert(0 <= src as int * alpha as int + dst as int * (255 - alpha as int) <= 255 * 255)
        by (nonlinear_arith)
        requires
            0 <= src <= 255,
            0 <= dst <= 255,
            0 <= alpha <= 255,
    ;
}

proof fn lemma_blend_alpha_bound(src_a: u8, dst_a: u8)
    ensures
        0 <= src_a as int + (dst_a as int * (255 - src_a as int)) / 255 <= 255,
{
    assert(0 <= dst_a as int * (255 - src_a as int) <= 255 * (255 - src_a as int))
        by (nonlinear_arith)
        requires
            0 <= dst_a <= 255,
            0 <= src_a <= 255,
    ;
    assert((255 * (255 - src_a as int)) / 255 == 255 - src_a as int);
}

fn blend_channel_exec(src: u8, dst: u8, alpha: u8) -> (r: u8)
    ensures
        r == blend_channel(src, dst, alpha),
{
    proof {
        lemma_blend_channel_bound(src, dst, alpha);
    }
    let s: u32 = src as u32 * alpha as u32 + dst as u32 * (255 - alpha as u32);
    (s / 255) as u8
}

/// Composites `src` over `dst`.
pub fn blend(dst: Rgba, src: Rgba) -> (r: Rgba)
    ensures
        r == blend_spec(dst, src),
{
    proof {
        lemma_blend_alpha_bound(src.a, dst.a);
        assert(0 <= dst.a as int * (255 - src.a as int) <= 255 * 255) by (nonlinear_arith)
            requires
                0 <= dst.a <= 255,
                0 <= src.a <= 255,
        ;
    }
    let a: u32 = src.a as u32 + (dst.a as u32 * (255 - src.a as u32)) / 255;
    Rgba {
        r: blend_channel_exec(src.r, dst.r, src.a),
        g: blend_channel_exec(src.g, dst.g, src.a),
        b: blend_channel_exec(src.b, dst.b, src.a),
        a: a as u8,
    }
}

/// A fixed-size RGBA buffer, stored row by row.
pub struct Canvas {
    pub width: u32,
    pub height: u32,
    pub pixels: Vec<Rgba>,
}

impl Canvas {
    /// The buffer holds exactly one pixel per position.
    pub open spec fn wf(&self) -> bool {
        &&& self.pixels@.len() == self.width as int * self.height as int
        &&& self.width as int * self.height as int <= usize::MAX
    }

    /// The pixel at column `x`, row `y`.
    pub open spec fn at(&self, x: int, y: int) -> Rgba {
        self.pixels@[y * self.width as int + x]
    }

    /// Whether `(x, y)` lies inside the canvas.
    pub open spec fn contains(&self, x: int, y: int) -> bool {
        0 <= x < self.width as int && 0 <= y < self.height as int
    }

    /// A canvas of the given size with every pixel set to `fill`.
    pub fn from_pixel(width: u32, height: u32, fill: Rgba) -> (r: Canvas)
        requires
            width as int * height as int <= usize::MAX,
        ensures
            r.wf(),
            r.width == width,
            r.height == height,
            forall|x: int, y: int| r.contains(x, y) ==> #[trigger] r.at(x, y) == fill,
    {
        let n: usize = width as usize * height as usize;
        let mut pixels: Vec<Rgba> = Vec::new();
        let mut i: usize = 0;
        while i < n
            invariant
                i <= n,
                pixels@.len() == i,
                forall|j: int| 0 <= j < i ==> pixels@[j] == fill,
            decreases n - i,
        {
            pixels.push(fill);
            i = i + 1;
        }
        let r = Canvas { width, height, pixels };
        assert forall|x: int, y: int| r.contains(x, y) implies #[trigger] r.at(x, y) == fill by {
            lemma_index_in_bounds(x, y, width as int, height as int);
        }
        r
    }

    /// A fully transparent canvas of the given size.
    pub fn new(width: u32, height: u32) -> (r: Canvas)
        requires
            width as int * height as int <= usize::MAX,
        ensures
            r.wf(),
            r.width == width,
            r.height == height,
            forall|x: int, y: int|
                r.contains(x, y) ==> #[trigger] r.at(x, y) == (Rgba { r: 0, g: 0, b: 0, a: 0 }),
    {
        Canvas::from_pixel(width, height, Rgba { r: 0, g: 0, b: 0, a: 0 })
    }

    /// Reads the pixel at `(x, y)`.
    pub fn get_pixel(&self, x: u32, y: u32) -> (r: Rgba)
        requires
            self.wf(),
            self.contains(x as int, y as int),
        ensures
            r == self.at(x as int, y as int),
    {
        proof {
            lemma_index_in_bounds(x as int, y as int, self.width as int, self.height as int);
        }
        self.pixels[y as usize * self.width as usize + x as usize]
    }

    /// Overwrites the pixel at `(x, y)`.
    pub fn put_pixel(&mut self, x: u32, y: u32, p: Rgba)
        requires
            old(self).wf(),
            old(self).contains(x as int, y as int),
        ensures
            final(self).wf(),
            final(self).width == old(self).width,
            final(self).height == old(self).height,
            final(self).at(x as int, y as int) == p,
            forall|i: int, j: int|
                old(self).contains(i, j) && (i != x || j != y) ==> #[trigger] final(self).at(i, j)
                    == old(self).at(i, j),
    {
        proof {
            lemma_index_in_bounds(x as int, y as int, self.width as int, self.height as int);
        }
        let w = self.width;
        self.pixels.set(y as usize * w as usize + x as usize, p);
        proof {
            assert forall|i: int, j: int|
                old(self).contains(i, j) && (i != x || j != y) implies #[trigger] self.at(i, j)
                == old(self).at(i, j) by {
                lemma_index_injective(i, j, x as int, y as int, w as int);
                lemma_index_in_bounds(i, j, w as int, self.height as int);
            }
        }
    }

    /// Composites `src` over the pixel at `(x, y)`.
    pub fn blend_pixel(&mut self, x: u32, y: u32, src: Rgba)
        requires
            old(self).wf(),
            old(self).contains(x as int, y as int),
        ensures
            final(self).wf(),
            final(self).width == old(self).width,
            final(self).height == old(self).height,
            final(self).at(x as int, y as int) == blend_spec(old(self).at(x as int, y as int), src),
            forall|i: int, j: int|
                old(self).contains(i, j) && (i != x || j != y) ==> #[trigger] final(self).at(i, j)
                    == old(self).at(i, j),
    {
        let d = self.get_pixel(x, y);
        let p = blend(d, src);
        self.put_pixel(x, y, p);
    }
}

/// The flat index of a position inside the canvas is inside the buffer.
pub proof fn lemma_index_in_bounds(x: int, y: int, w: int, h: int)
    requires
        0 <= x < w,
        0 <= y < h,
    ensures
        0 <= y * w <= y * w + x < w * h,
{
    assert(0 <= y * w <= y * w + x < w * h) by (nonlinear_arith)
        requires
            0 <= x < w,
            0 <= y < h,
    ;
}

/// Two distinct positions of a row-major buffer have distinct flat indices.
pub proof fn lemma_index_injective(x1: int, y1: int, x2: int, y2: int, w: int)
    requires
        0 <= x1 < w,
        0 <= x2 < w,
        0 <= y1,
        0 <= y2,
        x1 != x2 || y1 != y2,
    ensures
        y1 * w + x1 != y2 * w + x2,
{
    if y1 == y2 {
    } else if y1 < y2 {
        assert(y1 * w + x1 < y2 * w + x2) by (nonlinear_arith)
            requires
                0 <= x1 < w,
                0 <= x2,
                y1 < y2,
        ;
    } else {
        assert(y2 * w + x2 < y1 * w + x1) by (nonlinear_arith)
            requires
                0 <= x2 < w,
                0 <= x1,
                y2 < y1,
        ;
    }
}

/// Whether `(i, j)` lies in the rectangle at `(x, y)` of size `w` by `h`.
pub open spec fn in_rect(i: int, j: int, x: int, y: int, w: int, h: int) -> bool {
    x <= i < x + w && y <= j < y + h
}

impl Canvas {
    /// Composites `color` over every pixel of the rectangle at `(x, y)` of size
    /// `w` by `h`; the parts that fall outside the canvas are skipped.
    pub fn fill_rect(&mut self, x: u32, y: u32, w: u32, h: u32, color: Rgba)
        requires
            old(self).wf(),
        ensures
            final(self).wf(),
            final(self).width == old(self).width,
            final(self).height == old(self).height,
            forall|i: int, j: int|
                old(self).contains(i, j) ==> #[trigger] final(self).at(i, j) == if in_rect(
                    i,
                    j,
                    x as int,
                    y as int,
                    w as int,
                    h as int,
                ) {
                    blend_spec(old(self).at(i, j), color)
                } else {
                    old(self).at(i, j)
                },
    {
        let ghost c0 = *self;
        let x1: u32 = if (self.width as u64) < x as u64 + w as u64 { self.width } else { x + w };
        let y1: u32 = if (self.height as u64) < y as u64 + h as u64 { self.height } else { y + h };
        let mut row: u32 = y;
        while row < y1
            invariant
                self.wf(),
                self.width == c0.width,
                self.height == c0.height,
                y <= row,
                row >= y1 ==> row == y || row == y1,
                y1 <= self.height,
                x1 <= self.width,
                x1 as int == if (c0.width as int) < x + w { c0.width as int } else { x + w },
                y1 as int == if (c0.height as int) < y + h { c0.height as int } else { y + h },
                forall|i: int, j: int|
                    c0.contains(i, j) ==> #[trigger] self.at(i, j) == if in_rect(
                        i,
                        j,
                        x as int,
                        y as int,
                        w as int,
                        h as int,
                    ) && j < row {
                        blend_spec(c0.at(i, j), color)
                    } else {
                        c0.at(i, j)
                    },
            decreases y1 - row,
        {
            let mut col: u32 = x;
            while col < x1
                invariant
                    self.wf(),
                    self.width == c0.width,
                    self.height == c0.height,
                    y <= row < y1,
                    x <= col,
                    col >= x1 ==> col == x || col == x1,
                    y1 <= self.height,
                    x1 <= self.width,
                    x1 as int == if (c0.width as int) < x + w { c0.width as int } else { x + w },
                    y1 as int == if (c0.height as int) < y + h { c0.height as int } else { y + h },
                    forall|i: int, j: int|
                        c0.contains(i, j) ==> #[trigger] self.at(i, j) == if in_rect(
                            i,
                            j,
                            x as int,
                            y as int,
                            w as int,
                            h as int,
                        ) && (j < row || (j == row && i < col)) {
                            blend_spec(c0.at(i, j), color)
                        } else {
                            c0.at(i, j)
                        },
                decreases x1 - col,
            {
                self.blend_pixel(col, row, color);
                col = col + 1;
            }
            row = row + 1;
        }
    }

    /// Composites every pixel of `src` over this canvas, with the top-left
    /// corner of `src` at `(x, y)`; the parts that fall outside are skipped.
    pub fn overlay(&mut self, src: &Canvas, x: u32, y: u32)
        requires
            old(self).wf(),
            src.wf(),
        ensures
            final(self).wf(),
            final(self).width == old(self).width,
            final(self).height == old(self).height,
            forall|i: int, j: int|
                old(self).contains(i, j) ==> #[trigger] final(self).at(i, j) == if in_rect(
                    i,
                    j,
                    x as int,
                    y as int,
                    src.width as int,
                    src.height as int,
                ) {
                    blend_spec(old(self).at(i, j), src.at(i - x, j - y))
                } else {
                    old(self).at(i, j)
                },
    {
        let ghost c0 = *self;
        let w = src.width;
        let h = src.height;
        let x1: u32 = if (self.width as u64) < x as u64 + w as u64 { self.width } else { x + w };
        let y1: u32 = if (self.height as u64) < y as u64 + h as u64 { self.height } else { y + h };
        let mut row: u32 = y;
        while row < y1
            invariant
                self.wf(),
                src.wf(),
                w == src.width,
                h == src.height,
                self.width == c0.width,
                self.height == c0.height,
                y <= row,
                row >= y1 ==> row == y || row == y1,
                y1 <= self.height,
                x1 <= self.width,
                x1 as int == if (c0.width as int) < x + w { c0.width as int } else { x + w },
                y1 as int == if (c0.height as int) < y + h { c0.height as int } else { y + h },
                forall|i: int, j: int|
                    c0.contains(i, j) ==> #[trigger] self.at(i, j) == if in_rect(
                        i,
                        j,
                        x as int,
                        y as int,
                        w as int,
                        h as int,
                    ) && j < row {
                        blend_spec(c0.at(i, j), src.at(i - x, j - y))
                    } else {
                        c0.at(i, j)
                    },
            decreases y1 - row,
        {
            let mut col: u32 = x;
            while col < x1
                invariant
                    self.wf(),
                    src.wf(),
                    w == src.width,
                    h == src.height,
                    self.width == c0.width,
                    self.height == c0.height,
                    y <= row < y1,
                    x <= col,
                    col >= x1 ==> col == x || col == x1,
                    y1 <= self.height,
                    x1 <= self.width,
                    x1 as int == if (c0.width as int) < x + w { c0.width as int } else { x + w },
                    y1 as int == if (c0.height as int) < y + h { c0.height as int } else { y + h },
                    forall|i: int, j: int|
                        c0.contains(i, j) ==> #[trigger] self.at(i, j) == if in_rect(
                            i,
                            j,
                            x as int,
                            y as int,
                            w as int,
                            h as int,
                        ) && (j < row || (j == row && i < col)) {
                            blend_spec(c0.at(i, j), src.at(i - x, j - y))
                        } else {
                            c0.at(i, j)
                        },
                decreases x1 - col,
            {
                let p = src.get_pixel(col - x, row - y);
                self.blend_pixel(col, row, p);
                col = col + 1;
            }
            row = row + 1;
        }
    }
}

} // verus!
