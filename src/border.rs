//! Border drawing: rectangular borders and antialiased rounded borders.

use vstd::prelude::*;
use crate::canvas::{blend_spec, in_rect, Canvas, Rgba};
use crate::layout::Layout;
use crate::style::Style;

verus! {

/// Composites `color` over `p` when `(i, j)` lies in a band of positive
/// thickness `t` at `(x, y)` of size `w` by `h`.
pub open spec fn band_px(p: Rgba, color: Rgba, t: int, i: int, j: int, x: int, y: int, w: int, h: int) -> Rgba {
    if t > 0 && in_rect(i, j, x, y, w, h) {
        blend_spec(p, color)
    } else {
        p
    }
}

/// The height between the top and bottom borders, or zero when they meet.
pub open spec fn side_height(l: Layout) -> int {
    if l.height - l.border_top - l.border_bottom > 0 {
        l.height - l.border_top - l.border_bottom
    } else {
        0
    }
}

/// The pixel after a rectangular border is drawn: the top band, the bottom
/// band, then the left and right bands between them, each composited in turn.
pub open spec fn rect_border_px(l: Layout, color: Rgba, p: Rgba, i: int, j: int) -> Rgba {
    let (x, y, w, h) = (l.x as int, l.y as int, l.width as int, l.height as int);
    let p1 = band_px(p, color, l.border_top as int, i, j, x, y, w, l.border_top as int);
    let p2 = band_px(p1, color, l.border_bottom as int, i, j, x, y + h - l.border_bottom, w, l.border_bottom as int);
    let p3 = band_px(p2, color, l.border_left as int, i, j, x, y + l.border_top, l.border_left as int, side_height(l));
    band_px(p3, color, l.border_right as int, i, j, x + w - l.border_right, y + l.border_top, l.border_right as int, side_height(l))
}

/// Draws a border without rounded corners as four rectangles: top and
/// bottom span the full width, left and right only the height between them
/// (none when the top and bottom borders meet). For a layout whose borders
/// fit inside its box the four do not overlap.
pub fn draw_rectangular_border(canvas: &mut Canvas, layout: &Layout, color: Rgba)
    requires
        old(canvas).wf(),
        layout.x as int + layout.width as int <= u32::MAX,
        layout.y as int + layout.height as int <= u32::MAX,
    ensures
        final(canvas).wf(),
        final(canvas).width == old(canvas).width,
        final(canvas).height == old(canvas).height,
        forall|i: int, j: int|
            old(canvas).contains(i, j) ==> #[trigger] final(canvas).at(i, j) == rect_border_px(*layout, color, old(canvas).at(i, j), i, j),
        layout.wf() ==> forall|i: int, j: int|
            old(canvas).contains(i, j) ==> #[trigger] final(canvas).at(i, j) == if layout.in_ring(
                i,
                j,
            ) {
                blend_spec(old(canvas).at(i, j), color)
            } else {
                old(canvas).at(i, j)
            },
{
    let x = layout.x;
    let y = layout.y;
    let w = layout.width;
    let h = layout.height;
    let inner_height: u32 = if (h as u64) > layout.border_top as u64 + layout.border_bottom as u64 {
        h - layout.border_top - layout.border_bottom
    } else {
        0
    };
    if layout.border_top > 0 {
        canvas.fill_rect(x, y, w, layout.border_top, color);
    }
    if layout.border_bottom > 0 {
        if y + h >= layout.border_bottom {
            canvas.fill_rect(x, y + h - layout.border_bottom, w, layout.border_bottom, color);
        } else {
            canvas.fill_rect(x, 0, w, y + h, color);
        }
    }
    if layout.border_left > 0 && inner_height > 0 {
        canvas.fill_rect(x, y + layout.border_top, layout.border_left, inner_height, color);
    }
    if layout.border_right > 0 && inner_height > 0 {
        if x + w >= layout.border_right {
            canvas.fill_rect(x + w - layout.border_right, y + layout.border_top, layout.border_right, inner_height, color);
        } else {
            canvas.fill_rect(0, y + layout.border_top, x + w, inner_height, color);
        }
    }
}

/// Antialiased coverage, on the 0..=255 scale, of a point at squared distance
/// `d` from a corner's centre, for a corner of radius `r`, both in half-pixel
/// units (`d` is four times the squared distance in pixels). Coverage falls
/// linearly over a band one pixel wide around the curve.
pub open spec fn coverage_of(d: int, r: int) -> int {
    let lim = 4 * r * r + 4 * r;
    if d >= lim {
        0
    } else if 255 * (lim - d) / (8 * r) >= 255 {
        255
    } else {
        255 * (lim - d) / (8 * r)
    }
}

/// The radius actually used for a box of size `w` by `h`: at most half of
/// either side.
pub open spec fn effective_radius(w: int, h: int, r: int) -> int {
    let half = if w / 2 < h / 2 { w / 2 } else { h / 2 };
    if r < half { r } else { half }
}

/// Whether position `p` along an axis of length `size` falls in a corner band.
pub open spec fn in_corner_band(p: int, size: int, r: int) -> bool {
    p < r || p >= size - r
}

/// Distance, in half pixels, from the centre of pixel `p` to the corner
/// centre along one axis.
pub open spec fn axis_offset(p: int, size: int, r: int) -> int {
    if p < r {
        2 * r - (2 * p + 1)
    } else {
        (2 * p + 1) - 2 * (size - r)
    }
}

/// Coverage of pixel `(x, y)` in a box of size `w` by `h` whose four corners
/// are rounded with radius `r`.
pub open spec fn corner_coverage_spec(w: int, h: int, r: int, x: int, y: int) -> int {
    let re = effective_radius(w, h, r);
    if re > 0 && in_corner_band(x, w, re) && in_corner_band(y, h, re) {
        let dx = axis_offset(x, w, re);
        let dy = axis_offset(y, h, re);
        coverage_of(dx * dx + dy * dy, re)
    } else {
        255
    }
}

fn coverage_exec(d: u128, r: u128) -> (c: u8)
    requires
        0 < r <= 0x1_0000_0000,
        d <= 0x8_0000_0000_0000_0000,
    ensures
        c as int == coverage_of(d as int, r as int),
{
    proof {
        assert(4 * r * r <= 0x4_0000_0000_0000_0000) by (nonlinear_arith)
            requires
                0 < r <= 0x1_0000_0000,
        ;
    }
    let lim: u128 = 4 * r * r + 4 * r;
    if d >= lim {
        0
    } else {
        let q: u128 = 255 * (lim - d) / (8 * r);
        if q >= 255 {
            255
        } else {
            q as u8
        }
    }
}

fn axis_offset_exec(p: u32, size: u32, r: u32) -> (o: u128)
    requires
        p < size,
        2 * r <= size,
        in_corner_band(p as int, size as int, r as int),
    ensures
        o as int == axis_offset(p as int, size as int, r as int),
        0 <= o <= 2 * r,
{
    if p < r {
        2 * r as u128 - (2 * p as u128 + 1)
    } else {
        (2 * p as u128 + 1) - 2 * (size as u128 - r as u128)
    }
}

/// Antialiased coverage of pixel `(x, y)` in a `w` by `h` box with corners of
/// radius `r`: 255 away from the corners, falling to 0 outside the curve.
pub fn corner_coverage(w: u32, h: u32, r: u32, x: u32, y: u32) -> (c: u8)
    requires
        x < w,
        y < h,
    ensures
        c as int == corner_coverage_spec(w as int, h as int, r as int, x as int, y as int),
{
    let half: u32 = if w / 2 < h / 2 { w / 2 } else { h / 2 };
    let re: u32 = if r < half { r } else { half };
    if re > 0 && (x < re || x >= w - re) && (y < re || y >= h - re) {
        let dx = axis_offset_exec(x, w, re);
        let dy = axis_offset_exec(y, h, re);
        proof {
            assert(dx * dx <= 0x4_0000_0000_0000_0000) by (nonlinear_arith)
                requires
                    0 <= dx <= 0x2_0000_0000,
            ;
            assert(dy * dy <= 0x4_0000_0000_0000_0000) by (nonlinear_arith)
                requires
                    0 <= dy <= 0x2_0000_0000,
            ;
        }
        coverage_exec(dx * dx + dy * dy, re as u128)
    } else {
        255
    }
}

/// Alpha scaled by a coverage: `alpha * coverage / 255`.
pub open spec fn masked_alpha(alpha: int, coverage: int) -> int {
    alpha * coverage / 255
}

/// Alpha left where an inner shape of the given coverage is cut out:
/// `alpha * (255 - coverage) / 255`.
pub open spec fn cutout_alpha_spec(alpha: int, coverage: int) -> int {
    alpha * (255 - coverage) / 255
}

/// Scales `alpha` by `coverage`.
pub fn mask_alpha(alpha: u8, coverage: u8) -> (r: u8)
    ensures
        r as int == masked_alpha(alpha as int, coverage as int),
{
    proof {
        assert(alpha as int * coverage as int <= 255 * 255) by (nonlinear_arith)
            requires
                0 <= alpha <= 255,
                0 <= coverage <= 255,
        ;
    }
    (alpha as u32 * coverage as u32 / 255) as u8
}

/// Reduces `alpha` in proportion to the coverage of an inner cutout.
pub fn cutout_alpha(alpha: u8, coverage: u8) -> (r: u8)
    ensures
        r as int == cutout_alpha_spec(alpha as int, coverage as int),
{
    proof {
        assert(alpha as int * (255 - coverage as int) <= 255 * 255) by (nonlinear_arith)
            requires
                0 <= alpha <= 255,
                0 <= coverage <= 255,
        ;
    }
    (alpha as u32 * (255 - coverage as u32) / 255) as u8
}

/// The radius of the inner curve: the outer radius less the average of the
/// four border widths, and never below zero.
pub open spec fn inner_radius_spec(layout: Layout, r: int) -> int {
    let avg = (layout.border_left + layout.border_right + layout.border_top
        + layout.border_bottom) / 4;
    if r - avg > 0 { r - avg } else { 0 }
}

/// Whether the area inside the borders is not empty.
pub open spec fn has_inner_area(layout: Layout) -> bool {
    layout.border_left < layout.width - layout.border_right && layout.border_top
        < layout.height - layout.border_bottom
}

/// Alpha of pixel `(i, j)` of the rounded border image, in coordinates local
/// to the border box.
pub open spec fn rounded_border_alpha(layout: Layout, alpha: int, r: int, i: int, j: int) -> int {
    let outer = masked_alpha(alpha, corner_coverage_spec(layout.width as int, layout.height as int, r, i, j));
    let il = layout.border_left as int;
    let it = layout.border_top as int;
    let iw = layout.width - layout.border_right - il;
    let ih = layout.height - layout.border_bottom - it;
    if has_inner_area(layout) && il <= i < il + iw && it <= j < it + ih {
        cutout_alpha_spec(outer, corner_coverage_spec(iw, ih, inner_radius_spec(layout, r), i - il, j - it))
    } else {
        outer
    }
}

/// Pixel `(i, j)` of the rounded border image.
pub open spec fn rounded_border_pixel(layout: Layout, color: Rgba, r: int, i: int, j: int) -> Rgba {
    Rgba { r: color.r, g: color.g, b: color.b, a: rounded_border_alpha(layout, color.a as int, r, i, j) as u8 }
}

/// The border image of a rounded border: the border colour, masked by the
/// antialiased outer curve, with the antialiased inner area cut out.
pub fn rounded_border_image(layout: &Layout, color: Rgba, radius: u32) -> (img: Canvas)
    requires
        layout.wf(),
        layout.width as int * layout.height as int <= usize::MAX,
    ensures
        img.wf(),
        img.width == layout.width,
        img.height == layout.height,
        forall|i: int, j: int| img.contains(i, j) ==> #[trigger] img.at(i, j)
            == rounded_border_pixel(*layout, color, radius as int, i, j),
{
    let w = layout.width;
    let h = layout.height;
    let mut img = Canvas::from_pixel(w, h, color);
    let il: u32 = layout.border_left;
    let it: u32 = layout.border_top;
    let ir: u32 = w - layout.border_right;
    let ib: u32 = h - layout.border_bottom;
    let avg: u32 = ((layout.border_left as u64 + layout.border_right as u64 + layout.border_top as u64
        + layout.border_bottom as u64) / 4) as u32;
    let inner_r: u32 = if radius > avg { radius - avg } else { 0 };
    let inner = il < ir && it < ib;
    let mut y: u32 = 0;
    while y < h
        invariant
            img.wf(),
            img.width == w,
            img.height == h,
            w == layout.width,
            h == layout.height,
            layout.wf(),
            il == layout.border_left,
            it == layout.border_top,
            ir == w - layout.border_right,
            ib == h - layout.border_bottom,
            inner == has_inner_area(*layout),
            inner_r == inner_radius_spec(*layout, radius as int),
            y <= h,
            forall|i: int, j: int| img.contains(i, j) ==> #[trigger] img.at(i, j) == if j < y {
                rounded_border_pixel(*layout, color, radius as int, i, j)
            } else {
                color
            },
        decreases h - y,
    {
        let mut x: u32 = 0;
        while x < w
            invariant
                img.wf(),
                img.width == w,
                img.height == h,
                w == layout.width,
                h == layout.height,
                layout.wf(),
                il == layout.border_left,
                it == layout.border_top,
                ir == w - layout.border_right,
                ib == h - layout.border_bottom,
                inner == has_inner_area(*layout),
                inner_r == inner_radius_spec(*layout, radius as int),
                y < h,
                x <= w,
                forall|i: int, j: int| img.contains(i, j) ==> #[trigger] img.at(i, j) == if j < y || (j == y && i < x) {
                    rounded_border_pixel(*layout, color, radius as int, i, j)
                } else {
                    color
                },
            decreases w - x,
        {
            let cov = corner_coverage(w, h, radius, x, y);
            let mut a = mask_alpha(color.a, cov);
            if inner && il <= x && x < ir && it <= y && y < ib {
                let inner_cov = corner_coverage(ir - il, ib - it, inner_r, x - il, y - it);
                a = cutout_alpha(a, inner_cov);
            }
            img.put_pixel(x, y, Rgba { r: color.r, g: color.g, b: color.b, a });
            x = x + 1;
        }
        y = y + 1;
    }
    img
}

/// Draws a border whose four corners are rounded with `radius`, antialiased
/// on both the outer and the inner curve.
pub fn draw_rounded_border(canvas: &mut Canvas, layout: &Layout, color: Rgba, radius: u32)
    requires
        old(canvas).wf(),
        layout.wf(),
        layout.width as int * layout.height as int <= usize::MAX,
    ensures
        final(canvas).wf(),
        final(canvas).width == old(canvas).width,
        final(canvas).height == old(canvas).height,
        forall|i: int, j: int|
            old(canvas).contains(i, j) ==> #[trigger] final(canvas).at(i, j) == if !layout.no_border()
                && layout.in_outer(i, j) {
                blend_spec(
                    old(canvas).at(i, j),
                    rounded_border_pixel(*layout, color, radius as int, i - layout.x, j - layout.y),
                )
            } else {
                old(canvas).at(i, j)
            },
{
    if layout.border_left == 0 && layout.border_right == 0 && layout.border_top == 0
        && layout.border_bottom == 0 {
        return;
    }
    let img = rounded_border_image(layout, color, radius);
    canvas.overlay(&img, layout.x, layout.y);
}

} // verus!

verus! {

/// The border colour used when a style sets none: opaque black.
pub open spec fn default_border_color() -> Rgba {
    Rgba { r: 0, g: 0, b: 0, a: 255 }
}

/// The colour a border is drawn in.
pub open spec fn border_color_of(style: Style) -> Rgba {
    match style.inheritable_style.border_color {
        Some(c) => c,
        None => default_border_color(),
    }
}

/// Draws the border of a node: nothing when all four widths are zero, a
/// rounded border when the style sets a radius, four rectangles otherwise.
pub fn draw_border(style: &Style, canvas: &mut Canvas, layout: &Layout)
    requires
        old(canvas).wf(),
        layout.wf(),
        layout.width as int * layout.height as int <= usize::MAX,
    ensures
        final(canvas).wf(),
        final(canvas).width == old(canvas).width,
        final(canvas).height == old(canvas).height,
        layout.no_border() ==> *final(canvas) == *old(canvas),
        forall|i: int, j: int|
            old(canvas).contains(i, j) ==> #[trigger] final(canvas).at(i, j) == if layout.no_border() {
                old(canvas).at(i, j)
            } else {
                match style.inheritable_style.border_radius {
                    Some(r) => if layout.in_outer(i, j) {
                        blend_spec(
                            old(canvas).at(i, j),
                            rounded_border_pixel(*layout, border_color_of(*style), r as int, i - layout.x, j - layout.y),
                        )
                    } else {
                        old(canvas).at(i, j)
                    },
                    None => if layout.in_ring(i, j) {
                        blend_spec(old(canvas).at(i, j), border_color_of(*style))
                    } else {
                        old(canvas).at(i, j)
                    },
                }
            },
{
    if layout.border_top == 0 && layout.border_right == 0 && layout.border_bottom == 0
        && layout.border_left == 0 {
        return;
    }
    let color = match style.inheritable_style.border_color {
        Some(c) => c,
        None => Rgba { r: 0, g: 0, b: 0, a: 255 },
    };
    match style.inheritable_style.border_radius {
        Some(r) => draw_rounded_border(canvas, layout, color, r),
        None => draw_rectangular_border(canvas, layout, color),
    }
}

} // verus!

verus! {

/// Within one corner, a pixel farther from the corner's centre is covered
/// no more than a nearer one, and every coverage lies in 0..=255.
pub proof fn lemma_corner_coverage_monotonic(w: int, h: int, r: int, x1: int, y1: int, x2: int, y2: int)
    requires
        effective_radius(w, h, r) > 0,
        in_corner_band(x1, w, effective_radius(w, h, r)) && in_corner_band(y1, h, effective_radius(w, h, r)),
        in_corner_band(x2, w, effective_radius(w, h, r)) && in_corner_band(y2, h, effective_radius(w, h, r)),
        ({
            let re = effective_radius(w, h, r);
            let a = axis_offset(x1, w, re);
            let b = axis_offset(y1, h, re);
            let c = axis_offset(x2, w, re);
            let d = axis_offset(y2, h, re);
            a * a + b * b <= c * c + d * d
        }),
    ensures
        corner_coverage_spec(w, h, r, x2, y2) <= corner_coverage_spec(w, h, r, x1, y1),
        0 <= corner_coverage_spec(w, h, r, x2, y2) <= 255,
{
    let re = effective_radius(w, h, r);
    let a = axis_offset(x1, w, re);
    let b = axis_offset(y1, h, re);
    assert(a * a + b * b >= 0) by (nonlinear_arith);
    lemma_coverage_antialiased(
        a * a + b * b,
        axis_offset(x2, w, re) * axis_offset(x2, w, re) + axis_offset(y2, h, re) * axis_offset(y2, h, re),
        re,
    );
    lemma_coverage_antialiased(
        axis_offset(x2, w, re) * axis_offset(x2, w, re) + axis_offset(y2, h, re) * axis_offset(y2, h, re),
        axis_offset(x2, w, re) * axis_offset(x2, w, re) + axis_offset(y2, h, re) * axis_offset(y2, h, re),
        re,
    );
}

proof fn lemma_div_parts(a: int, m: int)
    requires
        m > 0,
    ensures
        a == m * (a / m) + a % m,
        0 <= a % m < m,
{
    vstd::arithmetic::div_mod::lemma_fundamental_div_mod(a, m);
}

/// Rounded-corner coverage is antialiased: it never grows with distance from
/// the corner's centre, it is full well inside the curve, zero outside it,
/// strictly between the two on the curve itself, and one step of squared
/// distance changes it by less than `255 / (8 r) + 1`, so there is no jump.
pub proof fn lemma_coverage_antialiased(d1: int, d2: int, r: int)
    requires
        0 < r,
        0 <= d1 <= d2,
    ensures
        0 <= coverage_of(d1, r) <= 255,
        coverage_of(d2, r) <= coverage_of(d1, r),
        d1 <= 4 * r * r - 4 * r ==> coverage_of(d1, r) == 255,
        d1 >= 4 * r * r + 4 * r ==> coverage_of(d1, r) == 0,
        0 < coverage_of(4 * r * r, r) < 255,
        8 * r * (coverage_of(d1, r) - coverage_of(d1 + 1, r)) < 255 + 8 * r,
{
    let lim = 4 * r * r + 4 * r;
    let m = 8 * r;
    let a1 = 255 * (lim - d1);
    let a2 = 255 * (lim - d2);
    let a3 = 255 * (lim - (d1 + 1));
    lemma_div_parts(a1, m);
    lemma_div_parts(a2, m);
    lemma_div_parts(a3, m);
    assert(a2 <= a1) by (nonlinear_arith)
        requires
            d1 <= d2,
            a1 == 255 * (lim - d1),
            a2 == 255 * (lim - d2),
    ;
    vstd::arithmetic::div_mod::lemma_div_is_ordered(a2, a1, m);
    assert(a3 == a1 - 255);
    assert(m * (a1 / m - a3 / m) < 255 + m) by (nonlinear_arith)
        requires
            a1 == m * (a1 / m) + a1 % m,
            a3 == m * (a3 / m) + a3 % m,
            0 <= a1 % m < m,
            0 <= a3 % m < m,
            a3 == a1 - 255,
    ;
    if d1 <= 4 * r * r - 4 * r {
        assert(a1 >= 255 * m) by (nonlinear_arith)
            requires
                d1 <= 4 * r * r - 4 * r,
                lim == 4 * r * r + 4 * r,
                a1 == 255 * (lim - d1),
                m == 8 * r,
        ;
        if a1 / m < 255 {
            assert(m * (a1 / m) <= m * 254) by (nonlinear_arith)
                requires
                    a1 / m <= 254,
                    m > 0,
            ;
        }
    }
    let ac = 255 * (lim - 4 * r * r);
    assert(ac == m * 127 + 4 * r) by (nonlinear_arith)
        requires
            ac == 255 * (lim - 4 * r * r),
            lim == 4 * r * r + 4 * r,
            m == 8 * r,
    ;
    vstd::arithmetic::div_mod::lemma_fundamental_div_mod_converse(ac, m, 127, 4 * r);
    assert(4 * r * r < lim) by (nonlinear_arith)
        requires
            lim == 4 * r * r + 4 * r,
            r > 0,
    ;
    vstd::arithmetic::div_mod::lemma_div_is_ordered(a3, a1, m);
    let c1 = coverage_of(d1, r);
    let c3 = coverage_of(d1 + 1, r);
    if d1 >= lim {
    } else if d1 + 1 >= lim {
        assert(a1 == 255) by (nonlinear_arith)
            requires
                a1 == 255 * (lim - d1),
                d1 + 1 >= lim,
                d1 < lim,
        ;
        assert(c1 <= a1 / m);
        assert(m * c1 <= m * (a1 / m)) by (nonlinear_arith)
            requires
                c1 <= a1 / m,
                m > 0,
        ;
    } else {
        assert(c1 - c3 <= a1 / m - a3 / m);
        assert(m * (c1 - c3) <= m * (a1 / m - a3 / m)) by (nonlinear_arith)
            requires
                c1 - c3 <= a1 / m - a3 / m,
                m > 0,
        ;
    }
}

} // verus!
