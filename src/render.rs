//! Painting a hydrated, laid-out tree into a canvas, and the render stages.

use vstd::prelude::*;
use crate::border::{border_color_of, corner_coverage, corner_coverage_spec, draw_border, mask_alpha, masked_alpha, rounded_border_pixel};
use crate::canvas::{Canvas, Rgba};
use crate::codec::{bad_quality, canvas_bytes, encode, encoded_canvas, pixel_of_bytes, resize_canvas, resized_rgba, EncodeError, ImageOutputFormat};
use crate::font::FontContext;
use crate::layout::Layout;
use crate::node::{all_hydrated_from, hydrated_from, style_of, ImageState, ImageStore, Node};
use crate::store::NoopImageStore;
use crate::style::{LengthUnit, Style};

verus! {

/// Pixel `(i, j)` of a box of colour `color` whose corners are rounded
/// with radius `r`.
pub open spec fn rounded_fill_pixel(w: int, h: int, color: Rgba, r: int, i: int, j: int) -> Rgba {
    Rgba { r: color.r, g: color.g, b: color.b, a: masked_alpha(color.a as int, corner_coverage_spec(w, h, r, i, j)) as u8 }
}

/// A `w` by `h` image of `color` with antialiased rounded corners.
pub fn rounded_fill_image(w: u32, h: u32, color: Rgba, radius: u32) -> (img: Canvas)
    requires
        w as int * h as int <= usize::MAX,
    ensures
        img.wf(),
        img.width == w,
        img.height == h,
        forall|i: int, j: int| img.contains(i, j) ==> #[trigger] img.at(i, j)
            == rounded_fill_pixel(w as int, h as int, color, radius as int, i, j),
{
    let mut img = Canvas::from_pixel(w, h, color);
    let mut y: u32 = 0;
    while y < h
        invariant
            img.wf(),
            img.width == w,
            img.height == h,
            y <= h,
            forall|i: int, j: int| img.contains(i, j) ==> #[trigger] img.at(i, j) == if j < y {
                rounded_fill_pixel(w as int, h as int, color, radius as int, i, j)
            } else {
                color
            },
        decreases h - y,
    {
        let mut x: u32 = 0;
        while x < w
            invariant
                img.wf(),
                img.width == w,
                img.height == h,
                y < h,
                x <= w,
                forall|i: int, j: int| img.contains(i, j) ==> #[trigger] img.at(i, j) == if j < y || (j == y && i < x) {
                    rounded_fill_pixel(w as int, h as int, color, radius as int, i, j)
                } else {
                    color
                },
            decreases w - x,
        {
            let cov = corner_coverage(w, h, radius, x, y);
            let a = mask_alpha(color.a, cov);
            img.put_pixel(x, y, Rgba { r: color.r, g: color.g, b: color.b, a });
            x = x + 1;
        }
        y = y + 1;
    }
    img
}

/// Fills the node's box with its background colour, rounded when the style
/// sets a radius; nothing when it sets no background.
pub fn draw_background(style: &Style, canvas: &mut Canvas, layout: &Layout)
    requires
        old(canvas).wf(),
        layout.wf(),
        layout.width as int * layout.height as int <= usize::MAX,
    ensures
        final(canvas).wf(),
        final(canvas).width == old(canvas).width,
        final(canvas).height == old(canvas).height,
        style.background_color is None ==> *final(canvas) == *old(canvas),
        forall|i: int, j: int|
            old(canvas).contains(i, j) ==> #[trigger] final(canvas).at(i, j) == match style.background_color {
                None => old(canvas).at(i, j),
                Some(c) => if layout.in_outer(i, j) {
                    crate::canvas::blend_spec(old(canvas).at(i, j), match style.inheritable_style.border_radius {
                        Some(r) => rounded_fill_pixel(layout.width as int, layout.height as int, c, r as int, i - layout.x, j - layout.y),
                        None => c,
                    })
                } else {
                    old(canvas).at(i, j)
                },
            },
{
    match style.background_color {
        None => {},
        Some(c) => match style.inheritable_style.border_radius {
            Some(r) => {
                let img = rounded_fill_image(layout.width, layout.height, c, r);
                canvas.overlay(&img, layout.x, layout.y);
            },
            None => canvas.fill_rect(layout.x, layout.y, layout.width, layout.height, c),
        },
    }
}

/// The debug outline colour: opaque red.
pub open spec fn debug_color() -> Rgba {
    Rgba { r: 255, g: 0, b: 0, a: 255 }
}

/// `w * h`, which always fits in 64 bits.
pub fn area(w: u32, h: u32) -> (r: u64)
    ensures
        r == w as int * h as int,
{
    proof {
        assert(w as int * h as int <= 0xffff_ffff * 0xffff_ffff) by (nonlinear_arith)
            requires
                w <= 0xffff_ffff,
                h <= 0xffff_ffff,
        ;
    }
    w as u64 * h as u64
}

/// Whether `(i, j)` lies on the one-pixel outline of the layout's box.
pub open spec fn on_outline(l: Layout, i: int, j: int) -> bool {
    &&& l.in_outer(i, j)
    &&& (i == l.x || i == l.x + l.width - 1 || j == l.y || j == l.y + l.height - 1)
}

/// An opaque colour composited over anything gives that colour.
pub proof fn lemma_blend_opaque(dst: Rgba, src: Rgba)
    requires
        src.a == 255,
    ensures
        crate::canvas::blend_spec(dst, src) == src,
{
    assert((src.r as int * 255 + dst.r as int * 0) / 255 == src.r as int);
    assert((src.g as int * 255 + dst.g as int * 0) / 255 == src.g as int);
    assert((src.b as int * 255 + dst.b as int * 0) / 255 == src.b as int);
}

/// Outlines the node's box with a one-pixel line.
pub fn draw_debug_border(canvas: &mut Canvas, layout: &Layout)
    requires
        old(canvas).wf(),
        layout.wf(),
    ensures
        final(canvas).wf(),
        final(canvas).width == old(canvas).width,
        final(canvas).height == old(canvas).height,
        forall|i: int, j: int|
            old(canvas).contains(i, j) ==> #[trigger] final(canvas).at(i, j) == if on_outline(*layout, i, j) {
                debug_color()
            } else {
                old(canvas).at(i, j)
            },
{
    let red = Rgba { r: 255, g: 0, b: 0, a: 255 };
    if layout.width == 0 || layout.height == 0 {
        return;
    }
    let ghost c0 = *canvas;
    canvas.fill_rect(layout.x, layout.y, layout.width, 1, red);
    let ghost c1 = *canvas;
    canvas.fill_rect(layout.x, layout.y + layout.height - 1, layout.width, 1, red);
    let ghost c2 = *canvas;
    canvas.fill_rect(layout.x, layout.y, 1, layout.height, red);
    let ghost c3 = *canvas;
    canvas.fill_rect(layout.x + layout.width - 1, layout.y, 1, layout.height, red);
    assert forall|i: int, j: int| c0.contains(i, j) implies #[trigger] canvas.at(i, j) == if on_outline(*layout, i, j) {
        debug_color()
    } else {
        c0.at(i, j)
    } by {
        lemma_blend_opaque(c0.at(i, j), red);
        lemma_blend_opaque(c1.at(i, j), red);
        lemma_blend_opaque(c2.at(i, j), red);
        lemma_blend_opaque(c3.at(i, j), red);
    }
}

/// Whether `(i, j)` lies in the area inside the layout's borders.
pub open spec fn in_content(l: Layout, i: int, j: int) -> bool {
    crate::canvas::in_rect(
        i,
        j,
        l.x + l.border_left,
        l.y + l.border_top,
        l.width - l.border_left - l.border_right,
        l.height - l.border_top - l.border_bottom,
    )
}

/// The pixel after the background step of painting a node.
pub open spec fn background_px(style: Style, l: Layout, p: Rgba, i: int, j: int) -> Rgba {
    match style.background_color {
        None => p,
        Some(c) => if l.in_outer(i, j) {
            crate::canvas::blend_spec(p, match style.inheritable_style.border_radius {
                Some(r) => rounded_fill_pixel(l.width as int, l.height as int, c, r as int, i - l.x, j - l.y),
                None => c,
            })
        } else {
            p
        },
    }
}

/// The pixel after the border step of painting a node.
pub open spec fn border_px(style: Style, l: Layout, p: Rgba, i: int, j: int) -> Rgba {
    if l.no_border() {
        p
    } else {
        match style.inheritable_style.border_radius {
            Some(r) => if l.in_outer(i, j) {
                crate::canvas::blend_spec(p, rounded_border_pixel(l, border_color_of(style), r as int, i - l.x, j - l.y))
            } else {
                p
            },
            None => if l.in_ring(i, j) {
                crate::canvas::blend_spec(p, border_color_of(style))
            } else {
                p
            },
        }
    }
}

/// The pixel after an image state is drawn into the area inside the borders:
/// a decoded image of that size as it is, one of another size resized to it
/// (when the resampled bytes come to that size), anything else not at all.
pub open spec fn image_px(state: ImageState, l: Layout, p: Rgba, i: int, j: int) -> Rgba {
    let cw = l.width - l.border_left - l.border_right;
    let ch = l.height - l.border_top - l.border_bottom;
    let ox = l.x + l.border_left;
    let oy = l.y + l.border_top;
    match state {
        ImageState::Fetched(img) => if img.pixels@.len() == img.width as int * img.height as int && in_content(l, i, j) {
            if img.width == cw && img.height == ch {
                crate::canvas::blend_spec(p, img.at(i - ox, j - oy))
            } else {
                let b = resized_rgba(img.width, img.height, canvas_bytes(img), cw as u32, ch as u32);
                if b.len() == 4 * cw * ch {
                    crate::canvas::blend_spec(p, pixel_of_bytes(b, (j - oy) * cw + (i - ox)))
                } else {
                    p
                }
            }
        } else {
            p
        },
        _ => p,
    }
}

/// The pixel after the debug outline step.
pub open spec fn debug_px(debug: bool, l: Layout, p: Rgba, i: int, j: int) -> Rgba {
    if debug && on_outline(l, i, j) {
        debug_color()
    } else {
        p
    }
}

/// The pixel after one node is painted: background, border, image, outline.
pub open spec fn node_px(n: Node, l: Layout, debug: bool, p: Rgba, i: int, j: int) -> Rgba {
    let s = style_of(n);
    let q = border_px(s, l, background_px(s, l, p, i, j), i, j);
    let q2 = match n {
        Node::Image(im) => image_px(*im.image, l, q, i, j),
        _ => q,
    };
    debug_px(debug, l, q2, i, j)
}

/// The pixel after the tree below `n` is painted in document order, with
/// the layouts taken from `ls` starting at `idx`.
pub open spec fn paint_px(n: Node, ls: Seq<Layout>, idx: int, debug: bool, p: Rgba, i: int, j: int) -> Rgba
    decreases n,
{
    let q = node_px(n, ls[idx], debug, p, i, j);
    match n {
        Node::Container(c) => match c.children {
            Some(v) => paint_forest_px(v@, ls, idx + 1, debug, q, i, j),
            None => q,
        },
        _ => q,
    }
}

/// The pixel after the trees of `s` are painted one after another.
pub open spec fn paint_forest_px(s: Seq<Node>, ls: Seq<Layout>, idx: int, debug: bool, p: Rgba, i: int, j: int) -> Rgba
    decreases s,
{
    if s.len() == 0 {
        p
    } else {
        paint_px(s.last(), ls, idx + forest_size(s.drop_last()), debug, paint_forest_px(s.drop_last(), ls, idx, debug, p, i, j), i, j)
    }
}

proof fn lemma_paint_forest_push(s: Seq<Node>, k: int, ls: Seq<Layout>, idx: int, debug: bool, p: Rgba, i: int, j: int)
    requires
        0 <= k < s.len(),
    ensures
        paint_forest_px(s.subrange(0, k + 1), ls, idx, debug, p, i, j) == paint_px(
            s[k],
            ls,
            idx + forest_size(s.subrange(0, k)),
            debug,
            paint_forest_px(s.subrange(0, k), ls, idx, debug, p, i, j),
            i,
            j,
        ),
{
    assert(s.subrange(0, k + 1).drop_last() =~= s.subrange(0, k));
}

/// Draws a resolved image over the area inside the node's borders, resized
/// to it when its size differs; an image that failed to resolve leaves the
/// box empty. Nothing outside that area changes.
pub fn draw_image(state: &ImageState, canvas: &mut Canvas, layout: &Layout)
    requires
        old(canvas).wf(),
        layout.wf(),
    ensures
        final(canvas).wf(),
        final(canvas).width == old(canvas).width,
        final(canvas).height == old(canvas).height,
        forall|i: int, j: int|
            old(canvas).contains(i, j) ==> #[trigger] final(canvas).at(i, j) == image_px(*state, *layout, old(canvas).at(i, j), i, j),
        forall|i: int, j: int|
            old(canvas).contains(i, j) && !in_content(*layout, i, j) ==> #[trigger] final(canvas).at(i, j)
                == old(canvas).at(i, j),
        match state {
            ImageState::Fetched(img) => img.wf() && img.width == layout.width - layout.border_left
                - layout.border_right && img.height == layout.height - layout.border_top
                - layout.border_bottom ==> forall|i: int, j: int|
                old(canvas).contains(i, j) && in_content(*layout, i, j) ==> #[trigger] final(canvas).at(i, j)
                    == crate::canvas::blend_spec(
                    old(canvas).at(i, j),
                    img.at(i - layout.x - layout.border_left, j - layout.y - layout.border_top),
                ),
            _ => *final(canvas) == *old(canvas),
        },
{
    let cw: u32 = layout.width - layout.border_left - layout.border_right;
    let ch: u32 = layout.height - layout.border_top - layout.border_bottom;
    let ox: u32 = layout.x + layout.border_left;
    let oy: u32 = layout.y + layout.border_top;
    match state {
        ImageState::Fetched(img) => {
            if img.pixels.len() as u64 == area(img.width, img.height) {
                if img.width == cw && img.height == ch {
                    canvas.overlay(img, ox, oy);
                } else {
                    match resize_canvas(img, cw, ch) {
                        Some(fitted) => {
                            let ghost c0 = *canvas;
                            canvas.overlay(&fitted, ox, oy);
                            assert forall|i: int, j: int| c0.contains(i, j) implies #[trigger] canvas.at(i, j)
                                == image_px(*state, *layout, c0.at(i, j), i, j) by {
                                if in_content(*layout, i, j) {
                                    crate::canvas::lemma_index_in_bounds(i - ox, j - oy, cw as int, ch as int);
                                }
                            }
                        },
                        None => {},
                    }
                }
            }
        },
        _ => {},
    }
}

/// Render-mode flags and the image store shared by every render.
pub struct GlobalContext<S> {
    pub print_debug_tree: bool,
    pub draw_debug_border: bool,
    pub font_context: FontContext,
    pub image_store: S,
}

impl Default for GlobalContext<NoopImageStore> {
    /// No debug output, no fonts, and a store that neither caches nor fetches.
    fn default() -> (r: Self)
        ensures
            !r.print_debug_tree,
            !r.draw_debug_border,
            r.image_store.store_entries().len() == 0,
            r.font_context.face_count() == 0,
    {
        GlobalContext {
            print_debug_tree: false,
            draw_debug_border: false,
            font_context: FontContext::new(),
            image_store: NoopImageStore,
        }
    }
}

/// Paints one node: background, then border, then its image, then the
/// debug outline when asked for.
pub fn draw_node(node: &Node, canvas: &mut Canvas, layout: &Layout, debug: bool)
    requires
        old(canvas).wf(),
        layout.wf(),
        layout.width as int * layout.height as int <= usize::MAX,
    ensures
        final(canvas).wf(),
        final(canvas).width == old(canvas).width,
        final(canvas).height == old(canvas).height,
        forall|i: int, j: int|
            old(canvas).contains(i, j) ==> #[trigger] final(canvas).at(i, j) == node_px(*node, *layout, debug, old(canvas).at(i, j), i, j),
        forall|i: int, j: int|
            old(canvas).contains(i, j) && !layout.in_outer(i, j) ==> #[trigger] final(canvas).at(i, j)
                == old(canvas).at(i, j),
{
    let ghost c0 = *canvas;
    let style = node.get_style();
    draw_background(style, canvas, layout);
    let ghost c1 = *canvas;
    draw_border(style, canvas, layout);
    let ghost c2 = *canvas;
    match node {
        Node::Image(im) => draw_image(&*im.image, canvas, layout),
        _ => {},
    }
    let ghost c3 = *canvas;
    if debug {
        draw_debug_border(canvas, layout);
    }
    assert forall|i: int, j: int| c0.contains(i, j) implies #[trigger] canvas.at(i, j) == node_px(*node, *layout, debug, c0.at(i, j), i, j) by {
        assert(c1.at(i, j) == background_px(style_of(*node), *layout, c0.at(i, j), i, j));
        assert(c2.at(i, j) == border_px(style_of(*node), *layout, c1.at(i, j), i, j));
    }
}

/// The number of nodes in the tree below and including `n`.
pub open spec fn tree_size(n: Node) -> nat
    decreases n,
{
    match n {
        Node::Container(c) => match c.children {
            Some(v) => 1 + forest_size(v@),
            None => 1,
        },
        _ => 1,
    }
}

/// The number of nodes in the trees of `s`.
pub open spec fn forest_size(s: Seq<Node>) -> nat
    decreases s,
{
    if s.len() == 0 {
        0
    } else {
        forest_size(s.drop_last()) + tree_size(s.last())
    }
}

/// Whether `(i, j)` lies outside the boxes of the layouts in `from .. to`.
pub open spec fn outside_all(ls: Seq<Layout>, from: int, to: int, i: int, j: int) -> bool {
    forall|k: int| from <= k < to ==> !(#[trigger] ls[k]).in_outer(i, j)
}

/// Hydration keeps the number of nodes.
pub proof fn lemma_hydration_keeps_size(a: Node, b: Node)
    requires
        hydrated_from(a, b),
    ensures
        tree_size(a) == tree_size(b),
    decreases a,
{
    match (a, b) {
        (Node::Container(ca), Node::Container(cb)) => {
            match (ca.children, cb.children) {
                (Some(va), Some(vb)) => {
                    assert(decreases_to!(va => va@));
                    lemma_hydration_keeps_forest_size(va@, vb@);
                },
                _ => {},
            }
        },
        _ => {},
    }
}

/// Hydration keeps the number of nodes of a sequence of trees.
pub proof fn lemma_hydration_keeps_forest_size(s: Seq<Node>, t: Seq<Node>)
    requires
        all_hydrated_from(s, t),
    ensures
        forest_size(s) == forest_size(t),
    decreases s,
{
    if s.len() > 0 {
        assert(decreases_to!(s => s[s.len() - 1]));
        lemma_hydration_keeps_size(s.last(), t.last());
        assert(decreases_to!(s => s.subrange(0, s.len() - 1)));
        lemma_hydration_keeps_forest_size(s.drop_last(), t.drop_last());
    }
}

/// A layout the painter accepts: consistent, and small enough to allocate.
pub open spec fn layout_ok(l: Layout) -> bool {
    l.wf() && l.width as int * l.height as int <= usize::MAX
}

/// Every layout in `from .. to` is one the painter accepts.
pub open spec fn layouts_ok(ls: Seq<Layout>, from: int, to: int) -> bool {
    forall|k: int| from <= k < to ==> #[trigger] layout_ok(ls[k])
}

/// Checks `layout_ok`.
pub fn check_layout(l: &Layout) -> (r: bool)
    ensures
        r == layout_ok(*l),
{
    l.x as u64 + l.width as u64 <= u32::MAX as u64 && l.y as u64 + l.height as u64 <= u32::MAX as u64
        && l.border_left as u64 + l.border_right as u64 <= l.width as u64
        && l.border_top as u64 + l.border_bottom as u64 <= l.height as u64
        && area(l.width, l.height) as u128 <= usize::MAX as u128
}

/// Why a render stopped.
#[derive(Clone, Copy, Debug, PartialEq, Eq, Structural)]
pub enum RenderError {
    /// A stage was asked for before the one it follows.
    OutOfOrder,
    /// The root's width or height is not a length in pixels.
    UnresolvedViewport,
    /// Fewer layouts were given than there are nodes.
    MissingLayout,
    /// A layout is inconsistent or too large.
    InvalidLayout,
    /// The canvas could not be encoded.
    Encode(EncodeError),
    /// The viewport has more pixels than can be allocated.
    ViewportTooLarge,
}

pub proof fn lemma_forest_push(s: Seq<Node>, i: int)
    requires
        0 <= i < s.len(),
    ensures
        forest_size(s.subrange(0, i + 1)) == forest_size(s.subrange(0, i)) + tree_size(s[i]),
{
    assert(s.subrange(0, i + 1).drop_last() =~= s.subrange(0, i));
}

pub proof fn lemma_forest_prefix_le(s: Seq<Node>, i: int)
    requires
        0 <= i <= s.len(),
    ensures
        forest_size(s.subrange(0, i)) <= forest_size(s),
    decreases s.len() - i,
{
    if i < s.len() {
        lemma_forest_prefix_le(s, i + 1);
        lemma_forest_push(s, i);
    } else {
        assert(s.subrange(0, i) =~= s);
    }
}

/// Paints `node` and the nodes below it in document order, parent before
/// children and children in order, taking their layouts from `layouts`
/// starting at `idx`. Returns the index after the last layout used.
pub fn paint_tree(node: &Node, layouts: &Vec<Layout>, idx: usize, canvas: &mut Canvas, debug: bool) -> (r: Result<usize, RenderError>)
    requires
        old(canvas).wf(),
    ensures
        final(canvas).wf(),
        final(canvas).width == old(canvas).width,
        final(canvas).height == old(canvas).height,
        r matches Ok(k) ==> k == idx + tree_size(*node),
        r is Ok ==> idx + tree_size(*node) <= layouts@.len() && layouts_ok(layouts@, idx as int, idx + tree_size(*node)),
        r is Ok ==> forall|i: int, j: int|
            old(canvas).contains(i, j) && outside_all(layouts@, idx as int, idx + tree_size(*node), i, j)
                ==> #[trigger] final(canvas).at(i, j) == old(canvas).at(i, j),
        r is Ok ==> forall|i: int, j: int|
            old(canvas).contains(i, j) ==> #[trigger] final(canvas).at(i, j) == paint_px(
                *node,
                layouts@,
                idx as int,
                debug,
                old(canvas).at(i, j),
                i,
                j,
            ),
        idx + tree_size(*node) <= layouts@.len() && layouts_ok(layouts@, idx as int, idx + tree_size(*node))
            ==> r is Ok,
        r matches Err(e) ==> (e == RenderError::MissingLayout || e == RenderError::InvalidLayout),
    decreases *node,
{
    if idx >= layouts.len() {
        return Err(RenderError::MissingLayout);
    }
    let layout = layouts[idx];
    if !check_layout(&layout) {
        return Err(RenderError::InvalidLayout);
    }
    draw_node(node, canvas, &layout, debug);
    let ghost c1 = *canvas;
    assert(layouts@[idx as int] == layout);
    let mut next: usize = idx + 1;
    assert forall|i: int, j: int|
        old(canvas).contains(i, j) && outside_all(layouts@, idx as int, next as int, i, j)
            implies #[trigger] canvas.at(i, j) == old(canvas).at(i, j) by {
        assert(layouts@[idx as int] == layout);
        assert(!layouts@[idx as int].in_outer(i, j));
    }
    match node {
        Node::Container(c) => match &c.children {
            Some(v) => {
                let mut i: usize = 0;
                while i < v.len()
                    invariant
                        *node == Node::Container(*c),
                        c.children == Some(*v),
                        canvas.wf(),
                        canvas.width == old(canvas).width,
                        canvas.height == old(canvas).height,
                        i <= v@.len(),
                        next == idx + 1 + forest_size(v@.subrange(0, i as int)),
                        next <= layouts@.len(),
                        forall|i: int, j: int|
                            old(canvas).contains(i, j) && outside_all(layouts@, idx as int, next as int, i, j)
                                ==> #[trigger] canvas.at(i, j) == old(canvas).at(i, j),
                        layouts_ok(layouts@, idx as int, next as int),
                        tree_size(*node) == 1 + forest_size(v@),
                        c1.wf(),
                        c1.width == old(canvas).width,
                        c1.height == old(canvas).height,
                        forall|i2: int, j2: int| c1.contains(i2, j2) ==> #[trigger] canvas.at(i2, j2) == paint_forest_px(
                            v@.subrange(0, i as int),
                            layouts@,
                            idx + 1,
                            debug,
                            c1.at(i2, j2),
                            i2,
                            j2,
                        ),
                    decreases v@.len() - i,
                {
                    proof {
                        assert(decreases_to!(*v => v@));
                        assert(decreases_to!(v@ => v@[i as int]));
                        lemma_forest_push(v@, i as int);
                        lemma_forest_prefix_le(v@, i as int + 1);
                    }
                    let ghost before = *canvas;
                    let ghost start = next;
                    next = paint_tree(&v[i], layouts, next, canvas, debug)?;
                    assert forall|i: int, j: int|
                        old(canvas).contains(i, j) && outside_all(layouts@, idx as int, next as int, i, j)
                            implies #[trigger] canvas.at(i, j) == old(canvas).at(i, j) by {
                        assert(outside_all(layouts@, idx as int, start as int, i, j));
                        assert(outside_all(layouts@, start as int, next as int, i, j));
                    }
                    assert forall|i2: int, j2: int| c1.contains(i2, j2) implies #[trigger] canvas.at(i2, j2) == paint_forest_px(
                        v@.subrange(0, i + 1),
                        layouts@,
                        idx + 1,
                        debug,
                        c1.at(i2, j2),
                        i2,
                        j2,
                    ) by {
                        lemma_paint_forest_push(v@, i as int, layouts@, idx + 1, debug, c1.at(i2, j2), i2, j2);
                        assert(before.at(i2, j2) == paint_forest_px(v@.subrange(0, i as int), layouts@, idx + 1, debug, c1.at(i2, j2), i2, j2));
                    }
                    i = i + 1;
                }
                assert(v@.subrange(0, v@.len() as int) =~= v@);
            },
            None => {},
        },
        _ => {},
    }
    Ok(next)
}

/// The size of the output image in pixels.
#[derive(Clone, Copy, Debug, PartialEq, Eq, Structural)]
pub struct Viewport {
    pub width: u32,
    pub height: u32,
}

impl Viewport {
    /// A viewport of the given size.
    pub fn new(width: u32, height: u32) -> (r: Viewport)
        ensures
            r.width == width,
            r.height == height,
    {
        Viewport { width, height }
    }
}

/// The viewport a root style asks for: both its width and its height must
/// be lengths in pixels.
pub fn viewport_from_style(style: &Style) -> (r: Result<Viewport, RenderError>)
    ensures
        match (style.width, style.height) {
            (LengthUnit::Px(w), LengthUnit::Px(h)) => r == Ok::<Viewport, RenderError>(Viewport { width: w, height: h }),
            _ => r == Err::<Viewport, RenderError>(RenderError::UnresolvedViewport),
        },
{
    match (style.width, style.height) {
        (LengthUnit::Px(w), LengthUnit::Px(h)) => Ok(Viewport::new(w, h)),
        _ => Err(RenderError::UnresolvedViewport),
    }
}

/// Where a render stands. Stages follow one another in this order.
#[derive(Clone, Copy, Debug, PartialEq, Eq, Structural)]
pub enum RenderStage {
    Uninitialized,
    TreeHydrated,
    LayoutSolved,
    Painted,
    Encoded,
}

/// One render: hydrate the tree, take the solved layouts, paint, encode.
pub struct ImageRenderer {
    pub viewport: Viewport,
    pub stage: RenderStage,
    pub layouts: Vec<Layout>,
    pub canvas: Canvas,
}

impl ImageRenderer {
    /// The canvas matches the viewport.
    pub open spec fn wf(&self) -> bool {
        &&& self.canvas.wf()
        &&& self.canvas.width == self.viewport.width
        &&& self.canvas.height == self.viewport.height
    }

    /// A render of the given size, not started, on a transparent canvas.
    pub fn new(viewport: Viewport) -> (r: ImageRenderer)
        requires
            viewport.width as int * viewport.height as int <= usize::MAX,
        ensures
            r.wf(),
            r.viewport == viewport,
            r.stage == RenderStage::Uninitialized,
            r.layouts@.len() == 0,
            forall|i: int, j: int| r.canvas.contains(i, j) ==> #[trigger] r.canvas.at(i, j) == (Rgba { r: 0, g: 0, b: 0, a: 0 }),
    {
        ImageRenderer {
            viewport,
            stage: RenderStage::Uninitialized,
            layouts: Vec::new(),
            canvas: Canvas::new(viewport.width, viewport.height),
        }
    }

    /// Resolves every image of the tree through the context's store.
    pub fn hydrate<S: ImageStore>(&mut self, root: &mut Node, context: &mut GlobalContext<S>) -> (r: Result<(), RenderError>)
        ensures
            old(self).stage == RenderStage::Uninitialized <==> r is Ok,
            r is Ok ==> final(self).stage == RenderStage::TreeHydrated && !crate::node::needs_hydration(*final(root))
                && crate::node::hydrated_from(*old(root), *final(root)),
            r is Err ==> r == Err::<(), RenderError>(RenderError::OutOfOrder) && *final(self) == *old(self)
                && *final(root) == *old(root),
            final(self).viewport == old(self).viewport,
            final(self).canvas == old(self).canvas,
            final(self).layouts == old(self).layouts,
            final(context).draw_debug_border == old(context).draw_debug_border,
            final(context).print_debug_tree == old(context).print_debug_tree,
            final(context).font_context == old(context).font_context,
    {
        if self.stage != RenderStage::Uninitialized {
            return Err(RenderError::OutOfOrder);
        }
        root.hydrate(&mut context.image_store);
        self.stage = RenderStage::TreeHydrated;
        Ok(())
    }

    /// Takes the solved layouts, one per node in document order.
    pub fn set_layouts(&mut self, layouts: Vec<Layout>) -> (r: Result<(), RenderError>)
        ensures
            old(self).stage == RenderStage::TreeHydrated <==> r is Ok,
            r is Ok ==> final(self).stage == RenderStage::LayoutSolved && final(self).layouts@ == layouts@,
            r is Err ==> r == Err::<(), RenderError>(RenderError::OutOfOrder) && *final(self) == *old(self),
            final(self).viewport == old(self).viewport,
            final(self).canvas == old(self).canvas,
    {
        if self.stage != RenderStage::TreeHydrated {
            return Err(RenderError::OutOfOrder);
        }
        self.layouts = layouts;
        self.stage = RenderStage::LayoutSolved;
        Ok(())
    }

    /// Paints the tree in document order.
    pub fn draw<S>(&mut self, root: &Node, context: &GlobalContext<S>) -> (r: Result<(), RenderError>)
        requires
            old(self).wf(),
        ensures
            final(self).wf(),
            final(self).viewport == old(self).viewport,
            old(self).stage != RenderStage::LayoutSolved ==> r == Err::<(), RenderError>(RenderError::OutOfOrder)
                && *final(self) == *old(self),
            old(self).stage == RenderStage::LayoutSolved && tree_size(*root) <= old(self).layouts@.len()
                && layouts_ok(old(self).layouts@, 0, tree_size(*root) as int) ==> r is Ok,
            r is Ok ==> final(self).stage == RenderStage::Painted,
            r is Ok ==> tree_size(*root) <= old(self).layouts@.len() && layouts_ok(old(self).layouts@, 0, tree_size(*root) as int),
            r is Ok ==> forall|i: int, j: int|
                old(self).canvas.contains(i, j) && outside_all(old(self).layouts@, 0, tree_size(*root) as int, i, j)
                    ==> #[trigger] final(self).canvas.at(i, j) == old(self).canvas.at(i, j),
            r is Ok ==> forall|i: int, j: int|
                old(self).canvas.contains(i, j) ==> #[trigger] final(self).canvas.at(i, j) == paint_px(
                    *root,
                    old(self).layouts@,
                    0,
                    context.draw_debug_border,
                    old(self).canvas.at(i, j),
                    i,
                    j,
                ),
            final(self).layouts == old(self).layouts,
            r matches Err(e) ==> (e == RenderError::OutOfOrder || e == RenderError::MissingLayout || e == RenderError::InvalidLayout),
            old(self).stage == RenderStage::LayoutSolved ==> r != Err::<(), RenderError>(RenderError::OutOfOrder),
            r is Err ==> final(self).stage == old(self).stage,
    {
        if self.stage != RenderStage::LayoutSolved {
            return Err(RenderError::OutOfOrder);
        }
        let res = paint_tree(root, &self.layouts, 0, &mut self.canvas, context.draw_debug_border);
        match res {
            Ok(_) => {
                self.stage = RenderStage::Painted;
                Ok(())
            },
            Err(e) => Err(e),
        }
    }

    /// Encodes the painted canvas.
    pub fn encode(&mut self, format: ImageOutputFormat, quality: Option<u8>) -> (r: Result<Vec<u8>, RenderError>)
        requires
            old(self).wf(),
        ensures
            final(self).wf(),
            final(self).canvas == old(self).canvas,
            old(self).stage != RenderStage::Painted ==> r == Err::<Vec<u8>, RenderError>(RenderError::OutOfOrder)
                && *final(self) == *old(self),
            r is Ok ==> final(self).stage == RenderStage::Encoded,
            r is Err ==> final(self).stage == old(self).stage,
            old(self).stage == RenderStage::Painted && bad_quality(quality)
                ==> r == Err::<Vec<u8>, RenderError>(RenderError::Encode(EncodeError::UnsupportedQuality)),
            old(self).stage == RenderStage::Painted && !bad_quality(quality) ==> match encoded_canvas(old(self).canvas, format, quality) {
                Some(v) => r matches Ok(b) && b@ == v,
                None => r == Err::<Vec<u8>, RenderError>(RenderError::Encode(EncodeError::EncoderFailed)),
            },
    {
        if self.stage != RenderStage::Painted {
            return Err(RenderError::OutOfOrder);
        }
        match encode(&self.canvas, format, quality) {
            Ok(v) => {
                self.stage = RenderStage::Encoded;
                Ok(v)
            },
            Err(e) => Err(RenderError::Encode(e)),
        }
    }
}

} // verus!


