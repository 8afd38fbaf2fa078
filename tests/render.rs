use std::sync::Arc;
use takumi::border::{corner_coverage, cutout_alpha, draw_border, draw_rectangular_border};
use takumi::canvas::{Canvas, Rgba};
use takumi::codec::{canvas_from_rgba, encode, state_from_response, ImageOutputFormat, EncodeError};
use takumi::font::{FontContext, FontError};
use takumi::layout::Layout;
use takumi::renderer::{ConstructRendererOptions, OutputFormat, RenderOptions, Renderer};
use takumi::node::{ContainerNode, ImageNode, ImageState, ImageStore, Node, TextNode};
use takumi::render::{GlobalContext, ImageRenderer, RenderError, RenderStage, Viewport, viewport_from_style};
use takumi::store::{DefaultImageStore, NoNetworkFetcher, NoopImageStore, ResourceFetcher};
use takumi::style::{LengthUnit, Style};

const RED: Rgba = Rgba { r: 255, g: 0, b: 0, a: 255 };
const BLACK: Rgba = Rgba { r: 0, g: 0, b: 0, a: 255 };
const WHITE: Rgba = Rgba { r: 255, g: 255, b: 255, a: 255 };

fn layout(x: u32, y: u32, w: u32, h: u32, b: u32) -> Layout {
    Layout { x, y, width: w, height: h, border_top: b, border_right: b, border_bottom: b, border_left: b }
}

fn png_bytes(w: u32, h: u32, p: Rgba) -> Vec<u8> {
    let c = Canvas::from_pixel(w, h, p);
    encode(&c, ImageOutputFormat::Png, None).unwrap()
}

struct MapFetcher {
    good_key: String,
    bytes: Vec<u8>,
}

impl ResourceFetcher for MapFetcher {
    fn fetch_bytes(&self, key: &str) -> Option<Vec<u8>> {
        if key == self.good_key { Some(self.bytes.clone()) } else { None }
    }
}

fn image_node(src: &str, w: u32, h: u32) -> Node {
    let mut style = Style::empty();
    style.width = LengthUnit::Px(w);
    style.height = LengthUnit::Px(h);
    Node::Image(ImageNode { style, src: src.to_string(), image: Arc::new(ImageState::NotFetched) })
}

#[test]
fn blend_formula_exact() {
    let d = Rgba { r: 0, g: 100, b: 200, a: 255 };
    let s = Rgba { r: 255, g: 0, b: 0, a: 128 };
    let r = takumi::canvas::blend(d, s);
    assert_eq!(r, Rgba { r: 128, g: 49, b: 99, a: 255 });
    let t = takumi::canvas::blend(Rgba { r: 0, g: 0, b: 0, a: 0 }, Rgba { r: 10, g: 20, b: 30, a: 255 });
    assert_eq!(t, Rgba { r: 10, g: 20, b: 30, a: 255 });
}

#[test]
fn fill_rect_is_clipped() {
    let mut c = Canvas::new(4, 4);
    c.fill_rect(2, 2, 10, 10, RED);
    assert_eq!(c.get_pixel(3, 3), RED);
    assert_eq!(c.get_pixel(1, 1).a, 0);
}

#[test]
fn border_no_op_leaves_canvas_identical() {
    let mut c = Canvas::from_pixel(10, 10, WHITE);
    let before = c.pixels.clone();
    let mut style = Style::empty();
    style.inheritable_style.border_color = Some(BLACK);
    style.inheritable_style.border_radius = Some(3);
    draw_border(&style, &mut c, &layout(1, 1, 8, 8, 0));
    assert_eq!(c.pixels, before);
}

#[test]
fn rectangular_border_draws_ring_once() {
    let mut c = Canvas::from_pixel(10, 10, WHITE);
    let half = Rgba { r: 0, g: 0, b: 0, a: 128 };
    draw_rectangular_border(&mut c, &layout(0, 0, 10, 10, 2), half);
    let expected = takumi::canvas::blend(WHITE, half);
    assert_eq!(c.get_pixel(0, 0), expected);
    assert_eq!(c.get_pixel(1, 5), expected);
    assert_eq!(c.get_pixel(9, 9), expected);
    assert_eq!(c.get_pixel(5, 5), WHITE);
}

#[test]
fn rounded_coverage_is_monotonic_and_antialiased() {
    let r = 10u32;
    let mut prev = 255u8;
    let mut saw_partial = false;
    for d in 0..r {
        let c = corner_coverage(40, 40, r, r - 1 - d, 0);
        assert!(c <= prev);
        if c > 0 && c < 255 {
            saw_partial = true;
        }
        prev = c;
    }
    assert!(saw_partial);
    assert_eq!(corner_coverage(40, 40, r, 0, 0), 0);
    assert_eq!(corner_coverage(40, 40, r, 20, 20), 255);
    assert_eq!(corner_coverage(40, 40, 0, 0, 0), 255);
}

#[test]
fn cutout_reduces_alpha_in_proportion() {
    assert_eq!(cutout_alpha(255, 255), 0);
    assert_eq!(cutout_alpha(255, 0), 255);
    assert_eq!(cutout_alpha(200, 51), 160);
}

#[test]
fn style_inheritance_of_border_color() {
    let mut parent = Style::empty();
    parent.inheritable_style.border_color = Some(BLACK);
    let child = Node::Text(TextNode { style: Style::empty(), text: "a".to_string() });
    let mut own = Style::empty();
    own.inheritable_style.border_color = Some(RED);
    let child2 = Node::Text(TextNode { style: own, text: "b".to_string() });
    let mut c = ContainerNode { style: parent, children: Some(vec![child, child2]) };
    c.inherit_style_for_children();
    let kids = c.children.as_ref().unwrap();
    assert_eq!(kids[0].get_style().inheritable_style.border_color, Some(BLACK));
    assert_eq!(kids[1].get_style().inheritable_style.border_color, Some(RED));
}

#[test]
fn cache_bound_evicts_least_recent() {
    let mut s = DefaultImageStore::new(NoNetworkFetcher, 2);
    s.put("a".to_string(), Arc::new(ImageState::NetworkError("x".to_string())));
    s.put("b".to_string(), Arc::new(ImageState::NetworkError("y".to_string())));
    assert!(s.get_cached("a").is_some());
    s.put("c".to_string(), Arc::new(ImageState::NetworkError("z".to_string())));
    assert_eq!(s.len(), 2);
    assert!(s.get_cached("b").is_none());
    assert!(s.get_cached("a").is_some());
    assert!(s.get_cached("c").is_some());
    s.clear();
    assert_eq!(s.len(), 0);
}

#[test]
fn idempotent_hydration_performs_no_fetch() {
    let mut store = DefaultImageStore::new(NoNetworkFetcher, 4);
    let mut root = Node::Container(ContainerNode { style: Style::empty(), children: Some(vec![image_node("http://x/a.png", 2, 2)]) });
    assert!(root.should_hydrate());
    root.hydrate(&mut store);
    assert!(!root.should_hydrate());
    assert_eq!(store.len(), 1);
    let first = match &root { Node::Container(c) => match &c.children.as_ref().unwrap()[0] { Node::Image(im) => im.image.clone(), _ => panic!() }, _ => panic!() };
    root.hydrate(&mut store);
    let second = match &root { Node::Container(c) => match &c.children.as_ref().unwrap()[0] { Node::Image(im) => im.image.clone(), _ => panic!() }, _ => panic!() };
    assert!(Arc::ptr_eq(&first, &second));
    assert_eq!(store.len(), 1);
}

#[test]
fn noop_store_reports_network_error() {
    let mut store = NoopImageStore;
    let mut n = image_node("http://x/a.png", 2, 2);
    n.hydrate(&mut store);
    match n { Node::Image(im) => assert!(matches!(*im.image, ImageState::NetworkError(_))), _ => panic!() }
}

#[test]
fn decode_errors_are_terminal() {
    assert!(matches!(state_from_response(None), ImageState::NetworkError(_)));
    assert!(matches!(state_from_response(Some(vec![1, 2, 3])), ImageState::DecodeError(_)));
    match state_from_response(Some(png_bytes(3, 2, RED))) {
        ImageState::Fetched(c) => {
            assert_eq!((c.width, c.height), (3, 2));
            assert_eq!(c.get_pixel(2, 1), RED);
        }
        _ => panic!("expected a decoded image"),
    }
    assert!(canvas_from_rgba(2, 2, &vec![0u8; 15]).is_none());
}

#[test]
fn png_round_trip_is_exact() {
    let c = Canvas::from_pixel(5, 4, Rgba { r: 12, g: 200, b: 77, a: 255 });
    let bytes = encode(&c, ImageOutputFormat::Png, None).unwrap();
    match state_from_response(Some(bytes)) {
        ImageState::Fetched(d) => assert_eq!(d.pixels, c.pixels),
        _ => panic!(),
    }
}

#[test]
fn webp_round_trip_is_exact() {
    let c = Canvas::from_pixel(5, 4, Rgba { r: 12, g: 200, b: 77, a: 255 });
    let bytes = encode(&c, ImageOutputFormat::WebP, None).unwrap();
    match state_from_response(Some(bytes)) {
        ImageState::Fetched(d) => assert_eq!(d.pixels, c.pixels),
        _ => panic!(),
    }
}

#[test]
fn jpeg_round_trip_is_close() {
    let c = Canvas::from_pixel(16, 16, Rgba { r: 200, g: 40, b: 90, a: 255 });
    let bytes = encode(&c, ImageOutputFormat::Jpeg, Some(100)).unwrap();
    match state_from_response(Some(bytes)) {
        ImageState::Fetched(d) => {
            for (p, q) in d.pixels.iter().zip(c.pixels.iter()) {
                assert!((p.r as i32 - q.r as i32).abs() <= 8);
                assert!((p.g as i32 - q.g as i32).abs() <= 8);
                assert!((p.b as i32 - q.b as i32).abs() <= 8);
            }
        }
        _ => panic!(),
    }
}

#[test]
fn bad_quality_is_rejected() {
    let c = Canvas::from_pixel(2, 2, RED);
    assert_eq!(encode(&c, ImageOutputFormat::Jpeg, Some(101)).unwrap_err(), EncodeError::UnsupportedQuality);
    assert!(encode(&c, ImageOutputFormat::Jpeg, Some(0)).is_ok());
}

#[test]
fn stages_must_come_in_order() {
    let mut r = ImageRenderer::new(Viewport::new(4, 4));
    let ctx = GlobalContext { print_debug_tree: false, draw_debug_border: false, font_context: FontContext::new(), image_store: NoopImageStore };
    let root = Node::Text(TextNode { style: Style::empty(), text: String::new() });
    assert_eq!(r.draw(&root, &ctx), Err(RenderError::OutOfOrder));
    assert_eq!(r.set_layouts(vec![]), Err(RenderError::OutOfOrder));
    assert_eq!(r.encode(ImageOutputFormat::Png, None).unwrap_err(), RenderError::OutOfOrder);
    assert_eq!(r.stage, RenderStage::Uninitialized);
}

#[test]
fn viewport_needs_pixel_lengths() {
    let mut s = Style::empty();
    assert_eq!(viewport_from_style(&s), Err(RenderError::UnresolvedViewport));
    s.width = LengthUnit::Px(200);
    s.height = LengthUnit::Percentage(50);
    assert_eq!(viewport_from_style(&s), Err(RenderError::UnresolvedViewport));
    s.height = LengthUnit::Px(100);
    assert_eq!(viewport_from_style(&s), Ok(Viewport { width: 200, height: 100 }));
}

#[test]
fn missing_layouts_fail_the_paint() {
    let mut r = ImageRenderer::new(Viewport::new(4, 4));
    let mut ctx = GlobalContext { print_debug_tree: false, draw_debug_border: false, font_context: FontContext::new(), image_store: NoopImageStore };
    let mut root = Node::Container(ContainerNode { style: Style::empty(), children: Some(vec![image_node("a", 1, 1)]) });
    r.hydrate(&mut root, &mut ctx).unwrap();
    r.set_layouts(vec![layout(0, 0, 4, 4, 0)]).unwrap();
    assert_eq!(r.draw(&root, &ctx), Err(RenderError::MissingLayout));
    assert_eq!(r.stage, RenderStage::LayoutSolved);
}

#[test]
fn partial_failure_is_contained() {
    let fetcher = MapFetcher { good_key: "good".to_string(), bytes: png_bytes(10, 10, RED) };
    let mut ctx = GlobalContext { print_debug_tree: false, draw_debug_border: false, font_context: FontContext::new(), image_store: DefaultImageStore::new(fetcher, 10) };
    let mut root = Node::Container(ContainerNode {
        style: Style::empty(),
        children: Some(vec![image_node("good", 10, 10), image_node("bad", 10, 10)]),
    });
    let mut r = ImageRenderer::new(Viewport::new(20, 10));
    r.hydrate(&mut root, &mut ctx).unwrap();
    r.set_layouts(vec![layout(0, 0, 20, 10, 0), layout(0, 0, 10, 10, 0), layout(10, 0, 10, 10, 0)]).unwrap();
    r.draw(&root, &ctx).unwrap();
    assert_eq!(r.canvas.get_pixel(5, 5), RED);
    assert_eq!(r.canvas.get_pixel(15, 5).a, 0);
    let bytes = r.encode(ImageOutputFormat::Png, None).unwrap();
    assert!(!bytes.is_empty());
    assert_eq!(r.stage, RenderStage::Encoded);
}

#[test]
fn end_to_end_document() {
    let mut root_style = Style::empty();
    root_style.width = LengthUnit::Px(200);
    root_style.height = LengthUnit::Px(100);
    root_style.background_color = Some(RED);
    let mut child_style = Style::empty();
    child_style.width = LengthUnit::Px(50);
    child_style.height = LengthUnit::Px(50);
    child_style.border_width = 5;
    child_style.background_color = Some(WHITE);
    child_style.inheritable_style.border_radius = Some(10);
    child_style.inheritable_style.border_color = Some(BLACK);
    let child = Node::Container(ContainerNode { style: child_style, children: None });
    let mut root = Node::Container(ContainerNode { style: root_style, children: Some(vec![child]) });
    let vp = viewport_from_style(root.get_style()).unwrap();
    let mut ctx = GlobalContext { print_debug_tree: false, draw_debug_border: false, font_context: FontContext::new(), image_store: NoopImageStore };
    root.inherit_style_for_children();
    let mut r = ImageRenderer::new(vp);
    r.hydrate(&mut root, &mut ctx).unwrap();
    r.set_layouts(vec![layout(0, 0, 200, 100, 0), layout(20, 0, 50, 50, 5)]).unwrap();
    r.draw(&root, &ctx).unwrap();
    assert_eq!((r.canvas.width, r.canvas.height), (200, 100));
    assert_eq!(r.canvas.get_pixel(100, 50), RED);
    assert_eq!(r.canvas.get_pixel(45, 25), WHITE);
    let corner = corner_coverage(50, 50, 10, 2, 3);
    assert!(corner > 0 && corner < 255);
    let p = r.canvas.get_pixel(22, 3);
    assert!(p != RED && p != BLACK);
}

#[test]
fn renderer_options_set_debug() {
    let r = Renderer::new(Some(ConstructRendererOptions { debug: Some(true) }), NoNetworkFetcher);
    assert!(r.context.draw_debug_border);
    let r = Renderer::new(None, NoNetworkFetcher);
    assert!(!r.context.draw_debug_border);
    assert_eq!(r.context.image_store.len(), 0);
}

#[test]
fn persistent_image_needs_no_fetch() {
    let mut r = Renderer::new(None, NoNetworkFetcher);
    r.put_persistent_image_async("logo".to_string(), png_bytes(4, 4, RED));
    assert_eq!(r.context.image_store.len(), 1);
    let root = image_node("logo", 4, 4);
    let bytes = r
        .render_async(root, RenderOptions { width: 4, height: 4, format: Some(OutputFormat::Png), quality: None }, vec![layout(0, 0, 4, 4, 0)])
        .unwrap();
    match state_from_response(Some(bytes)) {
        ImageState::Fetched(c) => assert_eq!(c.get_pixel(1, 1), RED),
        _ => panic!(),
    }
    r.clear_image_store();
    assert_eq!(r.context.image_store.len(), 0);
}

#[test]
fn render_rejects_bad_quality_and_missing_layouts() {
    let mut r = Renderer::new(None, NoNetworkFetcher);
    let node = Node::Text(TextNode { style: Style::empty(), text: String::new() });
    let e = r.render_async(node, RenderOptions { width: 2, height: 2, format: Some(OutputFormat::Jpeg), quality: Some(101) }, vec![layout(0, 0, 2, 2, 0)]);
    assert_eq!(e.unwrap_err(), RenderError::Encode(EncodeError::UnsupportedQuality));
    let node = Node::Text(TextNode { style: Style::empty(), text: String::new() });
    let e = r.render_async(node, RenderOptions { width: 2, height: 2, format: None, quality: None }, vec![]);
    assert_eq!(e.unwrap_err(), RenderError::MissingLayout);
    let node = Node::Text(TextNode { style: Style::empty(), text: String::new() });
    let e = r.render_async(node, RenderOptions { width: 2, height: 2, format: None, quality: None }, vec![layout(0, 0, 2, 2, 2)]);
    assert_eq!(e.unwrap_err(), RenderError::InvalidLayout);
}

#[test]
fn fonts_without_faces_are_refused() {
    let mut r = Renderer::new(None, NoNetworkFetcher);
    assert_eq!(r.load_font_async(vec![0, 1, 2, 3]), Err(FontError::NoFaces));
    assert_eq!(r.load_fonts_async(vec![]), Ok(0));
    assert_eq!(r.load_fonts_async(vec![vec![9, 9]]), Err(FontError::NoFaces));
}

#[test]
fn output_format_converts() {
    assert_eq!(ImageOutputFormat::from(OutputFormat::Png), ImageOutputFormat::Png);
    assert_eq!(ImageOutputFormat::from(OutputFormat::Jpeg), ImageOutputFormat::Jpeg);
    assert_eq!(ImageOutputFormat::from(OutputFormat::WebP), ImageOutputFormat::WebP);
}

#[test]
fn debug_outline_is_drawn() {
    let mut r = ImageRenderer::new(Viewport::new(6, 6));
    let mut ctx = GlobalContext { print_debug_tree: false, draw_debug_border: true, font_context: FontContext::new(), image_store: NoopImageStore };
    let mut root = Node::Text(TextNode { style: Style::empty(), text: String::new() });
    r.hydrate(&mut root, &mut ctx).unwrap();
    r.set_layouts(vec![layout(1, 1, 4, 4, 0)]).unwrap();
    r.draw(&root, &ctx).unwrap();
    assert_eq!(r.canvas.get_pixel(1, 1), RED);
    assert_eq!(r.canvas.get_pixel(2, 2).a, 0);
}

#[test]
fn images_are_resized_to_the_content_box() {
    let img = Canvas::from_pixel(2, 2, RED);
    let fitted = takumi::codec::resize_canvas(&img, 6, 4).unwrap();
    assert_eq!((fitted.width, fitted.height), (6, 4));
    assert_eq!(fitted.pixels.len(), 24);
    assert_eq!(fitted.get_pixel(5, 3), RED);
    let mut c = Canvas::new(8, 8);
    takumi::render::draw_image(&ImageState::Fetched(img), &mut c, &layout(1, 1, 6, 6, 1));
    assert_eq!(c.get_pixel(1, 1).a, 0);
    assert_eq!(c.get_pixel(2, 2), RED);
    assert_eq!(c.get_pixel(5, 5), RED);
    assert_eq!(c.get_pixel(6, 6).a, 0);
}

#[test]
fn noop_store_never_holds_anything() {
    let mut s = NoopImageStore;
    ImageStore::insert(&mut s, "a".to_string(), Arc::new(ImageState::NetworkError("x".to_string())));
    assert!(ImageStore::get(&mut s, "a").is_none());
    assert!(matches!(*s.fetch_async("a"), ImageState::NetworkError(_)));
    let ctx: GlobalContext<NoopImageStore> = GlobalContext::default();
    assert!(!ctx.draw_debug_border && !ctx.print_debug_tree);
}

#[test]
fn store_through_the_trait_keeps_recency() {
    let mut s = DefaultImageStore::new(NoNetworkFetcher, 2);
    let va = Arc::new(ImageState::NetworkError("a".to_string()));
    let vb = Arc::new(ImageState::NetworkError("b".to_string()));
    let vc = Arc::new(ImageState::NetworkError("c".to_string()));
    ImageStore::insert(&mut s, "a".to_string(), va.clone());
    ImageStore::insert(&mut s, "b".to_string(), vb);
    assert!(ImageStore::get(&mut s, "a").is_some());
    ImageStore::insert(&mut s, "c".to_string(), vc.clone());
    assert!(ImageStore::get(&mut s, "b").is_none());
    assert!(Arc::ptr_eq(&ImageStore::get(&mut s, "a").unwrap(), &va));
    assert!(Arc::ptr_eq(&ImageStore::get(&mut s, "c").unwrap(), &vc));
    assert!(matches!(*s.fetch_async("x"), ImageState::NetworkError(_)));
}

#[test]
fn styles_pass_down_the_whole_tree() {
    let mut root_style = Style::empty();
    root_style.inheritable_style.border_color = Some(BLACK);
    root_style.inheritable_style.font_size = Some(20);
    let mut mid_style = Style::empty();
    mid_style.inheritable_style.font_size = Some(12);
    let leaf = Node::Text(TextNode { style: Style::empty(), text: "x".to_string() });
    let mid = Node::Container(ContainerNode { style: mid_style, children: Some(vec![leaf]) });
    let mut root = Node::Container(ContainerNode { style: root_style, children: Some(vec![mid]) });
    root.resolve_styles();
    let mid = match &root { Node::Container(c) => &c.children.as_ref().unwrap()[0], _ => panic!() };
    assert_eq!(mid.get_style().inheritable_style.border_color, Some(BLACK));
    assert_eq!(mid.get_style().inheritable_style.font_size, Some(12));
    let leaf = match mid { Node::Container(c) => &c.children.as_ref().unwrap()[0], _ => panic!() };
    assert_eq!(leaf.get_style().inheritable_style.border_color, Some(BLACK));
    assert_eq!(leaf.get_style().inheritable_style.font_size, Some(12));
    assert_eq!(root.get_style().inheritable_style.font_size, Some(20));
}

#[test]
fn render_inherits_border_color_for_grandchildren() {
    let mut r = Renderer::new(None, NoNetworkFetcher);
    let mut root_style = Style::empty();
    root_style.inheritable_style.border_color = Some(RED);
    let leaf = Node::Text(TextNode { style: Style::empty(), text: String::new() });
    let mid = Node::Container(ContainerNode { style: Style::empty(), children: Some(vec![leaf]) });
    let root = Node::Container(ContainerNode { style: root_style, children: Some(vec![mid]) });
    let bytes = r
        .render_async(root, RenderOptions { width: 6, height: 6, format: None, quality: None },
            vec![layout(0, 0, 6, 6, 0), layout(0, 0, 6, 6, 0), layout(1, 1, 4, 4, 1)])
        .unwrap();
    match state_from_response(Some(bytes)) {
        ImageState::Fetched(c) => {
            assert_eq!(c.get_pixel(1, 1), RED);
            assert_eq!(c.get_pixel(0, 0).a, 0);
            assert_eq!(c.get_pixel(2, 2).a, 0);
        }
        _ => panic!(),
    }
}

#[test]
fn oversized_borders_draw_overlapping_bands() {
    let mut c = Canvas::from_pixel(6, 6, WHITE);
    let half = Rgba { r: 0, g: 0, b: 0, a: 128 };
    let l = Layout { x: 1, y: 1, width: 4, height: 4, border_top: 3, border_right: 1, border_bottom: 3, border_left: 1 };
    draw_rectangular_border(&mut c, &l, half);
    let once = takumi::canvas::blend(WHITE, half);
    let twice = takumi::canvas::blend(once, half);
    assert_eq!(c.get_pixel(2, 1), once);
    assert_eq!(c.get_pixel(2, 2), twice);
    assert_eq!(c.get_pixel(2, 4), once);
    assert_eq!(c.get_pixel(0, 0), WHITE);
    assert_eq!(c.get_pixel(5, 5), WHITE);
}
