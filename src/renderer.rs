//! A renderer instance: a long-lived context with a font database and an
//! image cache, serving many render requests.

use vstd::prelude::*;
use std::sync::Arc;
use crate::canvas::{Canvas, Rgba};
use crate::codec::{bad_quality, decode_outcome, encoded_canvas, state_from_response, EncodeError, ImageOutputFormat};
use crate::font::{font_faces_in, fonts_faces, FontContext, FontError};
use crate::layout::Layout;
use crate::node::{hydrated_from, lemma_passed_down_keeps_size, needs_hydration, passed_down, style_of, Node};
use crate::render::{area, layouts_ok, paint_px, lemma_hydration_keeps_size, tree_size, GlobalContext, ImageRenderer, RenderError, Viewport};
use crate::store::{lru_put, DefaultImageStore, ResourceFetcher};

verus! {

/// Options for a new renderer.
pub struct ConstructRendererOptions {
    /// Outline every node's box.
    pub debug: Option<bool>,
}

/// The image formats a render can be returned in.
#[derive(Clone, Copy, Debug, PartialEq, Eq, Structural)]
pub enum OutputFormat {
    WebP,
    Png,
    Jpeg,
}

impl From<OutputFormat> for ImageOutputFormat {
    fn from(format: OutputFormat) -> (r: ImageOutputFormat) {
        match format {
            OutputFormat::Png => ImageOutputFormat::Png,
            OutputFormat::Jpeg => ImageOutputFormat::Jpeg,
            OutputFormat::WebP => ImageOutputFormat::WebP,
        }
    }
}

impl vstd::std_specs::convert::FromSpecImpl<OutputFormat> for ImageOutputFormat {
    open spec fn obeys_from_spec() -> bool {
        true
    }

    open spec fn from_spec(format: OutputFormat) -> ImageOutputFormat {
        match format {
            OutputFormat::Png => ImageOutputFormat::Png,
            OutputFormat::Jpeg => ImageOutputFormat::Jpeg,
            OutputFormat::WebP => ImageOutputFormat::WebP,
        }
    }
}

/// What one render request asks for.
pub struct RenderOptions {
    pub width: u32,
    pub height: u32,
    pub format: Option<OutputFormat>,
    pub quality: Option<u8>,
}

/// The output format a request asks for: PNG when it names none.
pub open spec fn output_format(format: Option<OutputFormat>) -> ImageOutputFormat {
    match format {
        Some(OutputFormat::Png) => ImageOutputFormat::Png,
        Some(OutputFormat::Jpeg) => ImageOutputFormat::Jpeg,
        Some(OutputFormat::WebP) => ImageOutputFormat::WebP,
        None => ImageOutputFormat::Png,
    }
}

/// `r` is the result of rendering `node`: `hydrated` is the node with its
/// images resolved, `styled` is that tree after one top-down style pass,
/// `painted` is a transparent canvas of the requested size with the styled
/// tree painted on it, and `r` holds the encoder's bytes for it, or the
/// encoder's failure.
pub open spec fn rendered_as(
    node: Node,
    hydrated: Node,
    styled: Node,
    painted: Canvas,
    layouts: Seq<Layout>,
    options: RenderOptions,
    debug: bool,
    r: Result<Vec<u8>, RenderError>,
) -> bool {
    &&& hydrated_from(node, hydrated)
    &&& !needs_hydration(hydrated)
    &&& passed_down(hydrated, style_of(hydrated), styled)
    &&& painted.wf()
    &&& painted.width == options.width
    &&& painted.height == options.height
    &&& forall|i: int, j: int| painted.contains(i, j) ==> #[trigger] painted.at(i, j) == paint_px(
        styled,
        layouts,
        0,
        debug,
        Rgba { r: 0, g: 0, b: 0, a: 0 },
        i,
        j,
    )
    &&& match encoded_canvas(painted, output_format(options.format), options.quality) {
        Some(v) => r matches Ok(b) && b@ == v,
        None => r == Err::<Vec<u8>, RenderError>(RenderError::Encode(EncodeError::EncoderFailed)),
    }
}

/// The number of images the cache of a renderer holds.
pub const IMAGE_CACHE_SIZE: usize = 100;

/// A renderer: its fonts and its image cache outlive single renders.
pub struct Renderer<F> {
    pub context: GlobalContext<DefaultImageStore<F>>,
}

impl<F: ResourceFetcher> Renderer<F> {
    /// A renderer with no fonts and an empty cache; debug outlines only when
    /// the options ask for them.
    pub fn new(options: Option<ConstructRendererOptions>, fetcher: F) -> (r: Self)
        ensures
            r.context.draw_debug_border == (options matches Some(o) && o.debug == Some(true)),
            !r.context.print_debug_tree,
            r.context.image_store.wf(),
            r.context.image_store.entries().len() == 0,
            r.context.image_store.capacity() == IMAGE_CACHE_SIZE,
            r.context.font_context.face_count() == 0,
    {
        let debug = match options {
            Some(o) => match o.debug {
                Some(d) => d,
                None => false,
            },
            None => false,
        };
        Renderer {
            context: GlobalContext {
                print_debug_tree: false,
                draw_debug_border: debug,
                font_context: FontContext::new(),
                image_store: DefaultImageStore::new(fetcher, IMAGE_CACHE_SIZE),
            },
        }
    }

    /// Decodes `data` and keeps it in the cache under `src`, so that image
    /// nodes with that source need no fetch.
    pub fn put_persistent_image_async(&mut self, src: String, data: Vec<u8>)
        ensures
            ({
                let e = final(self).context.image_store.entries();
                let v = e.last().1;
                &&& e == lru_put(
                    old(self).context.image_store.entries(),
                    old(self).context.image_store.capacity(),
                    src@,
                    v,
                )
                &&& decode_outcome(*v, data@)
            }),
            final(self).context.image_store.capacity() == old(self).context.image_store.capacity(),
            final(self).context.image_store.wf(),
    {
        let state = Arc::new(state_from_response(Some(data)));
        self.context.image_store.put(src, state);
    }

    /// Adds one font file to the font database and returns the number of
    /// fonts loaded: one.
    pub fn load_font_async(&mut self, data: Vec<u8>) -> (r: Result<usize, FontError>)
        ensures
            font_faces_in(data@) == 0 <==> r is Err,
            r is Ok ==> r == Ok::<usize, FontError>(1),
            final(self).context.font_context.face_count() == old(self).context.font_context.face_count()
                + font_faces_in(data@),
            final(self).context.image_store == old(self).context.image_store,
    {
        match self.context.font_context.load_font(data) {
            Ok(()) => Ok(1),
            Err(e) => Err(e),
        }
    }

    /// Adds font files to the font database and returns how many.
    pub fn load_fonts_async(&mut self, fonts: Vec<Vec<u8>>) -> (r: Result<usize, FontError>)
        ensures
            r is Ok <==> forall|i: int| 0 <= i < fonts@.len() ==> font_faces_in(#[trigger] fonts@[i]@) > 0,
            r matches Ok(n) ==> n == fonts@.len(),
            r is Ok ==> final(self).context.font_context.face_count() == old(self).context.font_context.face_count()
                + fonts_faces(fonts@),
            final(self).context.image_store == old(self).context.image_store,
    {
        self.context.font_context.load_fonts(fonts)
    }

    /// Empties the image cache; fonts stay.
    pub fn clear_image_store(&mut self)
        ensures
            final(self).context.image_store.entries().len() == 0,
            final(self).context.image_store.capacity() == old(self).context.image_store.capacity(),
            final(self).context.font_context == old(self).context.font_context,
            final(self).context.draw_debug_border == old(self).context.draw_debug_border,
            final(self).context.print_debug_tree == old(self).context.print_debug_tree,
    {
        self.context.image_store.clear();
    }

    /// Renders `node` at the requested size: hydrates it through the cache,
    /// resolves its styles top-down, paints it with `layouts` (one per node, in document order) and encodes
    /// it, as PNG unless another format is asked for.
    pub fn render_async(&mut self, node: Node, options: RenderOptions, layouts: Vec<Layout>) -> (r: Result<Vec<u8>, RenderError>)
        ensures
            options.width as int * options.height as int > usize::MAX ==> r == Err::<Vec<u8>, RenderError>(RenderError::ViewportTooLarge),
            options.width as int * options.height as int <= usize::MAX && !(tree_size(node) <= layouts@.len()
                && layouts_ok(layouts@, 0, tree_size(node) as int)) ==> (r == Err::<Vec<u8>, RenderError>(RenderError::MissingLayout)
                    || r == Err::<Vec<u8>, RenderError>(RenderError::InvalidLayout)),
            options.width as int * options.height as int <= usize::MAX && tree_size(node) <= layouts@.len()
                && layouts_ok(layouts@, 0, tree_size(node) as int) && bad_quality(options.quality)
                ==> r == Err::<Vec<u8>, RenderError>(RenderError::Encode(EncodeError::UnsupportedQuality)),
            options.width as int * options.height as int <= usize::MAX && tree_size(node) <= layouts@.len()
                && layouts_ok(layouts@, 0, tree_size(node) as int) && !bad_quality(options.quality)
                ==> exists|hydrated: Node, styled: Node, painted: Canvas|
                    rendered_as(node, hydrated, styled, painted, layouts@, options, old(self).context.draw_debug_border, r),
    {
        if area(options.width, options.height) as u128 > usize::MAX as u128 {
            return Err(RenderError::ViewportTooLarge);
        }
        let format = match options.format {
            Some(f) => ImageOutputFormat::from(f),
            None => ImageOutputFormat::Png,
        };
        let mut root = node;
        let mut renderer = ImageRenderer::new(Viewport::new(options.width, options.height));
        let ghost before = root;
        renderer.hydrate(&mut root, &mut self.context)?;
        let ghost hydrated = root;
        root.resolve_styles();
        proof {
            lemma_hydration_keeps_size(before, hydrated);
            lemma_passed_down_keeps_size(hydrated, style_of(hydrated), root);
        }
        renderer.set_layouts(layouts)?;
        let ghost debug = self.context.draw_debug_border;
        assert(debug == old(self).context.draw_debug_border);
        renderer.draw(&root, &self.context)?;
        let ghost painted = renderer.canvas;
        let r = renderer.encode(format, options.quality);
        proof {
            if !bad_quality(options.quality) {
                assert(rendered_as(before, hydrated, root, painted, layouts@, options, debug, r));
                assert(exists|h: Node, st: Node, c: Canvas| rendered_as(before, h, st, c, layouts@, options, debug, r));
            }
        }
        r
    }
}

} // verus!
