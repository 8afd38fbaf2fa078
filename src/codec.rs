//! Decoding fetched bytes into canvases and encoding canvases into image
//! files, through the `image` crate.

use vstd::prelude::*;
use std::io::Cursor;
use crate::canvas::{Canvas, Rgba};
use crate::node::ImageState;

verus! {

/// What `image::load_from_memory` followed by `into_rgba8` gives for a byte
/// string: its width, height and RGBA bytes, or the error's message.
pub uninterp spec fn decoded_rgba(bytes: Seq<u8>) -> Result<(u32, u32, Seq<u8>), Seq<char>>;

/// The bytes that `DynamicImage::write_to` writes for an RGBA image of the
/// given size in the given format (`ImageOutputFormat::code`), or nothing if
/// it fails.
pub uninterp spec fn encoded_image(format: u8, width: u32, height: u32, rgba: Seq<u8>) -> Option<Seq<u8>>;

/// The bytes that the JPEG encoder writes for an RGBA image at the given
/// quality, or nothing if it fails.
pub uninterp spec fn encoded_jpeg(quality: u8, width: u32, height: u32, rgba: Seq<u8>) -> Option<Seq<u8>>;

/// Relies on `image::load_from_memory` and `DynamicImage::into_rgba8`: the
/// result depends on the bytes alone; an RGBA buffer holds four bytes per
/// pixel (decoders fill a buffer of exactly `total_bytes`, conversions make
/// one with `ImageBuffer::new`); an error is passed on as its message.
#[verifier::external_body]
fn decode_rgba(bytes: &[u8]) -> (r: Result<(u32, u32, Vec<u8>), String>)
    ensures
        match r {
            Ok((w, h, v)) => decoded_rgba(bytes@) == Ok::<(u32, u32, Seq<u8>), Seq<char>>((w, h, v@))
                && v@.len() == 4 * w as int * h as int,
            Err(m) => decoded_rgba(bytes@) == Err::<(u32, u32, Seq<u8>), Seq<char>>(m@),
        },
{
    match image::load_from_memory(bytes) {
        Ok(img) => {
            let rgba = img.into_rgba8();
            Ok((rgba.width(), rgba.height(), rgba.into_raw()))
        },
        Err(e) => Err(e.to_string()),
    }
}

/// The output formats a canvas can be encoded to.
#[derive(Clone, Copy, Debug, PartialEq, Eq, Structural)]
pub enum ImageOutputFormat {
    WebP,
    Png,
    Jpeg,
}

impl ImageOutputFormat {
    /// A small number that stands for the format.
    pub open spec fn code(self) -> u8 {
        match self {
            ImageOutputFormat::WebP => 0,
            ImageOutputFormat::Png => 1,
            ImageOutputFormat::Jpeg => 2,
        }
    }
}

/// Relies on `ImageBuffer::from_raw` and `DynamicImage::write_to`: the bytes
/// depend on the format and the pixels alone. `from_raw` accepts the buffer
/// because it holds four bytes per pixel.
#[verifier::external_body]
fn write_rgba(format: ImageOutputFormat, width: u32, height: u32, rgba: Vec<u8>) -> (r: Option<Vec<u8>>)
    requires
        rgba@.len() == 4 * width as int * height as int,
    ensures
        match r {
            Some(v) => encoded_image(format.code(), width, height, rgba@) == Some(v@),
            None => encoded_image(format.code(), width, height, rgba@) is None,
        },
{
    let img = image::RgbaImage::from_raw(width, height, rgba)?;
    let fmt = match format {
        ImageOutputFormat::WebP => image::ImageFormat::WebP,
        ImageOutputFormat::Png => image::ImageFormat::Png,
        ImageOutputFormat::Jpeg => image::ImageFormat::Jpeg,
    };
    let mut out: Vec<u8> = Vec::new();
    image::DynamicImage::ImageRgba8(img).write_to(Cursor::new(&mut out), fmt).ok()?;
    Some(out)
}

/// Relies on `JpegEncoder::new_with_quality` and
/// `DynamicImage::write_with_encoder`: the bytes depend on the quality and
/// the pixels alone.
#[verifier::external_body]
fn write_jpeg(quality: u8, width: u32, height: u32, rgba: Vec<u8>) -> (r: Option<Vec<u8>>)
    requires
        rgba@.len() == 4 * width as int * height as int,
        quality <= 100,
    ensures
        match r {
            Some(v) => encoded_jpeg(quality, width, height, rgba@) == Some(v@),
            None => encoded_jpeg(quality, width, height, rgba@) is None,
        },
{
    let img = image::RgbaImage::from_raw(width, height, rgba)?;
    let mut out: Vec<u8> = Vec::new();
    let encoder = image::codecs::jpeg::JpegEncoder::new_with_quality(&mut out, quality);
    image::DynamicImage::ImageRgba8(img).write_with_encoder(encoder).ok()?;
    Some(out)
}

/// The RGBA bytes that `image::imageops::resize` with the triangle filter
/// gives for an image of `width` by `height` resized to `new_width` by
/// `new_height`.
pub uninterp spec fn resized_rgba(width: u32, height: u32, rgba: Seq<u8>, new_width: u32, new_height: u32) -> Seq<u8>;

/// Relies on `ImageBuffer::from_raw`, which accepts a buffer of four bytes
/// per pixel, and `image::imageops::resize` with `FilterType::Triangle`: the
/// result depends on the pixels and the sizes alone.
#[verifier::external_body]
fn resize_rgba(width: u32, height: u32, rgba: Vec<u8>, new_width: u32, new_height: u32) -> (r: Vec<u8>)
    requires
        rgba@.len() == 4 * width as int * height as int,
    ensures
        r@ == resized_rgba(width, height, rgba@, new_width, new_height),
{
    let img = image::RgbaImage::from_raw(width, height, rgba).unwrap();
    image::imageops::resize(&img, new_width, new_height, image::imageops::FilterType::Triangle).into_raw()
}

/// The canvas resized to `new_width` by `new_height`, or `None` when the
/// resampled pixels do not come to that size.
pub fn resize_canvas(c: &Canvas, new_width: u32, new_height: u32) -> (r: Option<Canvas>)
    requires
        c.wf(),
    ensures
        r matches Some(d) ==> {
            &&& d.wf()
            &&& d.width == new_width
            &&& d.height == new_height
            &&& forall|i: int| 0 <= i < d.pixels@.len() ==> #[trigger] d.pixels@[i] == pixel_of_bytes(
                resized_rgba(c.width, c.height, canvas_bytes(*c), new_width, new_height),
                i,
            )
        },
        (resized_rgba(c.width, c.height, canvas_bytes(*c), new_width, new_height).len() == 4 * new_width as int
            * new_height as int) <==> r is Some,
{
    let raw = canvas_to_rgba(c);
    let out = resize_rgba(c.width, c.height, raw, new_width, new_height);
    canvas_from_rgba(new_width, new_height, &out)
}

/// The pixel stored in bytes `4 i .. 4 i + 4`.
pub open spec fn pixel_of_bytes(bytes: Seq<u8>, i: int) -> Rgba {
    Rgba { r: bytes[4 * i], g: bytes[4 * i + 1], b: bytes[4 * i + 2], a: bytes[4 * i + 3] }
}

/// The bytes of a canvas: four per pixel, in row order.
pub open spec fn canvas_bytes(c: Canvas) -> Seq<u8> {
    Seq::new(
        (4 * c.pixels@.len()) as nat,
        |k: int|
            {
                let p = c.pixels@[k / 4];
                if k % 4 == 0 {
                    p.r
                } else if k % 4 == 1 {
                    p.g
                } else if k % 4 == 2 {
                    p.b
                } else {
                    p.a
                }
            },
    )
}

/// A canvas of `width` by `height` from RGBA bytes, or `None` when the
/// number of bytes is not four per pixel.
pub fn canvas_from_rgba(width: u32, height: u32, bytes: &Vec<u8>) -> (r: Option<Canvas>)
    ensures
        (bytes@.len() == 4 * width as int * height as int) <==> r is Some,
        r matches Some(c) ==> {
            &&& c.wf()
            &&& c.width == width
            &&& c.height == height
            &&& forall|i: int| 0 <= i < c.pixels@.len() ==> #[trigger] c.pixels@[i] == pixel_of_bytes(bytes@, i)
        },
{
    proof {
        assert(width as int * height as int <= 0xffff_ffff * 0xffff_ffff) by (nonlinear_arith)
            requires
                width <= 0xffff_ffff,
                height <= 0xffff_ffff,
        ;
        assert(4 * width as int * height as int == 4 * (width as int * height as int)) by (nonlinear_arith);
    }
    let n: u64 = width as u64 * height as u64;
    if n > (bytes.len() / 4) as u64 || bytes.len() % 4 != 0 || n < (bytes.len() / 4) as u64 {
        return None;
    }
    let n = n as usize;
    let len: usize = bytes.len();
    let mut pixels: Vec<Rgba> = Vec::new();
    let mut i: usize = 0;
    while i < n
        invariant
            n == bytes@.len() / 4,
            4 * n == bytes@.len(),
            len == bytes@.len(),
            bytes@.len() % 4 == 0,
            i <= n,
            pixels@.len() == i,
            forall|j: int| 0 <= j < i ==> #[trigger] pixels@[j] == pixel_of_bytes(bytes@, j),
        decreases n - i,
    {
        let k = 4 * i;
        pixels.push(Rgba { r: bytes[k], g: bytes[k + 1], b: bytes[k + 2], a: bytes[k + 3] });
        i = i + 1;
    }
    Some(Canvas { width, height, pixels })
}

/// The bytes of a canvas, four per pixel in row order.
pub fn canvas_to_rgba(c: &Canvas) -> (r: Vec<u8>)
    requires
        c.wf(),
    ensures
        r@ == canvas_bytes(*c),
        r@.len() == 4 * c.width as int * c.height as int,
{
    let n = c.pixels.len();
    let mut out: Vec<u8> = Vec::new();
    let mut i: usize = 0;
    while i < n
        invariant
            n == c.pixels@.len(),
            c.wf(),
            i <= n,
            out@.len() == 4 * i,
            forall|k: int| 0 <= k < 4 * i ==> #[trigger] out@[k] == canvas_bytes(*c)[k],
        decreases n - i,
    {
        let p = c.pixels[i];
        out.push(p.r);
        out.push(p.g);
        out.push(p.b);
        out.push(p.a);
        proof {
            assert forall|k: int| 4 * i <= k < 4 * i + 4 implies #[trigger] out@[k] == canvas_bytes(*c)[k] by {
                assert(k / 4 == i as int);
            }
        }
        i = i + 1;
    }
    assert(out@ =~= canvas_bytes(*c));
    assert(4 * c.width as int * c.height as int == 4 * (c.width as int * c.height as int)) by (nonlinear_arith);
    out
}

/// What decoding fetched bytes comes to: a canvas, or a decode error.
pub open spec fn decode_outcome(state: ImageState, bytes: Seq<u8>) -> bool {
    match decoded_rgba(bytes) {
        Ok((w, h, px)) => state matches ImageState::Fetched(c) && c.wf() && c.width == w && c.height == h
            && forall|i: int| 0 <= i < c.pixels@.len() ==> #[trigger] c.pixels@[i] == pixel_of_bytes(px, i),
        Err(m) => state matches ImageState::DecodeError(e) && e@ == m,
    }
}

/// Turns the outcome of a fetch into a terminal image state: no bytes is a
/// network error; bytes that decode are a canvas; others a decode error.
pub fn state_from_response(response: Option<Vec<u8>>) -> (r: ImageState)
    ensures
        r.is_terminal(),
        response is None <==> r is NetworkError,
        response matches Some(b) ==> decode_outcome(r, b@),
{
    match response {
        None => ImageState::NetworkError("the resource could not be fetched".to_string()),
        Some(bytes) => match decode_rgba(bytes.as_slice()) {
            Ok((w, h, px)) => ImageState::Fetched(canvas_from_rgba(w, h, &px).unwrap()),
            Err(e) => ImageState::DecodeError(e),
        },
    }
}

/// Why encoding failed.
#[derive(Clone, Copy, Debug, PartialEq, Eq, Structural)]
pub enum EncodeError {
    /// A quality above 100.
    UnsupportedQuality,
    /// The encoder refused the image.
    EncoderFailed,
}

/// Whether a quality is refused: one above 100.
pub open spec fn bad_quality(quality: Option<u8>) -> bool {
    quality matches Some(q) && q > 100
}

/// The bytes the encoder gives for a canvas in `format`: the JPEG encoder at
/// the quality when one is given for JPEG, the format's default otherwise.
pub open spec fn encoded_canvas(c: Canvas, format: ImageOutputFormat, quality: Option<u8>) -> Option<Seq<u8>> {
    let bytes = canvas_bytes(c);
    if format == ImageOutputFormat::Jpeg && quality is Some {
        encoded_jpeg(quality->0, c.width, c.height, bytes)
    } else {
        encoded_image(format.code(), c.width, c.height, bytes)
    }
}

/// Encodes a canvas into `format`. A quality, where given, must lie in
/// 0..=100 and is used for JPEG (the encoder treats 0 as 1); the other formats are lossless and ignore it.
pub fn encode(canvas: &Canvas, format: ImageOutputFormat, quality: Option<u8>) -> (r: Result<Vec<u8>, EncodeError>)
    requires
        canvas.wf(),
    ensures
        bad_quality(quality) ==> r == Err::<Vec<u8>, EncodeError>(EncodeError::UnsupportedQuality),
        !bad_quality(quality) ==> match encoded_canvas(*canvas, format, quality) {
            Some(v) => r matches Ok(b) && b@ == v,
            None => r == Err::<Vec<u8>, EncodeError>(EncodeError::EncoderFailed),
        },
{
    match quality {
        Some(q) => {
            if q > 100 {
                return Err(EncodeError::UnsupportedQuality);
            }
        },
        None => {},
    }
    let raw = canvas_to_rgba(canvas);
    let out = match (format, quality) {
        (ImageOutputFormat::Jpeg, Some(q)) => write_jpeg(q, canvas.width, canvas.height, raw),
        _ => write_rgba(format, canvas.width, canvas.height, raw),
    };
    match out {
        Some(v) => Ok(v),
        None => Err(EncodeError::EncoderFailed),
    }
}

} // verus!
