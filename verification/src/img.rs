//! Image decoding: thin, verified shells around the `zune-jpeg` and
//! `zune-png` codecs, returning pixel buffers together with their
//! `height x width x components` shapes.

use vstd::prelude::*;

use zune_jpeg::zune_core::bytestream::ZCursor;
use zune_jpeg::zune_core::result::DecodingResult;

use crate::parsing::array_types::{ints, product, Array, ArrayView, Base};
use crate::parsing::{OutView, OutputTypes};

verus! {

/// What a JPEG decode yields: the decoded pixels and the image's height,
/// width and component count.
pub ghost struct JpegImage {
    pub pixels: Seq<u8>,
    pub height: int,
    pub width: int,
    pub components: int,
}

/// The result of decoding a byte stream as a JPEG image, `None` when the
/// bytes do not decode.  The result depends on the bytes alone.
pub uninterp spec fn jpeg_decode_of(bytes: Seq<u8>) -> Option<JpegImage>;

/// The pixel buffer of a decoded PNG: eight- or sixteen-bit samples.
#[derive(Debug, PartialEq)]
pub enum PngPixels {
    U8(Vec<u8>),
    U16(Vec<u16>),
}

/// The model of a decoded PNG pixel buffer.
pub ghost enum PngPixelsView {
    U8(Seq<u8>),
    U16(Seq<u16>),
}

impl DeepView for PngPixels {
    type V = PngPixelsView;

    open spec fn deep_view(&self) -> PngPixelsView {
        match self {
            PngPixels::U8(v) => PngPixelsView::U8(v@),
            PngPixels::U16(v) => PngPixelsView::U16(v@),
        }
    }
}

/// What a PNG decode yields: the decoded samples and the image's height,
/// width and component count.
pub ghost struct PngImage {
    pub data: PngPixelsView,
    pub height: int,
    pub width: int,
    pub components: int,
}

/// The result of decoding a byte stream as a PNG image with eight- or
/// sixteen-bit samples, `None` when the bytes do not decode to such an
/// image.  The result depends on the bytes alone.
pub uninterp spec fn png_decode_of(bytes: Seq<u8>) -> Option<PngImage>;

/// An error reported by an image codec, carried as text.
#[derive(Debug, PartialEq)]
pub struct ImageError(pub String);

/// Relies on zune_jpeg's `JpegDecoder`: `decode` returns a buffer of
/// exactly `width * height * components` bytes (it allocates the buffer at
/// that size and fills it in place), and `info` / `output_colorspace`
/// report the dimensions and component count after a successful decode.
#[verifier::external_body]
fn jpeg_decode_raw(bytes: &[u8]) -> (r: Result<(Vec<u8>, usize, usize, usize), String>)
    ensures
        match r {
            Ok((pixels, height, width, components)) => jpeg_decode_of(bytes@) == Some(
                JpegImage {
                    pixels: pixels@,
                    height: height as int,
                    width: width as int,
                    components: components as int,
                },
            ) && pixels@.len() == height * width * components,
            Err(_) => jpeg_decode_of(bytes@) is None,
        },
{
    let mut decoder = zune_jpeg::JpegDecoder::new(ZCursor::new(bytes));
    match decoder.decode() {
        Ok(pixels) => {
            let info = decoder.info().unwrap();
            let components = decoder.output_colorspace().unwrap().num_components();
            Ok((pixels, info.height as usize, info.width as usize, components))
        }
        Err(e) => Err(format!("{}", e)),
    }
}

/// Relies on zune_png's `PngDecoder`: `decode` returns `width * height *
/// num_components` samples, eight- or sixteen-bit according to the image's
/// depth (it allocates the buffer at that size and fills it in place), and
/// `get_info` / `get_colorspace` report the dimensions and component count
/// after a successful decode.
#[verifier::external_body]
fn png_decode_raw(bytes: &[u8]) -> (r: Result<(PngPixels, usize, usize, usize), String>)
    ensures
        match r {
            Ok((pixels, height, width, components)) => png_decode_of(bytes@) == Some(
                PngImage {
                    data: pixels.deep_view(),
                    height: height as int,
                    width: width as int,
                    components: components as int,
                },
            ) && (match pixels {
                PngPixels::U8(v) => v@.len(),
                PngPixels::U16(v) => v@.len(),
            }) == height * width * components,
            Err(_) => png_decode_of(bytes@) is None,
        },
{
    let mut decoder = zune_png::PngDecoder::new(ZCursor::new(bytes));
    let result = decoder.decode();
    let dims = decoder.dimensions();
    let comps = decoder.colorspace().map(|c| c.num_components());
    match (result, dims, comps) {
        (Ok(DecodingResult::U8(v)), Some((w, h)), Some(c)) => Ok((PngPixels::U8(v), h, w, c)),
        (Ok(DecodingResult::U16(v)), Some((w, h)), Some(c)) => Ok((PngPixels::U16(v), h, w, c)),
        (Err(e), _, _) => Err(format!("{:?}", e)),
        _ => Err(format!("unsupported sample format")),
    }
}

/// The three-dimensional image shape `[height, width, components]`, with
/// its product equal to `len`, as a shape vector.
fn image_shape(height: usize, width: usize, components: usize, len: usize) -> (r: Vec<usize>)
    requires
        len == height * width * components,
    ensures
        ints(r@) == seq![height as int, width as int, components as int],
        product(ints(r@)) == len,
{
    let mut shape: Vec<usize> = Vec::new();
    shape.push(height);
    shape.push(width);
    shape.push(components);
    proof {
        reveal_with_fuel(product, 5);
        let s = ints(shape@);
        assert(s =~= seq![height as int, width as int, components as int]);
        assert(seq![components as int].drop_first() =~= Seq::<int>::empty());
        assert(seq![width as int, components as int].drop_first() =~= seq![components as int]);
        assert(s.drop_first() =~= seq![width as int, components as int]);
        assert(product(seq![components as int]) == components * 1);
        assert(product(seq![width as int, components as int]) == width as int * (
        components as int * 1));
        assert(product(s) == height as int * (width as int * (components as int * 1)));
        assert(height as int * (width as int * (components as int * 1)) == height * width
            * components) by (nonlinear_arith);
    }
    shape
}

/// Decodes a JPEG byte stream into a dense pixel buffer of shape
/// `[height, width, components]`.
pub fn decode_jpeg_bytes(jpeg_bytes: &[u8]) -> (r: Result<Array<u8>, ImageError>)
    ensures
        match r {
            Ok(a) => jpeg_decode_of(jpeg_bytes@) is Some && a.wf() && ({
                let img = jpeg_decode_of(jpeg_bytes@)->0;
                a.deep_view() == (ArrayView::Dense {
                    data: img.pixels,
                    shape: seq![img.height, img.width, img.components],
                })
            }),
            Err(_) => jpeg_decode_of(jpeg_bytes@) is None,
        },
{
    match jpeg_decode_raw(jpeg_bytes) {
        Ok((pixels, height, width, components)) => {
            let shape = image_shape(height, width, components, pixels.len());
            Ok(Array(Base::Array(pixels), Some(shape)))
        }
        Err(msg) => Err(ImageError(msg)),
    }
}

/// Decodes a PNG byte stream into a dense sample buffer of shape
/// `[height, width, components]`, eight- or sixteen-bit according to the
/// image's depth.
pub fn decode_png_bytes(png_bytes: &[u8]) -> (r: Result<OutputTypes, ImageError>)
    ensures
        match r {
            Ok(o) => png_decode_of(png_bytes@) is Some && ({
                let img = png_decode_of(png_bytes@)->0;
                let shape = seq![img.height, img.width, img.components];
                match img.data {
                    PngPixelsView::U8(data) => o.deep_view() == OutView::U8(
                        ArrayView::Dense { data, shape },
                    ),
                    PngPixelsView::U16(data) => o.deep_view() == OutView::U16(
                        ArrayView::Dense { data, shape },
                    ),
                }
            }),
            Err(_) => png_decode_of(png_bytes@) is None,
        },
{
    match png_decode_raw(png_bytes) {
        Ok((pixels, height, width, components)) => match pixels {
            PngPixels::U8(v) => {
                let shape = image_shape(height, width, components, v.len());
                Ok(OutputTypes::U8(Array(Base::Array(v), Some(shape))))
            }
            PngPixels::U16(v) => {
                let shape = image_shape(height, width, components, v.len());
                Ok(OutputTypes::U16(Array(Base::Array(v), Some(shape))))
            }
        },
        Err(msg) => Err(ImageError(msg)),
    }
}

} // verus!
