//! PNG encoding and decoding of a `RenderedImage`.
//!
//! The codec itself is the image crate's; the library names its results and
//! holds the round trip to them: PNG is lossless, so decoding what was
//! encoded reproduces the exact dimensions and pixel bytes.

use crate::error::Error;
use crate::raster::RenderedImage;
use vstd::prelude::*;
use vstd::string::*;

verus! {

/// What the image crate's PNG encoder yields for these pixels: the encoded
/// stream, or nothing when the encoder refuses. A function of the
/// dimensions and bytes alone.
pub uninterp spec fn spec_png_encode(width: u32, height: u32, data: Seq<u8>) -> Option<Seq<u8>>;

/// What the image crate's PNG decoder, run without decoding limits, yields
/// for a byte stream, converted to RGBA8: the dimensions and pixel bytes,
/// or nothing when the stream is not a decodable PNG. A function of the
/// bytes alone.
pub uninterp spec fn spec_png_decode(bytes: Seq<u8>) -> Option<(u32, u32, Seq<u8>)>;

/// Relies on `image::codecs::png::PngEncoder` and
/// `image::ImageEncoder::write_image`: writing an RGBA8 buffer of matching
/// length for nonzero dimensions either yields the encoder's PNG stream for
/// those pixels — a deterministic function of the arguments — or refuses;
/// and PNG encoding is lossless, so the crate's own decoder yields the same
/// dimensions and bytes back from every stream it produced. `write_image`
/// asserts that the buffer length matches the dimensions, so that is
/// required here.
#[verifier::external_body]
fn png_encode_bytes(width: u32, height: u32, data: &Vec<u8>) -> (r: Result<Vec<u8>, String>)
    requires
        data@.len() == 4 * (width as int) * (height as int),
        width >= 1,
        height >= 1,
    ensures
        match r {
            Ok(b) => {
                &&& spec_png_encode(width, height, data@) == Some(b@)
                &&& spec_png_decode(b@) == Some((width, height, data@))
            },
            Err(_) => spec_png_encode(width, height, data@) is None,
        },
{
    let mut out: Vec<u8> = Vec::new();
    let enc = image::codecs::png::PngEncoder::new(&mut out);
    match image::ImageEncoder::write_image(
        enc,
        data.as_slice(),
        width,
        height,
        image::ExtendedColorType::Rgba8,
    ) {
        Ok(()) => Ok(out),
        Err(e) => Err(e.to_string()),
    }
}

/// Relies on `image::ImageReader` with its decoding limits disabled and
/// `DynamicImage::to_rgba8`: decoding succeeds exactly on decodable PNG
/// streams of any size, deterministically in the bytes alone, and the
/// RGBA8 buffer it yields holds four bytes per pixel of the decoded
/// dimensions.
#[verifier::external_body]
fn png_decode_bytes(bytes: &Vec<u8>) -> (r: Result<RenderedImage, String>)
    ensures
        match r {
            Ok(img) => {
                &&& spec_png_decode(bytes@) == Some((img.width, img.height, img.data@))
                &&& img.wf()
            },
            Err(_) => spec_png_decode(bytes@) is None,
        },
{
    let mut reader = image::ImageReader::new(std::io::Cursor::new(bytes.as_slice()));
    reader.set_format(image::ImageFormat::Png);
    reader.no_limits();
    match reader.decode() {
        Ok(decoded) => {
            let rgba = decoded.to_rgba8();
            let width = rgba.width();
            let height = rgba.height();
            Ok(RenderedImage { width, height, data: rgba.into_raw() })
        },
        Err(e) => Err(e.to_string()),
    }
}

/// Encodes an image to PNG. Succeeds if and only if the encoder yields a
/// stream for these pixels, and then the bytes are exactly that stream,
/// whose decoding reproduces the image.
pub fn encode_png(img: &RenderedImage) -> (r: Result<Vec<u8>, Error>)
    requires
        img.wf(),
        img.width >= 1,
        img.height >= 1,
    ensures
        match r {
            Ok(b) => {
                &&& spec_png_encode(img.width, img.height, img.data@) == Some(b@)
                &&& spec_png_decode(b@) == Some((img.width, img.height, img.data@))
            },
            Err(e) => {
                &&& spec_png_encode(img.width, img.height, img.data@) is None
                &&& e matches Error::Generic(_)
            },
        },
{
    match png_encode_bytes(img.width, img.height, &img.data) {
        Ok(b) => Ok(b),
        Err(e) => Err(
            Error::Generic(String::from_str("could not encode PNG: ").concat(e.as_str())),
        ),
    }
}

/// Decodes a PNG stream into an image. Succeeds exactly when the bytes are
/// a decodable PNG, with the decoder's dimensions and pixels.
pub fn decode_png(bytes: &Vec<u8>) -> (r: Result<RenderedImage, Error>)
    ensures
        match r {
            Ok(img) => {
                &&& spec_png_decode(bytes@) == Some((img.width, img.height, img.data@))
                &&& img.wf()
            },
            Err(e) => {
                &&& spec_png_decode(bytes@) is None
                &&& e matches Error::Generic(_)
            },
        },
{
    match png_decode_bytes(bytes) {
        Ok(img) => Ok(img),
        Err(e) => Err(
            Error::Generic(String::from_str("could not decode PNG: ").concat(e.as_str())),
        ),
    }
}

/// Law: the PNG round trip is the identity on pixels. It succeeds if and
/// only if the encoder yields a stream for the image at all, and then
/// decoding that stream reproduces the exact dimensions and pixel bytes.
pub fn png_round_trip(img: &RenderedImage) -> (r: Result<RenderedImage, Error>)
    requires
        img.wf(),
        img.width >= 1,
        img.height >= 1,
    ensures
        match r {
            Ok(back) => {
                &&& spec_png_encode(img.width, img.height, img.data@) is Some
                &&& back.width == img.width
                &&& back.height == img.height
                &&& back.data@ == img.data@
                &&& back.wf()
            },
            Err(e) => {
                &&& spec_png_encode(img.width, img.height, img.data@) is None
                &&& e matches Error::Generic(_)
            },
        },
{
    let bytes = match encode_png(img) {
        Ok(b) => b,
        Err(e) => {
            return Err(e);
        },
    };
    match decode_png(&bytes) {
        Ok(back) => Ok(back),
        Err(e) => {
            proof {
                assert(false);
            }
            Err(e)
        },
    }
}

} // verus!
