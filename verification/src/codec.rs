use vstd::prelude::*;

verus! {

use crate::pixels::{PixelGrid, grid_from_raw, grid_matches_raw};

/// The two unrecoverable failures the pipeline can report. Directory and
/// file handling sit outside the library, so only decoding and encoding
/// appear here.
#[derive(Clone, Copy, PartialEq, Eq, Structural, Debug)]
pub enum SliceError {
    /// The input bytes are not a decodable image.
    DecodeFailed,
    /// A tile buffer could not be encoded as PNG.
    EncodeFailed,
}

/// The RGBA8 decoding of an encoded image: `None` when the bytes are not a
/// decodable image, otherwise the width, the height, and the flat
/// row-major buffer of four bytes per pixel.
pub uninterp spec fn decoded_rgba_of(bytes: Seq<u8>) -> Option<(u32, u32, Seq<u8>)>;

/// The PNG encoding of a flat row-major RGBA8 buffer with the given
/// dimensions: `None` when the encoder rejects the request (for example a
/// zero dimension or a buffer of the wrong length).
pub uninterp spec fn png_encoding_of(width: u32, height: u32, raw: Seq<u8>) -> Option<Seq<u8>>;

/// Relies on `image::load_from_memory` (the format is guessed from the
/// bytes alone), `DynamicImage::to_rgba8` and `ImageBuffer::into_raw`:
/// decoding is a function of the input bytes, and the returned buffer is
/// tightly packed, so its length is `4 * width * height`.
#[verifier::external_body]
fn decode_rgba_bytes(bytes: &[u8]) -> (r: Option<(u32, u32, Vec<u8>)>)
    ensures
        r.is_some() <==> decoded_rgba_of(bytes@).is_some(),
        r matches Some(t) ==> decoded_rgba_of(bytes@) == Some((t.0, t.1, t.2@)) && t.2@.len() == 4
            * (t.0 as int) * (t.1 as int),
{
    match image::load_from_memory(bytes) {
        Ok(img) => {
            let rgba = img.to_rgba8();
            Some((rgba.width(), rgba.height(), rgba.into_raw()))
        },
        Err(_) => None,
    }
}

/// Relies on `image::RgbaImage::from_raw` and `ImageBuffer::write_to` with
/// `ImageFormat::Png`: encoding to an in-memory PNG is a function of the
/// dimensions and the raw RGBA bytes alone.
#[verifier::external_body]
fn encode_rgba_png(width: u32, height: u32, raw: Vec<u8>) -> (r: Option<Vec<u8>>)
    ensures
        r.is_some() <==> png_encoding_of(width, height, raw@).is_some(),
        r matches Some(b) ==> png_encoding_of(width, height, raw@) == Some(b@),
{
    let img = match image::RgbaImage::from_raw(width, height, raw) {
        Some(i) => i,
        None => {
            return None;
        },
    };
    let mut cursor = std::io::Cursor::new(Vec::new());
    match img.write_to(&mut cursor, image::ImageFormat::Png) {
        Ok(()) => Some(cursor.into_inner()),
        Err(_) => None,
    }
}

/// Decode encoded image bytes into a pixel grid. Succeeds exactly when the
/// bytes are a decodable image; the grid then holds that image's
/// dimensions and its RGBA pixels.
pub fn decode_image(bytes: &[u8]) -> (r: Result<PixelGrid, SliceError>)
    ensures
        r.is_ok() <==> decoded_rgba_of(bytes@).is_some(),
        r matches Ok(g) ==> g.wf() && (decoded_rgba_of(bytes@) matches Some(t) && g.width == t.0
            && g.height == t.1 && grid_matches_raw(g, t.2)),
        r matches Err(e) ==> e == SliceError::DecodeFailed,
{
    match decode_rgba_bytes(bytes) {
        None => Err(SliceError::DecodeFailed),
        Some((w, h, raw)) => match grid_from_raw(w, h, &raw) {
            Some(g) => Ok(g),
            None => Err(SliceError::DecodeFailed),
        },
    }
}

/// Encode a flat RGBA buffer as PNG bytes, reporting the library's own
/// error when the encoder declines.
pub fn encode_png(width: u32, height: u32, raw: Vec<u8>) -> (r: Result<Vec<u8>, SliceError>)
    ensures
        r.is_ok() <==> png_encoding_of(width, height, raw@).is_some(),
        r matches Ok(b) ==> png_encoding_of(width, height, raw@) == Some(b@),
        r matches Err(e) ==> e == SliceError::EncodeFailed,
{
    match encode_rgba_png(width, height, raw) {
        Some(b) => Ok(b),
        None => Err(SliceError::EncodeFailed),
    }
}

} // verus!
