//! The image-recode capability: arbitrary raster bytes in, a fixed
//! baseline-compressed raster (maximum-quality JPEG) out. The pixel work is
//! done by the `image` crate; this module only names its outcome and its
//! result.
//!
//! The `image` crate supports process-global decoding hooks; nothing in this
//! crate or in the program around it registers one, so within this program
//! both whether the recode succeeds and what it returns are functions of the
//! input bytes alone.

use vstd::prelude::*;

verus! {

#[verifier::external_type_specification]
#[verifier::external_body]
pub struct ExImageError(image::ImageError);

/// Whether decoding the bytes as a raster image and re-encoding them as a
/// maximum-quality baseline JPEG succeeds: like the result itself, a
/// function of the input bytes alone.
pub uninterp spec fn jpeg_recode_ok(bytes: Seq<u8>) -> bool;

/// The bytes that decoding a raster image and re-encoding it as a
/// maximum-quality baseline JPEG yields, when that succeeds: a function of
/// the input bytes alone.
pub uninterp spec fn jpeg_recode_of(bytes: Seq<u8>) -> Seq<u8>;

/// Relies on `image::load_from_memory` and
/// `image::DynamicImage::write_with_encoder` with
/// `image::codecs::jpeg::JpegEncoder::new_with_quality(_, 100)`: both decide
/// and compute from the input bytes alone, so whether the call succeeds is
/// `jpeg_recode_ok` of the input and a successful recode returns
/// `jpeg_recode_of` of it.
#[verifier::external_body]
pub(crate) fn recode_jpeg_raw(bytes: &Vec<u8>) -> (r: Result<Vec<u8>, image::ImageError>)
    ensures
        r is Ok <==> jpeg_recode_ok(bytes@),
        r matches Ok(out) ==> out@ == jpeg_recode_of(bytes@),
{
    let decoded = image::load_from_memory(bytes)?;
    let mut cursor = std::io::Cursor::new(Vec::new());
    let encoder = image::codecs::jpeg::JpegEncoder::new_with_quality(&mut cursor, 100);
    decoded.write_with_encoder(encoder)?;
    Ok(cursor.into_inner())
}

} // verus!
