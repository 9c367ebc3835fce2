//! Input gates: payload size, container format, decoding and dimension limits.

use vstd::prelude::*;

use crate::model::VerifyError;
use crate::raster::{raster_wf, GrayImage, GrayImageView};

verus! {

/// Container format recognised from the leading bytes of a payload.
#[derive(Debug, Clone, Copy, PartialEq, Eq, Structural)]
pub enum SniffedFormat {
    Png,
    Jpeg,
    WebP,
    /// Any other format, or none that the signatures recognise.
    Other,
}

pub open spec fn has_prefix(s: Seq<u8>, p: Seq<u8>) -> bool {
    p.len() <= s.len() && s.subrange(0, p.len() as int) == p
}

pub open spec fn png_signature() -> Seq<u8> {
    seq![0x89u8, 0x50u8, 0x4Eu8, 0x47u8, 0x0Du8, 0x0Au8, 0x1Au8, 0x0Au8]
}

pub open spec fn jpeg_signature() -> Seq<u8> {
    seq![0xFFu8, 0xD8u8, 0xFFu8]
}

/// `RIFF` at offset 0 and `WEBP` at offset 8.
pub open spec fn is_webp_container(s: Seq<u8>) -> bool {
    &&& s.len() >= 12
    &&& s.subrange(0, 4) == seq![0x52u8, 0x49u8, 0x46u8, 0x46u8]
    &&& s.subrange(8, 12) == seq![0x57u8, 0x45u8, 0x42u8, 0x50u8]
}

/// The format that the leading bytes of `s` announce.
pub open spec fn sniffed_format(s: Seq<u8>) -> SniffedFormat {
    if has_prefix(s, png_signature()) {
        SniffedFormat::Png
    } else if has_prefix(s, jpeg_signature()) {
        SniffedFormat::Jpeg
    } else if is_webp_container(s) {
        SniffedFormat::WebP
    } else {
        SniffedFormat::Other
    }
}

/// Calls `image::guess_format`, which matches the leading bytes against a
/// table of signatures; the PNG, JPEG and WebP entries are the ones stated
/// here, and every other outcome (another format, or no match) is `Other`.
#[verifier::external_body]
fn sniff_format(bytes: &[u8]) -> (res: SniffedFormat)
    ensures
        res == sniffed_format(bytes@),
{
    match image::guess_format(bytes) {
        Ok(image::ImageFormat::Png) => SniffedFormat::Png,
        Ok(image::ImageFormat::Jpeg) => SniffedFormat::Jpeg,
        Ok(image::ImageFormat::WebP) => SniffedFormat::WebP,
        _ => SniffedFormat::Other,
    }
}

/// Width, height and row-major 8-bit luma samples that `image` decodes from
/// `bytes` (format guessed from the leading bytes), or `None` when decoding
/// fails.
pub uninterp spec fn decoded_luma(bytes: Seq<u8>) -> Option<(u32, u32, Seq<u8>)>;

/// Calls `image::load_from_memory` and converts the decoded image to 8-bit
/// luma with `DynamicImage::to_luma8`. The contract names the outcome
/// `decoded_luma(bytes)` and states the one fact of the crate's buffers that
/// callers use: a luma buffer holds exactly `width * height` samples. What
/// the decoder computes is not stated. The crate keeps process-wide format
/// and decoder hooks; this program registers none, and the name assumes so.
#[verifier::external_body]
fn decode_luma(bytes: &[u8]) -> (res: Option<(u32, u32, Vec<u8>)>)
    ensures
        res is None <==> decoded_luma(bytes@) is None,
        res matches Some(d) ==> decoded_luma(bytes@) == Some((d.0, d.1, d.2@)),
        res matches Some(d) ==> d.2@.len() == d.0 as nat * d.1 as nat,
{
    match image::load_from_memory(bytes) {
        Ok(decoded) => {
            let gray = decoded.to_luma8();
            Some((gray.width(), gray.height(), gray.into_raw()))
        },
        Err(_) => None,
    }
}

/// Outcome of the payload gate for a payload of `len` bytes.
pub open spec fn payload_verdict(len: nat, max_file_size: nat) -> Result<(), VerifyError> {
    if len == 0 {
        Err(VerifyError::EmptyInput)
    } else if len > max_file_size {
        Err(VerifyError::InputTooLarge { size: len as usize, limit: max_file_size as usize })
    } else {
        Ok(())
    }
}

/// Refuses empty payloads and payloads longer than `max_file_size` bytes.
pub fn screen_payload(len: usize, max_file_size: usize) -> (res: Result<(), VerifyError>)
    ensures
        res == payload_verdict(len as nat, max_file_size as nat),
{
    if len == 0 {
        Err(VerifyError::EmptyInput)
    } else if len > max_file_size {
        Err(VerifyError::InputTooLarge { size: len, limit: max_file_size })
    } else {
        Ok(())
    }
}

/// Only JPEG, PNG and WebP are accepted; the flag tells whether the payload is JPEG.
pub open spec fn format_verdict(format: SniffedFormat) -> Result<bool, VerifyError> {
    match format {
        SniffedFormat::Other => Err(VerifyError::UnsupportedFormat),
        _ => Ok(format == SniffedFormat::Jpeg),
    }
}

pub fn check_format(format: SniffedFormat) -> (res: Result<bool, VerifyError>)
    ensures
        res == format_verdict(format),
{
    match format {
        SniffedFormat::Jpeg => Ok(true),
        SniffedFormat::Png => Ok(false),
        SniffedFormat::WebP => Ok(false),
        SniffedFormat::Other => Err(VerifyError::UnsupportedFormat),
    }
}

pub open spec fn dimension_verdict(width: u32, height: u32, limit: u32) -> Result<(), VerifyError> {
    if width > limit || height > limit {
        Err(VerifyError::DimensionTooLarge { width, height, limit })
    } else {
        Ok(())
    }
}

/// Refuses a decoded image wider or taller than `limit`.
pub fn check_dimensions(width: u32, height: u32, limit: u32) -> (res: Result<(), VerifyError>)
    ensures
        res == dimension_verdict(width, height, limit),
{
    if width > limit || height > limit {
        Err(VerifyError::DimensionTooLarge { width, height, limit })
    } else {
        Ok(())
    }
}

/// Outcome of decoding, given the decoder's output.
pub open spec fn decoded_verdict(
    decoded: Option<(u32, u32, Seq<u8>)>,
    is_jpeg: bool,
    max_dimension: u32,
) -> Result<(GrayImageView, bool), VerifyError> {
    match decoded {
        None => Err(VerifyError::DecodeFailed),
        Some((w, h, px)) => if w > max_dimension || h > max_dimension {
            Err(VerifyError::DimensionTooLarge { width: w, height: h, limit: max_dimension })
        } else {
            Ok((GrayImageView { width: w as nat, height: h as nat, pixels: px }, is_jpeg))
        },
    }
}

/// Whether an actual result agrees with a specified one.
pub open spec fn image_result_is(
    res: Result<(GrayImage, bool), VerifyError>,
    expected: Result<(GrayImageView, bool), VerifyError>,
) -> bool {
    match (res, expected) {
        (Ok((img, j)), Ok((v, j2))) => img@ == v && j == j2 && raster_wf(img@),
        (Err(e), Err(e2)) => e == e2,
        _ => false,
    }
}

/// Turns the decoder's output into a raster, refusing failed decodes and
/// images beyond the dimension limit.
pub fn accept_decoded(decoded: Option<(u32, u32, Vec<u8>)>, is_jpeg: bool, max_dimension: u32) -> (res: Result<
    (GrayImage, bool),
    VerifyError,
>)
    requires
        decoded matches Some(d) ==> d.2@.len() == d.0 as nat * d.1 as nat,
    ensures
        image_result_is(
            res,
            decoded_verdict(
                match decoded {
                    Some(d) => Some((d.0, d.1, d.2@)),
                    None => None,
                },
                is_jpeg,
                max_dimension,
            ),
        ),
{
    match decoded {
        None => Err(VerifyError::DecodeFailed),
        Some((width, height, pixels)) => {
            match check_dimensions(width, height, max_dimension) {
                Err(e) => Err(e),
                Ok(()) => match GrayImage::new(width, height, pixels) {
                    Some(img) => Ok((img, is_jpeg)),
                    None => Err(VerifyError::DecodeFailed),
                },
            }
        },
    }
}

/// What decoding `bytes` yields: the format gate, then the decoder, then the
/// dimension limit.
pub open spec fn decode_verdict(bytes: Seq<u8>, max_dimension: u32) -> Result<(GrayImageView, bool), VerifyError> {
    match format_verdict(sniffed_format(bytes)) {
        Err(e) => Err(e),
        Ok(is_jpeg) => decoded_verdict(decoded_luma(bytes), is_jpeg, max_dimension),
    }
}

/// Decodes an accepted payload to 8-bit luma. Returns the raster and whether
/// the payload is JPEG.
pub fn decode_image(image_bytes: &[u8], max_dimension: u32) -> (res: Result<(GrayImage, bool), VerifyError>)
    ensures
        image_result_is(res, decode_verdict(image_bytes@, max_dimension)),
{
    let format = sniff_format(image_bytes);
    let is_jpeg = match check_format(format) {
        Err(e) => return Err(e),
        Ok(j) => j,
    };
    let decoded = decode_luma(image_bytes);
    accept_decoded(decoded, is_jpeg, max_dimension)
}

/// What the whole input stage yields for `bytes`: the payload gate first,
/// decoding only for payloads that pass it.
pub open spec fn input_verdict(bytes: Seq<u8>, max_file_size: usize, max_dimension: u32) -> Result<
    (GrayImageView, bool),
    VerifyError,
> {
    match payload_verdict(bytes.len(), max_file_size as nat) {
        Err(e) => Err(e),
        Ok(()) => decode_verdict(bytes, max_dimension),
    }
}

/// The input stage of every verification: refuses empty and oversized
/// payloads before any decoding, then decodes under the dimension limit.
pub fn prepare_image(image_bytes: &[u8], max_file_size: usize, max_dimension: u32) -> (res: Result<
    (GrayImage, bool),
    VerifyError,
>)
    ensures
        image_result_is(res, input_verdict(image_bytes@, max_file_size, max_dimension)),
{
    match screen_payload(image_bytes.len(), max_file_size) {
        Err(e) => Err(e),
        Ok(()) => decode_image(image_bytes, max_dimension),
    }
}

} // verus!
