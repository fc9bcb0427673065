//! Format validation: container sniffing from magic bytes, and the
//! full decode that confirms the payload and yields its dimensions.
//!
//! Sniffing goes by the payload's leading bytes, never by a file
//! extension or a declared content type. A payload that sniffs as an
//! allowed container must still survive a full decode: truncated or
//! corrupt bodies pass the magic bytes and fail there.
use vstd::prelude::*;

verus! {

/// The accepted image containers.
#[derive(Debug, Clone, Copy, PartialEq, Eq, Structural)]
pub enum ImageFormat {
    /// Portable Network Graphics.
    Png,
    /// JPEG/JFIF.
    Jpeg,
    /// GIF, either 87a or 89a.
    Gif,
    /// WebP inside a RIFF container.
    WebP,
    /// Windows bitmap.
    Bmp,
}

/// The container a payload's magic bytes declare, if it is one of the
/// accepted set.
pub open spec fn sniff_spec(b: Seq<u8>) -> Option<ImageFormat> {
    if b.len() >= 8 && b[0] == 0x89 && b[1] == 0x50 && b[2] == 0x4e && b[3] == 0x47 && b[4] == 0x0d
        && b[5] == 0x0a && b[6] == 0x1a && b[7] == 0x0a {
        Some(ImageFormat::Png)
    } else if b.len() >= 3 && b[0] == 0xff && b[1] == 0xd8 && b[2] == 0xff {
        Some(ImageFormat::Jpeg)
    } else if b.len() >= 6 && b[0] == 0x47 && b[1] == 0x49 && b[2] == 0x46 && b[3] == 0x38 && (b[4]
        == 0x37 || b[4] == 0x39) && b[5] == 0x61 {
        Some(ImageFormat::Gif)
    } else if b.len() >= 12 && b[0] == 0x52 && b[1] == 0x49 && b[2] == 0x46 && b[3] == 0x46 && b[8]
        == 0x57 && b[9] == 0x45 && b[10] == 0x42 && b[11] == 0x50 {
        Some(ImageFormat::WebP)
    } else if b.len() >= 2 && b[0] == 0x42 && b[1] == 0x4d {
        Some(ImageFormat::Bmp)
    } else {
        None
    }
}

/// Sniff the container from the payload's magic bytes.
pub fn sniff_format(bytes: &Vec<u8>) -> (r: Option<ImageFormat>)
    ensures
        r == sniff_spec(bytes@),
{
    let n = bytes.len();
    if n >= 8 && bytes[0] == 0x89 && bytes[1] == 0x50 && bytes[2] == 0x4e && bytes[3] == 0x47
        && bytes[4] == 0x0d && bytes[5] == 0x0a && bytes[6] == 0x1a && bytes[7] == 0x0a {
        Some(ImageFormat::Png)
    } else if n >= 3 && bytes[0] == 0xff && bytes[1] == 0xd8 && bytes[2] == 0xff {
        Some(ImageFormat::Jpeg)
    } else if n >= 6 && bytes[0] == 0x47 && bytes[1] == 0x49 && bytes[2] == 0x46 && bytes[3] == 0x38
        && (bytes[4] == 0x37 || bytes[4] == 0x39) && bytes[5] == 0x61 {
        Some(ImageFormat::Gif)
    } else if n >= 12 && bytes[0] == 0x52 && bytes[1] == 0x49 && bytes[2] == 0x46 && bytes[3]
        == 0x46 && bytes[8] == 0x57 && bytes[9] == 0x45 && bytes[10] == 0x42 && bytes[11] == 0x50 {
        Some(ImageFormat::WebP)
    } else if n >= 2 && bytes[0] == 0x42 && bytes[1] == 0x4d {
        Some(ImageFormat::Bmp)
    } else {
        None
    }
}

/// The stored-file extension of each accepted container.
pub open spec fn ext_of_format_spec(fmt: ImageFormat) -> Seq<char> {
    match fmt {
        ImageFormat::Png => "png"@,
        ImageFormat::Jpeg => "jpg"@,
        ImageFormat::Gif => "gif"@,
        ImageFormat::WebP => "webp"@,
        ImageFormat::Bmp => "bmp"@,
    }
}

/// The stored-file extension of one accepted container.
pub fn ext_of_format(fmt: ImageFormat) -> (r: &'static str)
    ensures
        r@ == ext_of_format_spec(fmt),
{
    match fmt {
        ImageFormat::Png => "png",
        ImageFormat::Jpeg => "jpg",
        ImageFormat::Gif => "gif",
        ImageFormat::WebP => "webp",
        ImageFormat::Bmp => "bmp",
    }
}

/// What a full decode of a payload yields: its pixel dimensions, or
/// nothing when the payload does not decode. Named, not spelled out:
/// decoding is a function of the bytes alone.
pub uninterp spec fn decoded_dims(b: Seq<u8>) -> Option<(u32, u32)>;

/// Relies on `image::load_from_memory` and
/// `image::GenericImageView::dimensions`: the decode guesses the
/// format from the bytes, fully decodes, and its outcome and the
/// dimensions are functions of the bytes alone.
#[verifier::external_body]
pub(crate) fn decode_dimensions(bytes: &Vec<u8>) -> (r: Option<(u32, u32)>)
    ensures
        r == decoded_dims(bytes@),
{
    match image::load_from_memory(bytes.as_slice()) {
        Ok(img) => Some(image::GenericImageView::dimensions(&img)),
        Err(_) => None,
    }
}

} // verus!
