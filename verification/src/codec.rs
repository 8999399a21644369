//! The outside functions that the library relies on: resampling, JPEG and
//! PNG encoding from the `image` crate, base64 from the `base64` crate,
//! percent-encoding from the `urlencoding` crate, and two functions of std on
//! strings. Nothing in this file is proved; each contract records what the
//! outside function does.

use base64::Engine;
use image::ImageEncoder;
use vstd::prelude::*;

verus! {

#[verifier::external_type_specification]
#[verifier::external_body]
pub struct ExImageError(image::ImageError);

/// Largest width or height of an image that is handed to the resampler.
/// Up to here every pixel coordinate, and every coordinate less one half, is
/// exact in single precision.
pub const RESIZE_SIDE_LIMIT: u32 = 0x40_0000;

/// Largest width or height of a JPEG image.
pub const JPEG_SIDE_LIMIT: u32 = 0xffff;

/// The RGBA bytes that `image::imageops::resize` with the triangle filter
/// yields for the RGBA bytes of an image of the given size and a new size.
pub uninterp spec fn triangle_resized(
    pixels: Seq<u8>,
    width: u32,
    height: u32,
    new_width: u32,
    new_height: u32,
) -> Seq<u8>;

/// The bytes of the baseline JPEG file that `image`'s encoder writes for the
/// RGB bytes of an image of the given size at the given quality.
pub uninterp spec fn jpeg_encoding(rgb: Seq<u8>, width: u32, height: u32, quality: u8) -> Seq<u8>;

/// The bytes of the PNG file that `image`'s encoder writes with its default
/// settings for the RGBA bytes of an image of the given size, or nothing
/// where the encoder refuses the image.
pub uninterp spec fn png_encoding(rgba: Seq<u8>, width: u32, height: u32) -> Option<Seq<u8>>;

/// The text that the standard base64 alphabet with padding gives for the bytes.
pub uninterp spec fn base64_standard(bytes: Seq<u8>) -> Seq<char>;

/// The resampler can be called on an image of the given size for a smaller
/// one: no side of the image is beyond the limit, no new side is beyond
/// that of a JPEG image, the image is not enlarged, and the buffers that the
/// resampler allocates can be addressed: one of single-precision RGBA
/// pixels, as wide as the image and as high as the result, and the result
/// itself.
///
/// On these sizes the resampler does not panic. Its one panic is the
/// conversion of a sample that is not a number, and such a sample arises
/// only where the weights of an output pixel sum to zero. Along either axis
/// it computes for the output index `o`, in single precision, the ratio
/// `r` of side to new side, the centre `c = (o + 0.5) * r`, a window of
/// indices from the floor of `c - r` to the ceiling of `c + r`, clamped to
/// the side, and for each index `i` of the window the weight
/// `1 - |i - (c - 0.5)| / r` where that is positive, else zero. Here `r` is
/// at least one, since the image is not enlarged and division rounds
/// monotonically. `o + 0.5` is exact, and `c` lies between one half and the
/// side, which is below 2^23, so that `c - 0.5`, `c - 1`, `c + 1` and every
/// index are exact. The index nearest to `c - 0.5` within the side is at
/// most one half away from it; it is at least `c - 1`, which is at least the
/// rounded `c - r`, and less than `c + 1`, which is at most the rounded
/// `c + r`, so it lies in the window. Its weight is at least one half, and
/// no weight is negative.
pub open spec fn resize_allowed(width: u32, height: u32, new_width: u32, new_height: u32) -> bool {
    &&& 1 <= width <= RESIZE_SIDE_LIMIT
    &&& 1 <= height <= RESIZE_SIDE_LIMIT
    &&& 1 <= new_width <= width
    &&& 1 <= new_height <= height
    &&& new_width <= JPEG_SIDE_LIMIT
    &&& new_height <= JPEG_SIDE_LIMIT
    &&& width * new_height * 16 <= isize::MAX
}

/// A bound on the number of bytes of the JPEG file of an image of the given
/// size: 1024 for the markers and tables, and 2048 for each block of eight
/// by eight pixels.
pub open spec fn jpeg_length_bound(width: u32, height: u32) -> int {
    1024 + 2048 * (((width + 7) / 8) * ((height + 7) / 8))
}

/// The sides of an image that the JPEG encoder accepts: neither is zero or
/// beyond the limit.
pub open spec fn jpeg_allowed(width: u32, height: u32) -> bool {
    1 <= width <= JPEG_SIDE_LIMIT && 1 <= height <= JPEG_SIDE_LIMIT
}

/// The input of the base64 encoder is short enough for its output, four
/// characters for every three bytes, to be addressed.
pub open spec fn base64_allowed(len: nat) -> bool {
    (len / 3) * 4 + 4 <= isize::MAX
}

/// Calls `image::imageops::resize` with `FilterType::Triangle` on the RGBA
/// image that the bytes hold. The contract names the resulting bytes and
/// states their number, which is that of an image of the new size; the
/// resampler returns a buffer of exactly the size it was asked for.
#[verifier::external_body]
pub(crate) fn resize_triangle(
    pixels: &Vec<u8>,
    width: u32,
    height: u32,
    new_width: u32,
    new_height: u32,
) -> (out: Vec<u8>)
    requires
        pixels@.len() == width * height * 4,
        resize_allowed(width, height, new_width, new_height),
    ensures
        out@ == triangle_resized(pixels@, width, height, new_width, new_height),
        out@.len() == new_width * new_height * 4,
{
    let source: image::ImageBuffer<image::Rgba<u8>, &[u8]> = image::ImageBuffer::from_raw(
        width,
        height,
        pixels.as_slice(),
    ).unwrap();
    image::imageops::resize(
        &source,
        new_width,
        new_height,
        image::imageops::FilterType::Triangle,
    ).into_raw()
}

/// Calls `JpegEncoder::new_with_quality` and `JpegEncoder::encode` of
/// `image::codecs::jpeg` with `ExtendedColorType::Rgb8`, writing into a
/// vector. The encoder refuses an image with a side of zero or of more than
/// 65535 pixels and fails on nothing else, since writing to a vector cannot
/// fail; the contract says so and names the bytes written.
///
/// It also bounds their number. Before the pixels the encoder writes the
/// start marker and eight segments of fixed size, the largest a table of
/// 162 values: fewer than 700 bytes. It then writes three blocks of
/// coefficients for each block of eight by eight pixels, stepping through
/// both sides by eight. A block of coefficients is written as at most 68
/// codes, each of at most 16 bits, and at most 64 values of at most 16 bits;
/// the writer puts out one byte for every eight bits and one more after a
/// byte of all ones: at most 528 bytes. At the end come at most two bytes of
/// padding and the end marker.
#[verifier::external_body]
pub(crate) fn encode_jpeg(
    rgb: &Vec<u8>,
    width: u32,
    height: u32,
    quality: u8,
) -> (r: Result<Vec<u8>, image::ImageError>)
    requires
        rgb@.len() == width * height * 3,
    ensures
        r is Ok <==> jpeg_allowed(width, height),
        r matches Ok(bytes) ==> bytes@ == jpeg_encoding(rgb@, width, height, quality),
        r matches Ok(bytes) ==> bytes@.len() <= jpeg_length_bound(width, height),
{
    let mut out: Vec<u8> = Vec::new();
    image::codecs::jpeg::JpegEncoder::new_with_quality(&mut out, quality).encode(
        rgb.as_slice(),
        width,
        height,
        image::ExtendedColorType::Rgb8,
    )?;
    Ok(out)
}

/// Calls `PngEncoder::new` and `write_image` of `image::codecs::png` with
/// `ExtendedColorType::Rgba8`, writing into a vector. The contract names the
/// outcome: the bytes written, or that the encoder refused the image.
#[verifier::external_body]
pub(crate) fn encode_png(rgba: &Vec<u8>, width: u32, height: u32) -> (r: Result<
    Vec<u8>,
    image::ImageError,
>)
    requires
        rgba@.len() == width * height * 4,
    ensures
        match r {
            Ok(bytes) => png_encoding(rgba@, width, height) == Some(bytes@),
            Err(_) => png_encoding(rgba@, width, height) is None,
        },
{
    let mut out: Vec<u8> = Vec::new();
    image::codecs::png::PngEncoder::new(&mut out).write_image(
        rgba.as_slice(),
        width,
        height,
        image::ExtendedColorType::Rgba8,
    )?;
    Ok(out)
}

/// Whether a byte stands for itself in a percent-encoded text: the letters
/// and digits of the ASCII range, and `-`, `.`, `_`, `~`.
pub open spec fn is_unreserved(byte: u8) -> bool {
    ||| 0x30 <= byte <= 0x39
    ||| 0x41 <= byte <= 0x5a
    ||| 0x61 <= byte <= 0x7a
    ||| byte == 0x2d
    ||| byte == 0x2e
    ||| byte == 0x5f
    ||| byte == 0x7e
}

/// The hexadecimal digit for a value below sixteen, in capitals.
pub open spec fn hex_digit(value: u8) -> char {
    if value < 10 {
        (0x30 + value) as char
    } else {
        (0x41 + value - 10) as char
    }
}

/// What stands for a byte in a percent-encoded text: the byte itself where
/// it is unreserved, else a percent sign and its two hexadecimal digits.
pub open spec fn encoded_byte(byte: u8) -> Seq<char> {
    if is_unreserved(byte) {
        seq![byte as char]
    } else {
        seq!['%', hex_digit(byte / 16), hex_digit(byte % 16)]
    }
}

/// The percent-encoded text for a sequence of bytes.
pub open spec fn percent_encoded(bytes: Seq<u8>) -> Seq<char>
    decreases bytes.len(),
{
    if bytes.len() == 0 {
        Seq::empty()
    } else {
        percent_encoded(bytes.drop_last()) + encoded_byte(bytes.last())
    }
}

/// Calls `urlencoding::encode`, which percent-encodes every byte of the
/// text's UTF-8 form except letters, digits and `-`, `_`, `.`, `~`, with
/// hexadecimal digits in capitals. The contract states exactly that.
#[verifier::external_body]
pub(crate) fn url_encode(text: &str) -> (out: String)
    ensures
        out@ == percent_encoded(vstd::utf8::encode_utf8(text@)),
{
    urlencoding::encode(text).into_owned()
}

/// Calls `encode` of `base64::engine::general_purpose::STANDARD`. The
/// contract names the resulting text.
#[verifier::external_body]
pub(crate) fn encode_base64(bytes: &Vec<u8>) -> (text: String)
    requires
        base64_allowed(bytes@.len()),
    ensures
        text@ == base64_standard(bytes@),
{
    base64::engine::general_purpose::STANDARD.encode(bytes)
}

/// `String::push` of std appends the character to the end of the string.
pub assume_specification[ String::push ](s: &mut String, ch: char)
    ensures
        final(s)@ == old(s)@.push(ch),
;

/// The lowercase equivalent of a text, as std's `str::to_lowercase` gives it.
pub uninterp spec fn lowercased(text: Seq<char>) -> Seq<char>;

/// Calls `str::to_lowercase` of std, which returns the lowercase equivalent
/// of the text by the rules of Unicode. The contract names the result.
#[verifier::external_body]
pub(crate) fn to_lowercase(text: &str) -> (lower: String)
    ensures
        lower@ == lowercased(text@),
{
    text.to_lowercase()
}

} // verus!
