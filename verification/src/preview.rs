//! Preview: a lightweight picture of the composed image for the presentation
//! layer, as a JPEG in a `data:` URL. It is never used for the export.

use crate::codec::{
    base64_allowed, base64_standard, encode_base64, encode_jpeg, jpeg_encoding,
    jpeg_length_bound, resize_allowed, resize_triangle, triangle_resized, JPEG_SIDE_LIMIT,
    RESIZE_SIDE_LIMIT,
};
use crate::error::CaptureError;
use crate::raster::{Raster, RasterView};
use vstd::prelude::*;
use vstd::string::StringExecFns;

verus! {

/// Greatest height of the preview that a session shows.
pub const PREVIEW_MAX_HEIGHT: u32 = 600;

/// Quality of the preview's JPEG encoding.
pub const PREVIEW_QUALITY: u8 = 90;

/// Size of the preview of an image: the image's own size up to the greatest
/// height; beyond it that height, and the width reduced in proportion,
/// rounded down, but not below one pixel.
pub open spec fn preview_size(width: u32, height: u32, max_height: u32) -> (u32, u32) {
    if height > max_height {
        let scaled = (width as int * max_height as int) / (height as int);
        if scaled < 1 {
            (1u32, max_height)
        } else {
            (scaled as u32, max_height)
        }
    } else {
        (width, height)
    }
}

/// The RGB bytes of RGBA bytes: every fourth byte, the alpha, is left out.
pub open spec fn rgb_of(pixels: Seq<u8>) -> Seq<u8> {
    Seq::new((pixels.len() / 4 * 3) as nat, |i: int| pixels[(i / 3) * 4 + i % 3])
}

/// The text of a `data:` URL for base64-encoded JPEG data.
pub open spec fn data_url_text(encoded: Seq<char>) -> Seq<char> {
    "data:image/jpeg;base64,"@ + encoded
}

/// The pixels of the preview: those of the image up to the greatest height,
/// beyond it those of the resampled image.
pub open spec fn preview_pixels(img: RasterView, max_height: u32) -> Seq<u8> {
    let size = preview_size(img.width as u32, img.height as u32, max_height);
    if img.height > max_height {
        triangle_resized(img.pixels, img.width as u32, img.height as u32, size.0, size.1)
    } else {
        img.pixels
    }
}

/// The JPEG file of the preview.
pub open spec fn preview_jpeg(img: RasterView, max_height: u32) -> Seq<u8> {
    let size = preview_size(img.width as u32, img.height as u32, max_height);
    jpeg_encoding(rgb_of(preview_pixels(img, max_height)), size.0, size.1, PREVIEW_QUALITY)
}

/// A preview can be made: its sides are those of a JPEG image, an image that
/// has to be reduced can be handed to the resampler, and a JPEG file of the
/// preview's size is short enough for the base64 encoder. Whether a preview
/// can be made hangs on the sizes alone.
pub open spec fn previewable(img: RasterView, max_height: u32) -> bool {
    let size = preview_size(img.width as u32, img.height as u32, max_height);
    &&& 1 <= size.0 <= JPEG_SIDE_LIMIT
    &&& 1 <= size.1 <= JPEG_SIDE_LIMIT
    &&& img.height > max_height ==> resize_allowed(
        img.width as u32,
        img.height as u32,
        size.0,
        size.1,
    )
    &&& base64_allowed(jpeg_length_bound(size.0, size.1) as nat)
}

/// Previews of a session: an image that is at least one pixel and at most
/// 65535 pixels wide, and at least one and at most 4194304 pixels high, has
/// a preview of the height that a session shows.
pub proof fn lemma_session_preview_possible(img: RasterView)
    requires
        1 <= img.width <= JPEG_SIDE_LIMIT,
        1 <= img.height <= RESIZE_SIDE_LIMIT,
    ensures
        previewable(img, PREVIEW_MAX_HEIGHT),
        preview_result(img, PREVIEW_MAX_HEIGHT) is Ok,
{
    let w = img.width as u32;
    let h = img.height as u32;
    let size = preview_size(w, h, PREVIEW_MAX_HEIGHT);
    if h > PREVIEW_MAX_HEIGHT {
        let scaled = (w as int * PREVIEW_MAX_HEIGHT as int) / (h as int);
        assert(w as int * PREVIEW_MAX_HEIGHT as int <= w as int * h as int) by (nonlinear_arith)
            requires
                0 <= w,
                PREVIEW_MAX_HEIGHT < h,
        ;
        vstd::arithmetic::div_mod::lemma_div_is_ordered(
            w as int * PREVIEW_MAX_HEIGHT as int,
            w as int * h as int,
            h as int,
        );
        vstd::arithmetic::div_mod::lemma_div_multiples_vanish(w as int, h as int);
        assert(scaled <= w);
        assert(w * size.1 * 16 <= 65535 * 600 * 16) by (nonlinear_arith)
            requires
                0 <= w <= 65535,
                size.1 == 600,
        ;
    }
    let across = (size.0 + 7) / 8;
    let down = (size.1 + 7) / 8;
    assert(across * down <= 8192 * 75) by (nonlinear_arith)
        requires
            0 <= across <= 8192,
            0 <= down <= 75,
    ;
}

/// What making a preview yields: the `data:` URL of the preview's JPEG file
/// where a preview can be made, else an error.
pub open spec fn preview_result(img: RasterView, max_height: u32) -> Result<
    Seq<char>,
    CaptureError,
> {
    if previewable(img, max_height) {
        Ok(data_url_text(base64_standard(preview_jpeg(img, max_height))))
    } else {
        Err(CaptureError::PreviewFailed)
    }
}

/// Computes the size of the preview of an image of the given size.
pub fn preview_dimensions(width: u32, height: u32, max_height: u32) -> (size: (u32, u32))
    ensures
        size == preview_size(width, height, max_height),
{
    if height > max_height {
        assert((width as int) * (max_height as int) <= 0xffff_ffff * 0xffff_ffff)
            by (nonlinear_arith)
            requires
                0 <= width <= 0xffff_ffff,
                0 <= max_height <= 0xffff_ffff,
        ;
        assert(0 <= (width as int) * (max_height as int)) by (nonlinear_arith);
        let product: u64 = width as u64 * max_height as u64;
        let scaled: u64 = product / height as u64;
        assert(scaled <= width) by {
            assert((width as int) * (max_height as int) <= (width as int) * (height as int))
                by (nonlinear_arith)
                requires
                    0 <= width,
                    0 <= max_height < height,
            ;
            vstd::arithmetic::div_mod::lemma_div_is_ordered(
                product as int,
                (width as int) * (height as int),
                height as int,
            );
            vstd::arithmetic::div_mod::lemma_div_multiples_vanish(width as int, height as int);
        }
        if scaled < 1 {
            (1, max_height)
        } else {
            (scaled as u32, max_height)
        }
    } else {
        (width, height)
    }
}

/// Leaves the alpha out of RGBA bytes.
pub fn drop_alpha(pixels: &Vec<u8>) -> (rgb: Vec<u8>)
    ensures
        rgb@ == rgb_of(pixels@),
{
    let count: usize = pixels.len() / 4;
    let mut rgb: Vec<u8> = Vec::new();
    let mut i: usize = 0;
    while i < count
        invariant
            i <= count,
            count == pixels@.len() / 4,
            pixels@.len() <= usize::MAX,
            rgb@.len() == 3 * i,
            forall|k: int| 0 <= k < 3 * i ==> #[trigger] rgb@[k] == rgb_of(pixels@)[k],
        decreases count - i,
    {
        rgb.push(pixels[4 * i]);
        rgb.push(pixels[4 * i + 1]);
        rgb.push(pixels[4 * i + 2]);
        i += 1;
    }
    assert(rgb@ =~= rgb_of(pixels@));
    rgb
}

/// Puts base64-encoded JPEG data into a `data:` URL.
pub fn preview_data_url(encoded: &str) -> (url: String)
    ensures
        url@ == data_url_text(encoded@),
{
    let mut url = String::from_str("data:image/jpeg;base64,");
    url.append(encoded);
    url
}

/// Makes the preview of an image as a `data:` URL that holds a JPEG file:
/// the image itself up to `max_height`, a smoothly reduced copy beyond.
pub fn generate_preview_base64(img: &Raster, max_height: u32) -> (r: Result<String, CaptureError>)
    ensures
        match r {
            Ok(url) => preview_result(img@, max_height) == Ok::<Seq<char>, CaptureError>(url@),
            Err(e) => preview_result(img@, max_height) == Err::<Seq<char>, CaptureError>(e),
        },
{
    let (w, h) = img.dimensions();
    let (pw, ph) = preview_dimensions(w, h, max_height);
    if pw < 1 || pw > JPEG_SIDE_LIMIT || ph < 1 || ph > JPEG_SIDE_LIMIT {
        return Err(CaptureError::PreviewFailed);
    }
    if !can_encode_jpeg_of(pw, ph) {
        return Err(CaptureError::PreviewFailed);
    }
    let rgb = if h > max_height {
        if !can_resize(w, h, pw, ph) {
            return Err(CaptureError::PreviewFailed);
        }
        proof {
            assert((w as int) * (h as int) * 4 == w * h * 4);
        }
        let reduced = resize_triangle(img.as_raw(), w, h, pw, ph);
        drop_alpha(&reduced)
    } else {
        drop_alpha(img.as_raw())
    };
    proof {
        assert(rgb@.len() == pw * ph * 3) by {
            assert(pw * ph * 4 / 4 * 3 == pw * ph * 3) by (nonlinear_arith);
            assert(pw * ph * 4 == (pw * ph) * 4) by (nonlinear_arith);
        }
    }
    match encode_jpeg(&rgb, pw, ph, PREVIEW_QUALITY) {
        Err(_) => Err(CaptureError::PreviewFailed),
        Ok(jpeg) => {
            let encoded = encode_base64(&jpeg);
            Ok(preview_data_url(encoded.as_str()))
        },
    }
}

/// Tells whether the resampler can be called for the given sizes.
fn can_resize(width: u32, height: u32, new_width: u32, new_height: u32) -> (ok: bool)
    ensures
        ok == resize_allowed(width, height, new_width, new_height),
{
    if width < 1 || width > RESIZE_SIDE_LIMIT || height < 1 || height > RESIZE_SIDE_LIMIT
        || new_width < 1 || new_width > width || new_height < 1 || new_height > height || new_width
        > JPEG_SIDE_LIMIT || new_height > JPEG_SIDE_LIMIT {
        return false;
    }
    assert(0 <= (width as int) * (new_height as int) <= 0x40_0000 * 0xffff) by (nonlinear_arith)
        requires
            0 <= width <= 0x40_0000,
            0 <= new_height <= 0xffff,
    ;
    let need: u64 = width as u64 * new_height as u64 * 16;
    need <= isize::MAX as u64
}

/// Tells whether a JPEG file of an image of the given size is short enough
/// for the base64 encoder.
fn can_encode_jpeg_of(width: u32, height: u32) -> (ok: bool)
    requires
        width <= JPEG_SIDE_LIMIT,
        height <= JPEG_SIDE_LIMIT,
    ensures
        ok == base64_allowed(jpeg_length_bound(width, height) as nat),
{
    let across: u64 = (width as u64 + 7) / 8;
    let down: u64 = (height as u64 + 7) / 8;
    assert(0 <= across * down <= 8192 * 8192) by (nonlinear_arith)
        requires
            0 <= across <= 8192,
            0 <= down <= 8192,
    ;
    let bound: u64 = 1024 + 2048 * (across * down);
    (bound / 3) as u128 * 4 + 4 <= isize::MAX as u128
}

/// Tells whether the base64 encoder can be called on so many bytes.
pub(crate) fn can_encode_base64(len: usize) -> (ok: bool)
    ensures
        ok == base64_allowed(len as nat),
{
    (len / 3) as u128 * 4 + 4 <= isize::MAX as u128
}

} // verus!
