//! Capture: what is done with a picture of the whole screen once the frame
//! source has delivered it.

use crate::codec::{base64_allowed, base64_standard, encode_base64, encode_png, png_encoding};
use crate::error::CaptureError;
use crate::preview::can_encode_base64;
use crate::raster::{Raster, RasterView};
use vstd::prelude::*;
use vstd::string::StringExecFns;

verus! {

/// The part of a screen of the given size that an area covers whose corner
/// and size are given in pixels of the screen: the corner is moved onto the
/// screen, and the size is reduced to what lies on it. The parts are the
/// corner's column and row, the width and the height.
pub open spec fn area_on_screen(
    screen_width: int,
    screen_height: int,
    x: int,
    y: int,
    width: int,
    height: int,
) -> (int, int, int, int) {
    let max_x = if screen_width > 0 {
        screen_width - 1
    } else {
        0
    };
    let max_y = if screen_height > 0 {
        screen_height - 1
    } else {
        0
    };
    let crop_x = if x < max_x {
        x
    } else {
        max_x
    };
    let crop_y = if y < max_y {
        y
    } else {
        max_y
    };
    let room_x = if screen_width > crop_x {
        screen_width - crop_x
    } else {
        0
    };
    let room_y = if screen_height > crop_y {
        screen_height - crop_y
    } else {
        0
    };
    let crop_w = if width < room_x {
        width
    } else {
        room_x
    };
    let crop_h = if height < room_y {
        height
    } else {
        room_y
    };
    (crop_x, crop_y, crop_w, crop_h)
}

/// What cutting an area out of a picture of the screen yields: the part of
/// the picture that the area covers, or an error where that part has no
/// column or no row.
pub open spec fn area_result(full: RasterView, x: u32, y: u32, width: u32, height: u32) -> Result<
    RasterView,
    CaptureError,
> {
    let area = area_on_screen(
        full.width as int,
        full.height as int,
        x as int,
        y as int,
        width as int,
        height as int,
    );
    if area.2 == 0 || area.3 == 0 {
        Err(CaptureError::InvalidCaptureArea)
    } else {
        Ok(full.window(area.0, area.1, area.2 as nat, area.3 as nat))
    }
}

/// Cuts an area out of a picture of the whole screen. The corner and the
/// size of the area are given in pixels of the picture.
pub fn capture_area(full: &Raster, x: u32, y: u32, width: u32, height: u32) -> (r: Result<
    Raster,
    CaptureError,
>)
    ensures
        match r {
            Ok(img) => area_result(full@, x, y, width, height) == Ok::<RasterView, CaptureError>(
                img@,
            ) && img@.wf(),
            Err(e) => area_result(full@, x, y, width, height) == Err::<RasterView, CaptureError>(e),
        },
{
    let (full_w, full_h) = full.dimensions();
    let max_x: u32 = if full_w > 0 {
        full_w - 1
    } else {
        0
    };
    let max_y: u32 = if full_h > 0 {
        full_h - 1
    } else {
        0
    };
    let crop_x: u32 = if x < max_x {
        x
    } else {
        max_x
    };
    let crop_y: u32 = if y < max_y {
        y
    } else {
        max_y
    };
    let room_x: u32 = if full_w > crop_x {
        full_w - crop_x
    } else {
        0
    };
    let room_y: u32 = if full_h > crop_y {
        full_h - crop_y
    } else {
        0
    };
    let crop_w: u32 = if width < room_x {
        width
    } else {
        room_x
    };
    let crop_h: u32 = if height < room_y {
        height
    } else {
        room_y
    };
    if crop_w == 0 || crop_h == 0 {
        return Err(CaptureError::InvalidCaptureArea);
    }
    Ok(full.crop_imm(crop_x, crop_y, crop_w, crop_h))
}

/// Where an area is cut out, the result has at least one pixel and lies
/// inside the picture.
pub proof fn lemma_area_inside(full: RasterView, x: u32, y: u32, width: u32, height: u32)
    requires
        area_result(full, x, y, width, height) is Ok,
    ensures
        ({
            let area = area_on_screen(
                full.width as int,
                full.height as int,
                x as int,
                y as int,
                width as int,
                height as int,
            );
            &&& 0 <= area.0
            &&& 0 <= area.1
            &&& 1 <= area.2 <= width
            &&& 1 <= area.3 <= height
            &&& area.0 + area.2 <= full.width
            &&& area.1 + area.3 <= full.height
        }),
{
}

/// The text of a `data:` URL for base64-encoded PNG data.
pub open spec fn png_url_text(encoded: Seq<char>) -> Seq<char> {
    "data:image/png;base64,"@ + encoded
}

/// What encoding a screenshot yields: the `data:` URL of its PNG file, or an
/// error where the PNG encoder refuses the picture or the file is too long
/// for the base64 encoder.
pub open spec fn screenshot_result(img: RasterView) -> Result<Seq<char>, CaptureError> {
    match png_encoding(img.pixels, img.width as u32, img.height as u32) {
        Some(png) => if base64_allowed(png.len()) {
            Ok(png_url_text(base64_standard(png)))
        } else {
            Err(CaptureError::EncodingFailed)
        },
        None => Err(CaptureError::EncodingFailed),
    }
}

/// Puts base64-encoded PNG data into a `data:` URL.
pub fn png_data_url(encoded: &str) -> (url: String)
    ensures
        url@ == png_url_text(encoded@),
{
    let mut url = String::from_str("data:image/png;base64,");
    url.append(encoded);
    url
}

/// Encodes a screenshot as a `data:` URL that holds a PNG file.
pub fn capture_screenshot(img: &Raster) -> (r: Result<String, CaptureError>)
    ensures
        match r {
            Ok(url) => screenshot_result(img@) == Ok::<Seq<char>, CaptureError>(url@),
            Err(e) => screenshot_result(img@) == Err::<Seq<char>, CaptureError>(e),
        },
{
    let (w, h) = img.dimensions();
    proof {
        assert((w as int) * (h as int) * 4 == w * h * 4);
    }
    match encode_png(img.as_raw(), w, h) {
        Err(_) => Err(CaptureError::EncodingFailed),
        Ok(png) => {
            if !can_encode_base64(png.len()) {
                return Err(CaptureError::EncodingFailed);
            }
            let encoded = encode_base64(&png);
            Ok(png_data_url(encoded.as_str()))
        },
    }
}

} // verus!
