//! Crop finisher: trims the edges of the composed image before it is handed
//! on for saving or copying.

use crate::error::CaptureError;
use crate::raster::{Raster, RasterView};
use vstd::prelude::*;

verus! {

/// How many hundredths make a whole image side: 100 percent.
pub const FULL_SIDE: u64 = 10_000;

/// How much of each edge to discard, in hundredths of a percent of the
/// image's height (top, bottom) or width (left, right): 1000 stands for 10 %.
#[derive(Clone, Copy, Debug, PartialEq, Eq, Structural)]
pub struct CropEdges {
    pub top: u32,
    pub bottom: u32,
    pub left: u32,
    pub right: u32,
}

/// Pixels that a share of `hundredths` hundredths of a percent takes from a
/// side of `side` pixels, rounded to the nearest pixel, halves upwards.
pub open spec fn edge_pixels(hundredths: int, side: int) -> int {
    (hundredths * side + 5_000) / 10_000
}

impl CropEdges {
    /// No edge is trimmed.
    pub open spec fn is_zero(self) -> bool {
        self.top == 0 && self.bottom == 0 && self.left == 0 && self.right == 0
    }

    /// Rows trimmed from the top of an image of the given height.
    pub open spec fn top_px(self, height: nat) -> int {
        edge_pixels(self.top as int, height as int)
    }

    /// Rows trimmed from the bottom of an image of the given height.
    pub open spec fn bottom_px(self, height: nat) -> int {
        edge_pixels(self.bottom as int, height as int)
    }

    /// Columns trimmed from the left of an image of the given width.
    pub open spec fn left_px(self, width: nat) -> int {
        edge_pixels(self.left as int, width as int)
    }

    /// Columns trimmed from the right of an image of the given width.
    pub open spec fn right_px(self, width: nat) -> int {
        edge_pixels(self.right as int, width as int)
    }

    /// The trimmed edges together leave no column or no row of the image.
    pub open spec fn exceeds(self, img: RasterView) -> bool {
        self.left_px(img.width) + self.right_px(img.width) >= img.width || self.top_px(img.height)
            + self.bottom_px(img.height) >= img.height
    }

    /// The edges given in whole percent.
    pub fn from_percent(top: u8, bottom: u8, left: u8, right: u8) -> (edges: CropEdges)
        ensures
            edges.top == top * 100,
            edges.bottom == bottom * 100,
            edges.left == left * 100,
            edges.right == right * 100,
    {
        CropEdges {
            top: top as u32 * 100,
            bottom: bottom as u32 * 100,
            left: left as u32 * 100,
            right: right as u32 * 100,
        }
    }
}

/// The image that is left once the edges are trimmed.
pub open spec fn trimmed(img: RasterView, edges: CropEdges) -> RasterView {
    img.window(
        edges.left_px(img.width),
        edges.top_px(img.height),
        (img.width - edges.left_px(img.width) - edges.right_px(img.width)) as nat,
        (img.height - edges.top_px(img.height) - edges.bottom_px(img.height)) as nat,
    )
}

/// What applying a crop yields: the image itself without a crop or with one
/// that trims nothing, an error where the trimmed edges leave nothing, else
/// the trimmed image.
pub open spec fn crop_result(img: RasterView, crop: Option<CropEdges>) -> Result<
    RasterView,
    CaptureError,
> {
    match crop {
        None => Ok(img),
        Some(edges) => if edges.is_zero() {
            Ok(img)
        } else if edges.exceeds(img) {
            Err(CaptureError::CropExceedsBounds)
        } else {
            Ok(trimmed(img, edges))
        },
    }
}

/// Pixels that a share takes from a side, rounded to the nearest pixel.
fn edge_px(hundredths: u32, side: u32) -> (px: u64)
    ensures
        px == edge_pixels(hundredths as int, side as int),
        px <= 0x8_0000_0000_0000,
{
    assert((hundredths as int) * (side as int) <= 0xffff_ffff * 0xffff_ffff) by (nonlinear_arith)
        requires
            0 <= hundredths <= 0xffff_ffff,
            0 <= side <= 0xffff_ffff,
    ;
    assert(0 <= (hundredths as int) * (side as int)) by (nonlinear_arith);
    (hundredths as u64 * side as u64 + FULL_SIDE / 2) / FULL_SIDE
}

/// Applies a crop to an image. Each edge's share is turned into pixels of the
/// image's own size; a crop that leaves no column or no row is refused.
pub fn apply_crop(img: &Raster, crop: Option<CropEdges>) -> (r: Result<Raster, CaptureError>)
    ensures
        match r {
            Ok(out) => crop_result(img@, crop) == Ok::<RasterView, CaptureError>(out@) && out@.wf(),
            Err(e) => crop_result(img@, crop) == Err::<RasterView, CaptureError>(e),
        },
{
    let edges = match crop {
        None => {
            return Ok(img.clone());
        },
        Some(edges) => edges,
    };
    if edges.top == 0 && edges.bottom == 0 && edges.left == 0 && edges.right == 0 {
        return Ok(img.clone());
    }
    let (w, h) = img.dimensions();
    let top_px = edge_px(edges.top, h);
    let bottom_px = edge_px(edges.bottom, h);
    let left_px = edge_px(edges.left, w);
    let right_px = edge_px(edges.right, w);
    if left_px + right_px >= w as u64 || top_px + bottom_px >= h as u64 {
        return Err(CaptureError::CropExceedsBounds);
    }
    let new_w: u32 = w - left_px as u32 - right_px as u32;
    let new_h: u32 = h - top_px as u32 - bottom_px as u32;
    Ok(img.crop_imm(left_px as u32, top_px as u32, new_w, new_h))
}

/// Crop bounds: a crop that trims something fails exactly where the trimmed
/// columns reach the width or the trimmed rows reach the height, and then
/// with `CropExceedsBounds`; what it yields otherwise has at least one column
/// and one row, and is smaller than the image by exactly the trimmed edges.
pub proof fn lemma_crop_bounds(img: RasterView, edges: CropEdges)
    requires
        !edges.is_zero(),
    ensures
        edges.exceeds(img) <==> crop_result(img, Some(edges)) == Err::<RasterView, CaptureError>(
            CaptureError::CropExceedsBounds,
        ),
        !edges.exceeds(img) ==> crop_result(img, Some(edges)) is Ok,
        crop_result(img, Some(edges)) matches Ok(out) ==> out.width >= 1 && out.height >= 1
            && out.width == img.width - edges.left_px(img.width) - edges.right_px(img.width)
            && out.height == img.height - edges.top_px(img.height) - edges.bottom_px(img.height),
{
}

/// Without a crop, or with one whose four shares are zero, the image comes
/// back as it is.
pub proof fn lemma_crop_nothing(img: RasterView, crop: Option<CropEdges>)
    requires
        crop matches Some(edges) ==> edges.is_zero(),
    ensures
        crop_result(img, crop) == Ok::<RasterView, CaptureError>(img),
{
}

/// Every pixel of a trimmed image is the pixel of the image that lies the
/// trimmed columns further right and the trimmed rows further down.
pub proof fn lemma_trimmed_pixels(img: RasterView, edges: CropEdges, i: int, j: int, c: int)
    requires
        img.wf(),
        !edges.exceeds(img),
        0 <= i < trimmed(img, edges).width,
        0 <= j < trimmed(img, edges).height,
        0 <= c < 4,
    ensures
        trimmed(img, edges).wf(),
        trimmed(img, edges).channel(i, j, c) == img.channel(
            i + edges.left_px(img.width),
            j + edges.top_px(img.height),
            c,
        ),
{
    let left = edges.left_px(img.width);
    let top = edges.top_px(img.height);
    assert(0 <= left) by (nonlinear_arith)
        requires
            left == (edges.left as int * img.width as int + 5_000) / 10_000,
            0 <= edges.left,
            0 <= img.width,
    ;
    assert(0 <= top) by (nonlinear_arith)
        requires
            top == (edges.top as int * img.height as int + 5_000) / 10_000,
            0 <= edges.top,
            0 <= img.height,
    ;
    assert(0 <= edges.right_px(img.width)) by (nonlinear_arith)
        requires
            edges.right_px(img.width) == (edges.right as int * img.width as int + 5_000) / 10_000,
            0 <= edges.right,
            0 <= img.width,
    ;
    assert(0 <= edges.bottom_px(img.height)) by (nonlinear_arith)
        requires
            edges.bottom_px(img.height) == (edges.bottom as int * img.height as int + 5_000)
                / 10_000,
            0 <= edges.bottom,
            0 <= img.height,
    ;
    crate::raster::lemma_window_channel(
        img,
        left,
        top,
        trimmed(img, edges).width,
        trimmed(img, edges).height,
        i,
        j,
        c,
    );
}

} // verus!
