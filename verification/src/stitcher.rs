//! Stitcher: extends the composed image by the part of a new frame that it
//! does not show yet.

use crate::error::CaptureError;
use crate::raster::{Raster, RasterView};
use vstd::prelude::*;

verus! {

/// Absolute value of an offset.
pub open spec fn magnitude(delta: int) -> nat {
    if delta >= 0 {
        delta as nat
    } else {
        (-delta) as nat
    }
}

/// Number of rows of the new frame that a stitch adds: the size of the
/// offset, but never more than the new frame has.
pub open spec fn added_rows(new_height: nat, delta: int) -> nat {
    if magnitude(delta) >= new_height {
        new_height
    } else {
        magnitude(delta)
    }
}

/// The image that stitching yields for frames of the same width: for a
/// positive offset the base with the last added rows of the new frame below
/// it, else the first added rows of the new frame with the base below them.
pub open spec fn stitched(base: RasterView, new_frame: RasterView, delta: int) -> RasterView {
    let add = added_rows(new_frame.height, delta) as int;
    if delta > 0 {
        base.stacked(0, base.height as int, new_frame, new_frame.height - add, new_frame.height as int)
    } else {
        new_frame.stacked(0, add, base, 0, base.height as int)
    }
}

/// What stitching yields: an error where the widths differ, else the
/// stitched image.
pub open spec fn stitch_result(base: RasterView, new_frame: RasterView, delta: int) -> Result<
    RasterView,
    CaptureError,
> {
    if base.width != new_frame.width {
        Err(CaptureError::FrameWidthMismatch)
    } else {
        Ok(stitched(base, new_frame, delta))
    }
}

/// The stitched image has a height that 32 bits hold and bytes that memory
/// can address.
pub open spec fn stitch_fits(base: RasterView, new_frame: RasterView, delta: int) -> bool {
    let height = base.height + added_rows(new_frame.height, delta);
    height <= u32::MAX && height * base.width * 4 <= usize::MAX
}

/// Stitches a new frame onto the composed image. A positive offset appends
/// new content at the bottom, any other prepends it at the top. Only the rows
/// of the new frame that do not overlap the base are used; where the offset
/// is at least the new frame's height, that is the whole frame. Frames of
/// another width than the base are refused.
pub fn stitch_scroll_image(base: &Raster, new_frame: &Raster, scroll_delta: i32) -> (r: Result<
    Raster,
    CaptureError,
>)
    requires
        base@.width == new_frame@.width ==> stitch_fits(base@, new_frame@, scroll_delta as int),
    ensures
        match r {
            Ok(img) => stitch_result(base@, new_frame@, scroll_delta as int) == Ok::<
                RasterView,
                CaptureError,
            >(img@) && img@.wf(),
            Err(e) => stitch_result(base@, new_frame@, scroll_delta as int) == Err::<
                RasterView,
                CaptureError,
            >(e),
        },
        r is Err <==> base@.width != new_frame@.width,
        r matches Ok(img) ==> img@.width == base@.width && img@.height == base@.height
            + added_rows(new_frame@.height, scroll_delta as int) && img@.height >= base@.height,
        r matches Ok(img) ==> (magnitude(scroll_delta as int) >= new_frame@.height ==> img@.height
            == base@.height + new_frame@.height),
{
    let (base_w, base_h) = base.dimensions();
    let (new_w, new_h) = new_frame.dimensions();
    if base_w != new_w {
        return Err(CaptureError::FrameWidthMismatch);
    }
    let abs_delta: u32 = if scroll_delta >= 0 {
        scroll_delta as u32
    } else {
        (-(scroll_delta as i64)) as u32
    };
    let pixels_to_add: u32 = if abs_delta >= new_h {
        new_h
    } else {
        abs_delta
    };
    if scroll_delta > 0 {
        Ok(Raster::stack_rows(base, 0, base_h, new_frame, new_h - pixels_to_add, new_h))
    } else {
        Ok(Raster::stack_rows(new_frame, 0, pixels_to_add, base, 0, base_h))
    }
}

/// Where stitching succeeds, the result is as wide as the base and higher by
/// exactly the added rows: it never shrinks.
pub proof fn lemma_stitch_height(base: RasterView, new_frame: RasterView, delta: int)
    requires
        base.width == new_frame.width,
    ensures
        stitch_result(base, new_frame, delta) is Ok,
        stitched(base, new_frame, delta).width == base.width,
        stitched(base, new_frame, delta).height == base.height + added_rows(
            new_frame.height,
            delta,
        ),
        stitched(base, new_frame, delta).height >= base.height,
{
}

/// Stitching fails exactly where the widths differ, and then reports the
/// mismatch.
pub proof fn lemma_stitch_width(base: RasterView, new_frame: RasterView, delta: int)
    ensures
        stitch_result(base, new_frame, delta) is Err <==> base.width != new_frame.width,
        base.width != new_frame.width ==> stitch_result(base, new_frame, delta) == Err::<
            RasterView,
            CaptureError,
        >(CaptureError::FrameWidthMismatch),
{
}

/// Without overlap the frames are concatenated whole: where the offset is at
/// least as large as the new frame is high, the result is as high as both
/// together and holds all rows of both.
pub proof fn lemma_stitch_no_overlap(base: RasterView, new_frame: RasterView, delta: int)
    requires
        base.wf(),
        new_frame.wf(),
        base.width == new_frame.width,
        magnitude(delta) >= new_frame.height,
    ensures
        stitched(base, new_frame, delta).height == base.height + new_frame.height,
        delta > 0 ==> stitched(base, new_frame, delta).pixels == base.pixels + new_frame.pixels,
        delta <= 0 ==> stitched(base, new_frame, delta).pixels == new_frame.pixels + base.pixels,
{
    crate::raster::lemma_rows_len(base, 0, base.height as int);
    crate::raster::lemma_rows_len(new_frame, 0, new_frame.height as int);
}

/// Stitching well-formed frames of the same width yields a well-formed image.
pub proof fn lemma_stitched_wf(base: RasterView, new_frame: RasterView, delta: int)
    requires
        base.wf(),
        new_frame.wf(),
        base.width == new_frame.width,
    ensures
        stitched(base, new_frame, delta).wf(),
{
    let add = added_rows(new_frame.height, delta) as int;
    let w = base.width as int;
    crate::raster::lemma_rows_len(base, 0, base.height as int);
    if delta > 0 {
        crate::raster::lemma_rows_len(new_frame, new_frame.height - add, new_frame.height as int);
    } else {
        crate::raster::lemma_rows_len(new_frame, 0, add);
    }
    assert(w * (base.height + add) * 4 == base.height * (w * 4) + add * (w * 4))
        by (nonlinear_arith);
    assert(w * base.height * 4 == base.height * (w * 4)) by (nonlinear_arith);
}

/// Every pixel of the stitched image comes from the frame that supplied its
/// row. For a positive offset the rows of the base come first and the last
/// added rows of the new frame follow; else the first added rows of the new
/// frame come first and the rows of the base follow.
pub proof fn lemma_stitched_pixels(
    base: RasterView,
    new_frame: RasterView,
    delta: int,
    i: int,
    j: int,
    c: int,
)
    requires
        base.wf(),
        new_frame.wf(),
        base.width == new_frame.width,
        0 <= i < base.width,
        0 <= j < base.height + added_rows(new_frame.height, delta),
        0 <= c < 4,
    ensures
        stitched(base, new_frame, delta).channel(i, j, c) == if delta > 0 {
            if j < base.height {
                base.channel(i, j, c)
            } else {
                new_frame.channel(
                    i,
                    new_frame.height - added_rows(new_frame.height, delta) + (j - base.height),
                    c,
                )
            }
        } else {
            if j < added_rows(new_frame.height, delta) {
                new_frame.channel(i, j, c)
            } else {
                base.channel(i, j - added_rows(new_frame.height, delta), c)
            }
        },
{
    let add = added_rows(new_frame.height, delta) as int;
    if delta > 0 {
        crate::raster::lemma_stacked_channel(
            base,
            0,
            base.height as int,
            new_frame,
            new_frame.height - add,
            new_frame.height as int,
            i,
            j,
            c,
        );
    } else {
        crate::raster::lemma_stacked_channel(
            new_frame,
            0,
            add,
            base,
            0,
            base.height as int,
            i,
            j,
            c,
        );
    }
}

} // verus!
