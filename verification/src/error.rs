//! Errors of captures.

use vstd::prelude::*;
use vstd::string::StringExecFns;

verus! {

/// What can go wrong in a capture. That a capture cycle of a scroll capture
/// found no scroll is not among them: it is a regular outcome.
#[derive(Clone, Copy, Debug, PartialEq, Eq, Structural)]
pub enum CaptureError {
    /// No screen region has been selected for the session.
    NoRegionSelected,
    /// The frame source found no surface to capture from.
    NoScreensFound,
    /// The frame source failed to deliver a frame.
    CaptureFailed,
    /// A capture cycle was asked for while no session was capturing.
    NotCapturing,
    /// A frame's width differs from the width of the composed image.
    FrameWidthMismatch,
    /// A capture cycle was asked for before any frame was captured.
    NoPreviousFrame,
    /// The composed image was asked for before any frame was captured.
    NoStitchedImage,
    /// A crop would leave nothing of the image along one axis.
    CropExceedsBounds,
    /// The preview of the composed image could not be encoded.
    PreviewFailed,
    /// The area to capture holds no pixel of the screen.
    InvalidCaptureArea,
    /// A screenshot could not be encoded.
    EncodingFailed,
    /// A canvas would be wider or higher than an image can be.
    CanvasTooLarge,
}

impl CaptureError {
    /// The text of the message for this error.
    pub open spec fn message_text(self) -> Seq<char> {
        match self {
            CaptureError::NoRegionSelected => "No region selected"@,
            CaptureError::NoScreensFound => "No screens found"@,
            CaptureError::CaptureFailed => "Capture failed"@,
            CaptureError::NotCapturing => "Not in scroll capture mode"@,
            CaptureError::FrameWidthMismatch => "Frame width mismatch"@,
            CaptureError::NoPreviousFrame => "No previous frame"@,
            CaptureError::NoStitchedImage => "No stitched image"@,
            CaptureError::CropExceedsBounds => "Crop exceeds image bounds"@,
            CaptureError::PreviewFailed => "Failed to encode preview"@,
            CaptureError::InvalidCaptureArea => "Invalid capture area"@,
            CaptureError::EncodingFailed => "Failed to encode image"@,
            CaptureError::CanvasTooLarge => "Canvas too large"@,
        }
    }

    /// A message for the user.
    pub fn message(&self) -> (text: String)
        ensures
            text@ == self.message_text(),
    {
        match self {
            CaptureError::NoRegionSelected => String::from_str("No region selected"),
            CaptureError::NoScreensFound => String::from_str("No screens found"),
            CaptureError::CaptureFailed => String::from_str("Capture failed"),
            CaptureError::NotCapturing => String::from_str("Not in scroll capture mode"),
            CaptureError::FrameWidthMismatch => String::from_str("Frame width mismatch"),
            CaptureError::NoPreviousFrame => String::from_str("No previous frame"),
            CaptureError::NoStitchedImage => String::from_str("No stitched image"),
            CaptureError::CropExceedsBounds => String::from_str("Crop exceeds image bounds"),
            CaptureError::PreviewFailed => String::from_str("Failed to encode preview"),
            CaptureError::InvalidCaptureArea => String::from_str("Invalid capture area"),
            CaptureError::EncodingFailed => String::from_str("Failed to encode image"),
            CaptureError::CanvasTooLarge => String::from_str("Canvas too large"),
        }
    }
}

} // verus!
