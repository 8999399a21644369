//! Plain values that cross the boundary between the capture engine and the
//! shell around it.

use vstd::prelude::*;

verus! {

/// A rectangle in logical screen coordinates.
#[derive(Clone, Copy, Debug, PartialEq, Eq, Structural)]
pub struct Region {
    pub x: i32,
    pub y: i32,
    pub width: u32,
    pub height: u32,
}

/// Progress of a scroll capture, as shown to the user.
#[derive(Clone, Debug)]
pub struct ScrollCaptureProgress {
    pub frame_count: usize,
    pub total_height: u32,
    pub preview_base64: String,
}

/// Mathematical model of a progress report.
pub struct ProgressView {
    pub frame_count: nat,
    pub total_height: nat,
    pub preview: Seq<char>,
}

impl View for ScrollCaptureProgress {
    type V = ProgressView;

    open spec fn view(&self) -> ProgressView {
        ProgressView {
            frame_count: self.frame_count as nat,
            total_height: self.total_height as nat,
            preview: self.preview_base64@,
        }
    }
}

/// Whether a recording is running, and how many frames it has.
#[derive(Clone, Copy, Debug, PartialEq, Eq, Structural)]
pub struct RecordingState {
    pub is_recording: bool,
    pub frame_count: u32,
}

/// Outcome of saving a file.
#[derive(Clone, Debug)]
pub struct SaveResult {
    pub success: bool,
    pub path: Option<String>,
    pub error: Option<String>,
}

/// Quality of an export where none is given: 80 of 100.
pub fn default_quality() -> (quality: u32)
    ensures
        quality == 80,
{
    80
}

/// The frames of a recording.
#[derive(Clone, Copy, Debug, PartialEq, Eq, Structural)]
pub struct RecordingInfo {
    pub frame_count: usize,
    pub width: u32,
    pub height: u32,
    pub fps: u32,
    pub duration_ms: u64,
    pub has_frames: bool,
}

/// Estimated size of an export.
#[derive(Clone, Debug)]
pub struct SizeEstimate {
    pub frame_count: usize,
    pub output_width: u32,
    pub output_height: u32,
    pub estimated_bytes: u64,
    pub formatted: String,
}

/// Progress of an export.
#[derive(Clone, Debug)]
pub struct ExportProgress {
    pub current: usize,
    pub total: usize,
    pub stage: String,
}

/// How often an animation is played.
#[derive(Clone, Copy, Debug, PartialEq, Eq, Structural)]
pub enum GifLoopMode {
    Infinite,
    Once,
    PingPong,
}

impl Default for GifLoopMode {
    fn default() -> (mode: Self)
        ensures
            mode == GifLoopMode::Infinite,
    {
        GifLoopMode::Infinite
    }
}

/// Capture mode: still image, animation, video, or scrolling screenshot.
#[derive(Clone, Copy, Debug, PartialEq, Eq, Structural)]
pub enum CaptureMode {
    Image,
    Gif,
    Video,
    Scroll,
}

impl Default for CaptureMode {
    fn default() -> (mode: Self)
        ensures
            mode == CaptureMode::Image,
    {
        CaptureMode::Image
    }
}

/// The bounds of a window and the height of its title bar.
#[derive(Clone, Copy, Debug, PartialEq, Eq, Structural)]
pub struct WindowInfo {
    pub x: i32,
    pub y: i32,
    pub width: u32,
    pub height: u32,
    pub titlebar_height: u32,
}

/// Layout of a picture that is shared with a caption.
#[derive(Clone, Copy, Debug, PartialEq, Eq, Structural)]
pub enum ShareTemplate {
    /// The caption below the picture.
    CaptionBelow,
    /// The picture and the caption on a card with a border.
    Card,
    /// One line of small text below the picture.
    Minimal,
    /// The caption above the picture, as in a post.
    Social,
}

} // verus!
