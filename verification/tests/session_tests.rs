use lovshot::detector::Sign;
use lovshot::error::CaptureError;
use lovshot::finisher::CropEdges;
use lovshot::raster::Raster;
use lovshot::session::{FrameEvent, ScrollSession};
use lovshot::types::Region;

fn ramp_pixel(y: u32) -> [u8; 4] {
    let target = 200 * y;
    let v = target / 1000;
    let r = target - 1000 * v;
    [v as u8, v as u8, (v + r / 114) as u8, 255]
}

fn ramp_frame(width: u32, height: u32, top: u32) -> Raster {
    let mut data = Vec::with_capacity((width * height * 4) as usize);
    for y in 0..height {
        let p = ramp_pixel(top + y);
        for _ in 0..width {
            data.extend_from_slice(&p);
        }
    }
    Raster::from_raw(width, height, data).unwrap()
}

fn region() -> Region {
    Region { x: 10, y: 20, width: 400, height: 800 }
}

fn started(width: u32, height: u32, top: u32) -> ScrollSession {
    let mut s = ScrollSession::new();
    s.select_region(region());
    s.start_scroll_capture(FrameEvent::Captured(ramp_frame(width, height, top))).unwrap();
    s
}

#[test]
fn new_session_is_idle_and_empty() {
    let s = ScrollSession::new();
    assert!(!s.is_capturing());
    assert_eq!(s.frame_count(), 0);
    assert!(s.offsets().is_empty());
    assert!(s.composed().is_none());
    assert!(s.region().is_none());
    assert_eq!(s.total_height(), None);
    assert!(s.has_room());
}

#[test]
fn start_without_region_fails() {
    let mut s = ScrollSession::new();
    let r = s.start_scroll_capture(FrameEvent::Captured(ramp_frame(8, 100, 0)));
    assert_eq!(r.err(), Some(CaptureError::NoRegionSelected));
    assert!(!s.is_capturing());
    assert_eq!(s.frame_count(), 0);
    assert!(s.offsets().is_empty());
    assert!(s.composed().is_none());
    assert!(s.region().is_none());
}

#[test]
fn start_without_screens_fails_and_resets() {
    let mut s = started(8, 100, 0);
    let r = s.start_scroll_capture(FrameEvent::NoScreens);
    assert_eq!(r.err(), Some(CaptureError::NoScreensFound));
    assert_eq!(s.frame_count(), 0);
    assert!(s.offsets().is_empty());
    assert!(s.composed().is_none());
    assert!(!s.is_capturing());
    assert_eq!(s.region(), Some(region()));
}

#[test]
fn start_with_failed_capture_fails_and_resets() {
    let mut s = started(8, 100, 0);
    let r = s.start_scroll_capture(FrameEvent::Failed);
    assert_eq!(r.err(), Some(CaptureError::CaptureFailed));
    assert_eq!(s.frame_count(), 0);
    assert!(s.offsets().is_empty());
    assert!(s.composed().is_none());
    assert!(!s.is_capturing());
    assert_eq!(s.region(), Some(region()));
}

#[test]
fn cycle_before_start_has_no_previous_frame() {
    let mut s = ScrollSession::new();
    let r = s.capture_scroll_frame_auto(FrameEvent::Captured(ramp_frame(8, 100, 0)), None, None);
    assert_eq!(r.err(), Some(CaptureError::NoPreviousFrame));
    s.select_region(region());
    let r = s.capture_scroll_frame_auto(FrameEvent::Captured(ramp_frame(8, 100, 0)), None, None);
    assert_eq!(r.err(), Some(CaptureError::NoPreviousFrame));
    let r = s.capture_scroll_frame_auto(FrameEvent::Failed, None, None);
    assert_eq!(r.err(), Some(CaptureError::NoPreviousFrame));
    assert_eq!(s.frame_count(), 0);
    assert!(s.offsets().is_empty());
    assert!(s.composed().is_none());
    assert_eq!(s.get_scroll_preview().err(), Some(CaptureError::NoStitchedImage));
}

#[test]
fn cycle_after_failed_start_has_no_previous_frame() {
    let mut s = started(8, 100, 0);
    assert_eq!(s.start_scroll_capture(FrameEvent::Failed).err(), Some(CaptureError::CaptureFailed));
    let r = s.capture_scroll_frame_auto(FrameEvent::Captured(ramp_frame(8, 100, 0)), None, None);
    assert_eq!(r.err(), Some(CaptureError::NoPreviousFrame));
    assert_eq!(s.frame_count(), 0);
}

#[test]
fn start_with_frame_that_has_no_preview_fails_and_resets() {
    let mut s = started(8, 100, 0);
    let empty = Raster::from_raw(0, 100, Vec::new()).unwrap();
    let r = s.start_scroll_capture(FrameEvent::Captured(empty));
    assert_eq!(r.err(), Some(CaptureError::PreviewFailed));
    assert_eq!(s.frame_count(), 0);
    assert!(s.composed().is_none());
}

#[test]
fn start_seeds_session() {
    let mut s = ScrollSession::new();
    s.select_region(region());
    let frame = ramp_frame(16, 120, 5);
    let p = s.start_scroll_capture(FrameEvent::Captured(frame.clone())).unwrap();
    assert_eq!(p.frame_count, 1);
    assert_eq!(p.total_height, 120);
    assert!(p.preview_base64.starts_with("data:image/jpeg;base64,"));
    assert!(s.is_capturing());
    assert_eq!(s.frame_count(), 1);
    assert_eq!(s.offsets(), vec![0]);
    assert_eq!(s.composed().unwrap().as_raw(), frame.as_raw());
    assert_eq!(s.frame(0).unwrap().as_raw(), frame.as_raw());
    assert!(s.frame(1).is_none());
}

#[test]
fn start_again_discards_earlier_history() {
    let mut s = started(8, 200, 300);
    s.capture_scroll_frame_auto(FrameEvent::Captured(ramp_frame(8, 200, 230)), None, None)
        .unwrap()
        .unwrap();
    assert_eq!(s.frame_count(), 2);
    let p = s.start_scroll_capture(FrameEvent::Captured(ramp_frame(8, 90, 0))).unwrap();
    assert_eq!(p.frame_count, 1);
    assert_eq!(s.offsets(), vec![0]);
    assert_eq!(s.total_height(), Some(90));
}

#[test]
fn cycle_with_offset_extends_session() {
    let mut s = started(400, 800, 100);
    // The new frame shows the page 120 rows further down.
    let frame = ramp_frame(400, 800, 220);
    let p = s
        .capture_scroll_frame_auto(FrameEvent::Captured(frame.clone()), None, None)
        .unwrap()
        .unwrap();
    assert_eq!(p.frame_count, 2);
    assert_eq!(p.total_height, 920);
    assert!(p.preview_base64.starts_with("data:image/jpeg;base64,"));
    assert_eq!(s.frame_count(), 2);
    assert_eq!(s.offsets(), vec![0, 120]);
    let composed = s.composed().unwrap();
    assert_eq!(composed.dimensions(), (400, 920));
    // The first frame on top, the last 120 rows of the new frame below it:
    // together the 920 rows of the page from row 100 on.
    assert_eq!(composed.get_pixel(7, 800), frame.get_pixel(7, 680));
    assert_eq!(composed.get_pixel(7, 919), frame.get_pixel(7, 799));
    for y in 0..920 {
        assert_eq!(composed.get_pixel(0, y), ramp_pixel(100 + y));
        assert_eq!(composed.get_pixel(399, y), ramp_pixel(100 + y));
    }
    assert_eq!(s.frame(1).unwrap().as_raw(), frame.as_raw());
}

#[test]
fn cycle_with_negative_offset_prepends() {
    let mut s = started(8, 400, 300);
    // The new frame shows the page 100 rows further up.
    let frame = ramp_frame(8, 400, 200);
    let p = s
        .capture_scroll_frame_auto(FrameEvent::Captured(frame.clone()), None, None)
        .unwrap()
        .unwrap();
    assert_eq!(p.total_height, 500);
    assert_eq!(s.offsets(), vec![0, -100]);
    let composed = s.composed().unwrap();
    assert_eq!(composed.get_pixel(0, 0), frame.get_pixel(0, 0));
    assert_eq!(composed.get_pixel(0, 99), frame.get_pixel(0, 99));
    for y in 0..500 {
        assert_eq!(composed.get_pixel(0, y), ramp_pixel(200 + y));
    }
}

#[test]
fn cycles_accumulate_offsets_and_height() {
    let mut s = started(8, 400, 100);
    let mut heights = vec![s.total_height().unwrap()];
    for top in [200u32, 320, 410, 510] {
        let p = s
            .capture_scroll_frame_auto(FrameEvent::Captured(ramp_frame(8, 400, top)), None, None)
            .unwrap()
            .unwrap();
        heights.push(p.total_height);
    }
    assert_eq!(s.offsets(), vec![0, 100, 220, 310, 410]);
    assert_eq!(heights, vec![400, 500, 620, 710, 810]);
    assert_eq!(s.frame_count(), 5);
    let composed = s.composed().unwrap();
    assert_eq!(composed.width(), 8);
    for y in 0..810 {
        assert_eq!(composed.get_pixel(3, y), ramp_pixel(100 + y));
    }
}

#[test]
fn identical_capture_reports_no_update() {
    let mut s = started(16, 200, 100);
    let before = s.composed().unwrap().clone();
    let r = s.capture_scroll_frame_auto(FrameEvent::Captured(ramp_frame(16, 200, 100)), None, None);
    assert!(matches!(r, Ok(None)));
    assert_eq!(s.frame_count(), 1);
    assert_eq!(s.offsets(), vec![0]);
    assert_eq!(s.composed().unwrap().as_raw(), before.as_raw());
    assert!(s.is_capturing());
    let r = s.capture_scroll_frame_auto(FrameEvent::Captured(ramp_frame(16, 200, 100)), None, None);
    assert!(matches!(r, Ok(None)));
    assert_eq!(s.frame_count(), 1);
}

#[test]
fn cycle_with_hints() {
    let mut s = started(8, 800, 100);
    let r = s.capture_scroll_frame_auto(
        FrameEvent::Captured(ramp_frame(8, 800, 220)),
        Some(Sign::Negative),
        Some(200),
    );
    assert!(matches!(r, Ok(None)));
    let p = s
        .capture_scroll_frame_auto(
            FrameEvent::Captured(ramp_frame(8, 800, 220)),
            Some(Sign::Positive),
            Some(200),
        )
        .unwrap()
        .unwrap();
    assert_eq!(p.total_height, 920);
}

#[test]
fn cycle_when_not_capturing_fails() {
    let mut s = started(8, 100, 0);
    s.stop_scroll_capture();
    let r = s.capture_scroll_frame_auto(FrameEvent::Captured(ramp_frame(8, 100, 0)), None, None);
    assert_eq!(r.err(), Some(CaptureError::NotCapturing));
    assert_eq!(s.frame_count(), 1);
}

#[test]
fn cycle_failures_leave_session_unchanged() {
    let mut s = started(8, 200, 300);
    let r = s.capture_scroll_frame_auto(FrameEvent::NoScreens, None, None);
    assert_eq!(r.err(), Some(CaptureError::NoScreensFound));
    let r = s.capture_scroll_frame_auto(FrameEvent::Failed, None, None);
    assert_eq!(r.err(), Some(CaptureError::CaptureFailed));
    assert!(s.is_capturing());
    assert_eq!(s.frame_count(), 1);
    assert_eq!(s.offsets(), vec![0]);
    assert_eq!(s.total_height(), Some(200));
}

#[test]
fn cycle_with_other_width_fails() {
    let mut s = started(8, 200, 300);
    let r = s.capture_scroll_frame_auto(FrameEvent::Captured(ramp_frame(9, 200, 230)), None, None);
    assert_eq!(r.err(), Some(CaptureError::FrameWidthMismatch));
    assert_eq!(s.frame_count(), 1);
    assert_eq!(s.total_height(), Some(200));
    assert!(s.is_capturing());
}

#[test]
fn cycle_with_other_height_reports_no_update() {
    let mut s = started(8, 200, 300);
    let r = s.capture_scroll_frame_auto(FrameEvent::Captured(ramp_frame(8, 210, 230)), None, None);
    assert!(matches!(r, Ok(None)));
    assert_eq!(s.frame_count(), 1);
}

#[test]
fn query_before_start_fails() {
    let s = ScrollSession::new();
    assert_eq!(s.get_scroll_preview().err(), Some(CaptureError::NoStitchedImage));
}

#[test]
fn query_reports_without_capturing() {
    let s = started(8, 700, 0);
    let p = s.get_scroll_preview().unwrap();
    assert_eq!(p.frame_count, 1);
    assert_eq!(p.total_height, 700);
    assert!(p.preview_base64.starts_with("data:image/jpeg;base64,"));
    assert_eq!(s.frame_count(), 1);
}

#[test]
fn stop_keeps_history() {
    let mut s = started(8, 100, 0);
    s.stop_scroll_capture();
    assert!(!s.is_capturing());
    assert_eq!(s.frame_count(), 1);
    assert_eq!(s.offsets(), vec![0]);
    assert_eq!(s.total_height(), Some(100));
    assert_eq!(s.get_scroll_preview().unwrap().total_height, 100);
    let img = s.finish_scroll_capture(None).unwrap();
    assert_eq!(img.dimensions(), (8, 100));
}

#[test]
fn cancel_discards_everything() {
    let mut s = started(8, 200, 300);
    s.capture_scroll_frame_auto(FrameEvent::Captured(ramp_frame(8, 200, 230)), None, None)
        .unwrap()
        .unwrap();
    s.cancel_scroll_capture();
    assert!(!s.is_capturing());
    assert_eq!(s.frame_count(), 0);
    assert!(s.offsets().is_empty());
    assert!(s.composed().is_none());
    assert_eq!(s.get_scroll_preview().err(), Some(CaptureError::NoStitchedImage));
    assert_eq!(s.region(), Some(region()));
}

#[test]
fn finish_hands_out_cropped_image_and_resets() {
    let mut s = started(10, 100, 0);
    let img = s.finish_scroll_capture(Some(CropEdges::from_percent(10, 10, 0, 0))).unwrap();
    assert_eq!(img.dimensions(), (10, 80));
    assert_eq!(img.get_pixel(0, 0), ramp_pixel(10));
    assert!(!s.is_capturing());
    assert_eq!(s.frame_count(), 0);
    assert!(s.offsets().is_empty());
    assert!(s.composed().is_none());
}

#[test]
fn finish_before_start_fails() {
    let mut s = ScrollSession::new();
    assert_eq!(s.finish_scroll_capture(None).err(), Some(CaptureError::NoStitchedImage));
}

#[test]
fn finish_with_refused_crop_keeps_session() {
    let mut s = started(10, 100, 0);
    let r = s.finish_scroll_capture(Some(CropEdges::from_percent(60, 60, 0, 0)));
    assert_eq!(r.err(), Some(CaptureError::CropExceedsBounds));
    assert!(s.is_capturing());
    assert_eq!(s.frame_count(), 1);
    assert_eq!(s.total_height(), Some(100));
    let img = s.finish_scroll_capture(Some(CropEdges::from_percent(10, 0, 0, 0))).unwrap();
    assert_eq!(img.dimensions(), (10, 90));
}

#[test]
fn copy_applies_crop_without_changing_session() {
    let s = started(10, 100, 0);
    let img = s.copy_scroll_to_clipboard(Some(CropEdges::from_percent(0, 50, 0, 0))).unwrap();
    assert_eq!(img.dimensions(), (10, 50));
    assert_eq!(s.frame_count(), 1);
    assert_eq!(s.total_height(), Some(100));
    let r = s.copy_scroll_to_clipboard(Some(CropEdges::from_percent(0, 0, 100, 0)));
    assert_eq!(r.err(), Some(CaptureError::CropExceedsBounds));
    assert_eq!(ScrollSession::new().copy_scroll_to_clipboard(None).err(), Some(CaptureError::NoStitchedImage));
}

#[test]
fn error_messages() {
    assert_eq!(CaptureError::NoRegionSelected.message(), "No region selected");
    assert_eq!(CaptureError::NoScreensFound.message(), "No screens found");
    assert_eq!(CaptureError::CaptureFailed.message(), "Capture failed");
    assert_eq!(CaptureError::NotCapturing.message(), "Not in scroll capture mode");
    assert_eq!(CaptureError::FrameWidthMismatch.message(), "Frame width mismatch");
    assert_eq!(CaptureError::NoPreviousFrame.message(), "No previous frame");
    assert_eq!(CaptureError::NoStitchedImage.message(), "No stitched image");
    assert_eq!(CaptureError::CropExceedsBounds.message(), "Crop exceeds image bounds");
    assert_eq!(CaptureError::PreviewFailed.message(), "Failed to encode preview");
}
