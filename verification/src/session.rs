//! Session state machine: the history of one scroll capture and the
//! transitions that start it, extend it, look at it and end it.
//!
//! The frame source is outside the library. Each transition that needs a
//! frame takes what the frame source reported as a `FrameEvent`.

use crate::detector::{
    detect_scroll_delta_fft, detect_spec, lemma_detect_range, lemma_identical_frames_detect_zero,
    Sign, MIN_DELTA, SEARCH_CEILING, STRIP_HEIGHT,
};
use crate::error::CaptureError;
use crate::finisher::{apply_crop, crop_result, CropEdges};
use crate::codec::{JPEG_SIDE_LIMIT, RESIZE_SIDE_LIMIT};
use crate::preview::{
    generate_preview_base64, lemma_session_preview_possible, preview_result, PREVIEW_MAX_HEIGHT,
};
use crate::raster::{Raster, RasterView};
use crate::stitcher::{added_rows, lemma_stitched_wf, magnitude, stitch_scroll_image, stitched};
use crate::types::{ProgressView, Region, ScrollCaptureProgress};
use vstd::prelude::*;

verus! {

/// What the frame source reported when it was asked for a frame.
pub enum FrameEvent {
    /// A frame of the selected region.
    Captured(Raster),
    /// No surface to capture from was found.
    NoScreens,
    /// The capture failed.
    Failed,
}

/// Mathematical model of a frame event.
pub enum FrameEventView {
    Captured(RasterView),
    NoScreens,
    Failed,
}

impl View for FrameEvent {
    type V = FrameEventView;

    open spec fn view(&self) -> FrameEventView {
        match self {
            FrameEvent::Captured(frame) => FrameEventView::Captured(frame@),
            FrameEvent::NoScreens => FrameEventView::NoScreens,
            FrameEvent::Failed => FrameEventView::Failed,
        }
    }
}

/// Mathematical model of a session: the selected region, the captured frames
/// in the order of capture, the cumulative offset of each, the composed image,
/// and whether the session is capturing.
pub struct SessionView {
    pub region: Option<Region>,
    pub frames: Seq<RasterView>,
    pub offsets: Seq<int>,
    pub composed: Option<RasterView>,
    pub active: bool,
}

impl SessionView {
    /// The invariant of a session: one offset per frame, the first of them
    /// zero; a composed image exactly while there are frames; every frame as
    /// wide as the composed image; the composed image at least as high as the
    /// last frame, and no offset larger than it is high.
    pub open spec fn wf(self) -> bool {
        &&& self.frames.len() == self.offsets.len()
        &&& self.composed is Some <==> self.frames.len() > 0
        &&& self.composed matches Some(image) ==> {
            &&& image.wf()
            &&& self.offsets[0] == 0
            &&& image.height >= self.frames.last().height
            &&& forall|i: int|
                0 <= i < self.frames.len() ==> (#[trigger] self.frames[i]).width == image.width
            &&& forall|i: int|
                0 <= i < self.offsets.len() ==> -image.height <= #[trigger] self.offsets[i]
                    <= image.height
        }
    }

    /// The composed image can still take the rows of one more frame: its
    /// height stays within 31 bits and its bytes can be addressed.
    pub open spec fn has_room(self) -> bool {
        self.composed matches Some(image) ==> image.height + SEARCH_CEILING <= i32::MAX && (
        image.height + SEARCH_CEILING) * image.width * 4 <= usize::MAX
    }

    /// The session without history: no frames, no offsets, no composed
    /// image, not capturing. The selected region stays.
    pub open spec fn reset(self) -> SessionView {
        SessionView {
            region: self.region,
            frames: Seq::empty(),
            offsets: Seq::empty(),
            composed: None,
            active: false,
        }
    }

    /// The session seeded with its first frame.
    pub open spec fn seeded(self, frame: RasterView) -> SessionView {
        SessionView {
            region: self.region,
            frames: seq![frame],
            offsets: seq![0int],
            composed: Some(frame),
            active: true,
        }
    }

    /// The session after it took a frame at the offset `delta` from the last.
    pub open spec fn extended(self, frame: RasterView, delta: int) -> SessionView {
        SessionView {
            region: self.region,
            frames: self.frames.push(frame),
            offsets: self.offsets.push(self.offsets.last() + delta),
            composed: Some(stitched(self.composed->0, frame, delta)),
            active: self.active,
        }
    }

    /// The session no longer capturing, its history kept.
    pub open spec fn stopped(self) -> SessionView {
        SessionView {
            region: self.region,
            frames: self.frames,
            offsets: self.offsets,
            composed: self.composed,
            active: false,
        }
    }

    /// The session with another region selected.
    pub open spec fn with_region(self, region: Region) -> SessionView {
        SessionView {
            region: Some(region),
            frames: self.frames,
            offsets: self.offsets,
            composed: self.composed,
            active: self.active,
        }
    }

    /// The progress report of the session: the number of frames, the height
    /// of the composed image and its preview.
    pub open spec fn progress(self) -> Result<ProgressView, CaptureError> {
        match self.composed {
            None => Err(CaptureError::NoStitchedImage),
            Some(image) => match preview_result(image, PREVIEW_MAX_HEIGHT) {
                Ok(url) => Ok(
                    ProgressView {
                        frame_count: self.frames.len(),
                        total_height: image.height,
                        preview: url,
                    },
                ),
                Err(e) => Err(e),
            },
        }
    }

    /// Start: a frame for a selected region seeds the session. Every start
    /// that fails leaves the session reset: without a selected region, where
    /// the frame source failed, and where no preview can be made of the
    /// frame.
    pub open spec fn start(self, event: FrameEventView) -> (SessionView, Result<
        ProgressView,
        CaptureError,
    >) {
        if self.region is None {
            (self.reset(), Err(CaptureError::NoRegionSelected))
        } else {
            match event {
                FrameEventView::NoScreens => (self.reset(), Err(CaptureError::NoScreensFound)),
                FrameEventView::Failed => (self.reset(), Err(CaptureError::CaptureFailed)),
                FrameEventView::Captured(frame) => match self.seeded(frame).progress() {
                    Ok(p) => (self.seeded(frame), Ok(p)),
                    Err(e) => (self.reset(), Err(e)),
                },
            }
        }
    }

    /// Capture cycle: the session changes only where a frame is accepted,
    /// that is where the detector trusts an offset of at least the smallest
    /// size between the last frame and the new one; every failure and every
    /// cycle without scroll leaves it as it was. A cycle on a session without
    /// frames, as before any start, fails for want of a previous frame; one
    /// on a stopped session that has frames fails because it is not
    /// capturing.
    pub open spec fn cycle(
        self,
        event: FrameEventView,
        direction: Option<Sign>,
        max_magnitude: Option<u32>,
    ) -> (SessionView, Result<Option<ProgressView>, CaptureError>) {
        match self.composed {
            None => (self, Err(CaptureError::NoPreviousFrame)),
            Some(image) => if !self.active {
                (self, Err(CaptureError::NotCapturing))
            } else if self.region is None {
                (self, Err(CaptureError::NoRegionSelected))
            } else {
                match event {
                    FrameEventView::NoScreens => (self, Err(CaptureError::NoScreensFound)),
                    FrameEventView::Failed => (self, Err(CaptureError::CaptureFailed)),
                    FrameEventView::Captured(frame) => if frame.width != image.width {
                        (self, Err(CaptureError::FrameWidthMismatch))
                    } else {
                        let delta = detect_spec(
                            self.frames.last(),
                            frame,
                            direction,
                            max_magnitude,
                        );
                        if magnitude(delta) < MIN_DELTA {
                            (self, Ok(None))
                        } else {
                            match self.extended(frame, delta).progress() {
                                Ok(p) => (self.extended(frame, delta), Ok(Some(p))),
                                Err(e) => (self, Err(e)),
                            }
                        }
                    },
                }
            },
        }
    }

    /// The composed image with a crop applied, for copying.
    pub open spec fn cropped_copy(self, crop: Option<CropEdges>) -> Result<
        RasterView,
        CaptureError,
    > {
        match self.composed {
            None => Err(CaptureError::NoStitchedImage),
            Some(image) => crop_result(image, crop),
        }
    }

    /// Finish: the cropped composed image is handed out and the session is
    /// reset; without a composed image, or with a crop that is refused,
    /// nothing changes.
    pub open spec fn finish(self, crop: Option<CropEdges>) -> (SessionView, Result<
        RasterView,
        CaptureError,
    >) {
        match self.cropped_copy(crop) {
            Ok(image) => (self.reset(), Ok(image)),
            Err(e) => (self, Err(e)),
        }
    }
}

/// The model of the outcome of a transition that reports progress.
pub open spec fn progress_view(r: Result<ScrollCaptureProgress, CaptureError>) -> Result<
    ProgressView,
    CaptureError,
> {
    match r {
        Ok(p) => Ok(p@),
        Err(e) => Err(e),
    }
}

/// The model of the outcome of a capture cycle.
pub open spec fn cycle_view(r: Result<Option<ScrollCaptureProgress>, CaptureError>) -> Result<
    Option<ProgressView>,
    CaptureError,
> {
    match r {
        Ok(Some(p)) => Ok(Some(p@)),
        Ok(None) => Ok(None),
        Err(e) => Err(e),
    }
}

/// The model of the outcome of a transition that hands out an image.
pub open spec fn image_view(r: Result<Raster, CaptureError>) -> Result<RasterView, CaptureError> {
    match r {
        Ok(image) => Ok(image@),
        Err(e) => Err(e),
    }
}

/// The state of one scroll capture. It is changed by the transitions below
/// and by nothing else.
pub struct ScrollSession {
    region: Option<Region>,
    frames: Vec<Raster>,
    offsets: Vec<i32>,
    composed: Option<Raster>,
    active: bool,
}

impl View for ScrollSession {
    type V = SessionView;

    closed spec fn view(&self) -> SessionView {
        SessionView {
            region: self.region,
            frames: Seq::new(self.frames@.len(), |i: int| self.frames@[i]@),
            offsets: Seq::new(self.offsets@.len(), |i: int| self.offsets@[i] as int),
            composed: match self.composed {
                Some(image) => Some(image@),
                None => None,
            },
            active: self.active,
        }
    }
}

impl ScrollSession {
    #[verifier::type_invariant]
    spec fn inv(self) -> bool {
        self@.wf()
    }

    /// An idle session: nothing selected, nothing captured.
    pub fn new() -> (s: Self)
        ensures
            s@ == (SessionView {
                region: None,
                frames: Seq::empty(),
                offsets: Seq::empty(),
                composed: None,
                active: false,
            }),
            s@.wf(),
    {
        Self::empty(None, false)
    }

    /// A session for a region, without history.
    fn empty(region: Option<Region>, active: bool) -> (s: Self)
        ensures
            s@ == (SessionView {
                region,
                frames: Seq::empty(),
                offsets: Seq::empty(),
                composed: None,
                active,
            }),
    {
        let s = ScrollSession {
            region,
            frames: Vec::new(),
            offsets: Vec::new(),
            composed: None,
            active,
        };
        assert(s@.frames =~= Seq::empty());
        assert(s@.offsets =~= Seq::empty());
        s
    }

    /// Selects the region that the session captures.
    pub fn select_region(&mut self, region: Region)
        ensures
            final(self)@ == old(self)@.with_region(region),
            final(self)@.wf(),
    {
        proof {
            use_type_invariant(&*self);
        }
        self.region = Some(region);
    }

    /// The selected region.
    pub fn region(&self) -> (r: Option<Region>)
        ensures
            r == self@.region,
    {
        self.region
    }

    /// Whether the session is capturing.
    pub fn is_capturing(&self) -> (b: bool)
        ensures
            b == self@.active,
    {
        self.active
    }

    /// Number of frames captured so far.
    pub fn frame_count(&self) -> (n: usize)
        ensures
            n == self@.frames.len(),
            self@.wf(),
    {
        proof {
            use_type_invariant(self);
        }
        self.frames.len()
    }

    /// The frame with the given index, the first frame having index zero.
    pub fn frame(&self, index: usize) -> (f: Option<&Raster>)
        ensures
            match f {
                Some(img) => index < self@.frames.len() && img@ == self@.frames[index as int],
                None => index >= self@.frames.len(),
            },
    {
        if index < self.frames.len() {
            Some(&self.frames[index])
        } else {
            None
        }
    }

    /// The cumulative offsets, one for each frame.
    pub fn offsets(&self) -> (v: Vec<i32>)
        ensures
            v@.len() == self@.offsets.len(),
            forall|i: int| 0 <= i < v@.len() ==> v@[i] as int == self@.offsets[i],
    {
        let v = self.offsets.clone();
        assert(v@ =~= self.offsets@);
        v
    }

    /// The composed image, if any frame was captured.
    pub fn composed(&self) -> (c: Option<&Raster>)
        ensures
            match c {
                Some(image) => self@.composed == Some(image@),
                None => self@.composed is None,
            },
    {
        self.composed.as_ref()
    }

    /// Height of the composed image, if any frame was captured.
    pub fn total_height(&self) -> (h: Option<u32>)
        ensures
            match h {
                Some(height) => self@.composed is Some && self@.composed->0.height == height,
                None => self@.composed is None,
            },
    {
        match &self.composed {
            Some(image) => Some(image.height()),
            None => None,
        }
    }

    /// Tells whether the composed image can take the rows of one more frame.
    pub fn has_room(&self) -> (b: bool)
        ensures
            b == self@.has_room(),
    {
        match &self.composed {
            None => true,
            Some(image) => {
                let (w, h) = image.dimensions();
                let rows: u64 = h as u64 + SEARCH_CEILING as u64;
                assert(rows * (w as int) * 4 <= 0x1_0000_012c * 0xffff_ffff * 4)
                    by (nonlinear_arith)
                    requires
                        0 <= rows <= 0x1_0000_012c,
                        0 <= w <= 0xffff_ffff,
                ;
                assert(0 <= rows * (w as int)) by (nonlinear_arith)
                    requires
                        0 <= rows,
                        0 <= w,
                ;
                rows <= i32::MAX as u64 && (rows as u128) * (w as u128) * 4 <= usize::MAX as u128
            },
        }
    }

    /// The progress report of the session.
    fn report(&self) -> (r: Result<ScrollCaptureProgress, CaptureError>)
        ensures
            progress_view(r) == self@.progress(),
    {
        match &self.composed {
            None => Err(CaptureError::NoStitchedImage),
            Some(image) => {
                let preview = generate_preview_base64(image, PREVIEW_MAX_HEIGHT)?;
                Ok(
                    ScrollCaptureProgress {
                        frame_count: self.frames.len(),
                        total_height: image.height(),
                        preview_base64: preview,
                    },
                )
            },
        }
    }

    /// Start: begins a capture with the first frame.
    ///
    /// With a selected region the frame seeds the session: it is the only
    /// frame, its offset is zero, it is the composed image, and the session
    /// is capturing. Without a selected region the call fails with
    /// `NoRegionSelected`; where the frame source reported no screens or a
    /// failure, or no preview can be made of the frame, it fails with that
    /// error. Every failing start leaves the session reset: no frames, no
    /// offsets, no composed image, not capturing; the region stays.
    pub fn start_scroll_capture(&mut self, event: FrameEvent) -> (r: Result<
        ScrollCaptureProgress,
        CaptureError,
    >)
        ensures
            final(self)@ == old(self)@.start(event@).0,
            progress_view(r) == old(self)@.start(event@).1,
            final(self)@.wf(),
            r is Err ==> final(self)@ == old(self)@.reset(),
            old(self)@.region is None <==> r matches Err(CaptureError::NoRegionSelected),
            r matches Ok(p) ==> event@ is Captured && final(self)@ == old(self)@.seeded(
                event@->Captured_0,
            ) && p@.frame_count == 1 && p@.total_height == event@->Captured_0.height,
            old(self)@.region is Some && event@ is Captured && preview_sized(event@->Captured_0)
                ==> r is Ok,
    {
        proof {
            use_type_invariant(&*self);
            lemma_start_seeds(self@, event@);
            if self@.region is Some && event@ is Captured && preview_sized(event@->Captured_0) {
                lemma_start_succeeds(self@, event@->Captured_0);
            }
        }
        let region = self.region;
        if region.is_none() {
            *self = ScrollSession::empty(region, false);
            return Err(CaptureError::NoRegionSelected);
        }
        let frame = match event {
            FrameEvent::NoScreens => {
                *self = ScrollSession::empty(region, false);
                return Err(CaptureError::NoScreensFound);
            },
            FrameEvent::Failed => {
                *self = ScrollSession::empty(region, false);
                return Err(CaptureError::CaptureFailed);
            },
            FrameEvent::Captured(frame) => frame,
        };
        let preview = match generate_preview_base64(&frame, PREVIEW_MAX_HEIGHT) {
            Ok(preview) => preview,
            Err(e) => {
                *self = ScrollSession::empty(region, false);
                return Err(e);
            },
        };
        let (_, height) = frame.dimensions();
        let composed = frame.clone();
        let mut frames: Vec<Raster> = Vec::new();
        frames.push(frame);
        let mut offsets: Vec<i32> = Vec::new();
        offsets.push(0);
        let next = ScrollSession { region, frames, offsets, composed: Some(composed), active: true };
        proof {
            assert(next@.frames =~= seq![frame@]);
            assert(next@.offsets =~= seq![0int]);
        }
        *self = next;
        Ok(ScrollCaptureProgress { frame_count: 1, total_height: height, preview_base64: preview })
    }

    /// Capture cycle: offers a newly captured frame to the session.
    ///
    /// The frame is accepted where the detector trusts an offset of at least
    /// ten pixels between the last frame and the new one. The new frame is
    /// then stitched onto the composed image, the frame and the new
    /// cumulative offset join the history, and the progress is reported. A
    /// cycle without scroll reports `None`, and like every failure it leaves
    /// the session as it was. On a session without frames the cycle fails
    /// with `NoPreviousFrame`; on a stopped session with frames, with
    /// `NotCapturing`.
    pub fn capture_scroll_frame_auto(
        &mut self,
        event: FrameEvent,
        expected_direction: Option<Sign>,
        max_magnitude: Option<u32>,
    ) -> (r: Result<Option<ScrollCaptureProgress>, CaptureError>)
        requires
            old(self)@.has_room(),
        ensures
            final(self)@ == old(self)@.cycle(event@, expected_direction, max_magnitude).0,
            cycle_view(r) == old(self)@.cycle(event@, expected_direction, max_magnitude).1,
            final(self)@.wf(),
            !(r matches Ok(Some(_))) ==> final(self)@ == old(self)@,
            r matches Ok(Some(p)) ==> accepted(
                old(self)@,
                final(self)@,
                event@,
                expected_direction,
                max_magnitude,
                p@,
            ),
            owed_acceptance(old(self)@, event@, expected_direction, max_magnitude) ==> r matches Ok(
                Some(_),
            ),
    {
        proof {
            use_type_invariant(&*self);
            if owed_acceptance(self@, event@, expected_direction, max_magnitude) {
                lemma_cycle_accepts(
                    self@,
                    event@->Captured_0,
                    expected_direction,
                    max_magnitude,
                );
            }
        }
        let image = match &self.composed {
            None => {
                return Err(CaptureError::NoPreviousFrame);
            },
            Some(image) => image,
        };
        if !self.active {
            return Err(CaptureError::NotCapturing);
        }
        if self.region.is_none() {
            return Err(CaptureError::NoRegionSelected);
        }
        let frame = match event {
            FrameEvent::NoScreens => {
                return Err(CaptureError::NoScreensFound);
            },
            FrameEvent::Failed => {
                return Err(CaptureError::CaptureFailed);
            },
            FrameEvent::Captured(frame) => frame,
        };
        let (image_width, image_height) = image.dimensions();
        let (frame_width, frame_height) = frame.dimensions();
        if frame_width != image_width {
            return Err(CaptureError::FrameWidthMismatch);
        }
        let count = self.frames.len();
        let last = &self.frames[count - 1];
        assert(last@ == self@.frames.last());
        let delta = detect_scroll_delta_fft(last, &frame, expected_direction, max_magnitude);
        if -(MIN_DELTA as i32) < delta && delta < MIN_DELTA as i32 {
            return Ok(None);
        }
        proof {
            let rows = image_height + SEARCH_CEILING;
            let added = crate::stitcher::added_rows(frame@.height, delta as int);
            assert((image_height + added) * (image_width as int) * 4 <= rows * (
            image_width as int) * 4) by (nonlinear_arith)
                requires
                    image_height + added <= rows,
                    0 <= image_width,
            ;
        }
        let composed = match stitch_scroll_image(image, &frame, delta) {
            Ok(composed) => composed,
            Err(e) => {
                return Err(e);
            },
        };
        let preview = match generate_preview_base64(&composed, PREVIEW_MAX_HEIGHT) {
            Ok(preview) => preview,
            Err(e) => {
                return Err(e);
            },
        };
        let total_height = composed.height();
        let offset: i32 = self.offsets[count - 1] + delta;
        let ghost before = self@;
        let mut taken = ScrollSession::new();
        core::mem::swap(self, &mut taken);
        let ScrollSession { region, mut frames, mut offsets, composed: _, active } = taken;
        proof {
            assert(frames@.len() == before.frames.len());
            assert(offsets@.len() == before.offsets.len());
            assert(forall|i: int|
                0 <= i < frames@.len() ==> (#[trigger] frames@[i])@ == before.frames[i]);
            assert(forall|i: int|
                0 <= i < offsets@.len() ==> (#[trigger] offsets@[i]) as int == before.offsets[i]);
            assert(composed@.width == image_width);
            assert(composed@.height >= image_height);
            assert(composed@.height >= frame_height);
        }
        frames.push(frame);
        offsets.push(offset);
        let frame_count = frames.len();
        proof {
            assert(forall|i: int|
                0 <= i < frames@.len() ==> (#[trigger] frames@[i])@.width == composed@.width) by {
                assert forall|i: int| 0 <= i < frames@.len() implies (#[trigger] frames@[i])@.width
                    == composed@.width by {
                    if i < frames@.len() - 1 {
                        assert(frames@[i]@ == before.frames[i]);
                    }
                }
            }
            assert(forall|i: int|
                0 <= i < offsets@.len() ==> -composed@.height <= (#[trigger] offsets@[i]) as int
                    <= composed@.height) by {
                assert forall|i: int| 0 <= i < offsets@.len() implies -composed@.height <= (
                #[trigger] offsets@[i]) as int <= composed@.height by {
                    if i < offsets@.len() - 1 {
                        assert(offsets@[i] as int == before.offsets[i]);
                    }
                }
            }
            assert(offsets@[0] as int == before.offsets[0]);
        }
        let next = ScrollSession { region, frames, offsets, composed: Some(composed), active };
        proof {
            assert(next@.frames =~= before.frames.push(frame@));
            assert(next@.offsets =~= before.offsets.push(before.offsets.last() + delta));
            assert(next@ == before.extended(frame@, delta as int));
        }
        proof {
            lemma_accepted_cycle(before, event@, expected_direction, max_magnitude);
        }
        *self = next;
        Ok(Some(ScrollCaptureProgress { frame_count, total_height, preview_base64: preview }))
    }

    /// Query: reports the progress of the session without capturing.
    pub fn get_scroll_preview(&self) -> (r: Result<ScrollCaptureProgress, CaptureError>)
        ensures
            progress_view(r) == self@.progress(),
    {
        self.report()
    }

    /// The composed image with a crop applied, for copying. The session does
    /// not change.
    pub fn copy_scroll_to_clipboard(&self, crop: Option<CropEdges>) -> (r: Result<
        Raster,
        CaptureError,
    >)
        ensures
            image_view(r) == self@.cropped_copy(crop),
    {
        match &self.composed {
            None => Err(CaptureError::NoStitchedImage),
            Some(image) => apply_crop(image, crop),
        }
    }

    /// Finish: hands out the composed image with the crop applied and resets
    /// the session. Without a composed image, or with a crop that is
    /// refused, the call fails and changes nothing.
    pub fn finish_scroll_capture(&mut self, crop: Option<CropEdges>) -> (r: Result<
        Raster,
        CaptureError,
    >)
        ensures
            final(self)@ == old(self)@.finish(crop).0,
            image_view(r) == old(self)@.finish(crop).1,
            final(self)@.wf(),
    {
        proof {
            use_type_invariant(&*self);
        }
        let image = match &self.composed {
            None => {
                return Err(CaptureError::NoStitchedImage);
            },
            Some(image) => apply_crop(image, crop)?,
        };
        *self = ScrollSession::empty(self.region, false);
        Ok(image)
    }

    /// Stop without saving: the session no longer captures, but keeps its
    /// frames and its composed image for a later query or finish.
    pub fn stop_scroll_capture(&mut self)
        ensures
            final(self)@ == old(self)@.stopped(),
            final(self)@.wf(),
    {
        proof {
            use_type_invariant(&*self);
        }
        self.active = false;
    }

    /// Cancel: discards the history and the composed image.
    pub fn cancel_scroll_capture(&mut self)
        ensures
            final(self)@ == old(self)@.reset(),
            final(self)@.wf(),
    {
        *self = ScrollSession::empty(self.region, false);
    }
}

/// What a capture cycle is given: the frame event and the two hints.
pub struct CycleInput {
    pub event: FrameEventView,
    pub direction: Option<Sign>,
    pub max_magnitude: Option<u32>,
}

/// The session after a sequence of capture cycles.
pub open spec fn after_cycles(s: SessionView, inputs: Seq<CycleInput>) -> SessionView
    decreases inputs.len(),
{
    if inputs.len() == 0 {
        s
    } else {
        after_cycles(s, inputs.drop_last()).cycle(
            inputs.last().event,
            inputs.last().direction,
            inputs.last().max_magnitude,
        ).0
    }
}

/// What an accepted cycle has done, from the session before to the session
/// after: the frame was a captured one; the detected offset is at least the
/// smallest size; the composed image keeps its width and is higher by
/// exactly the size of the offset, clamped to the frame's height, which is
/// at least one row; the frame and the new cumulative offset have joined the
/// history, earlier entries untouched; the session still captures; and the
/// report shows the new frame count and height.
pub open spec fn accepted(
    before: SessionView,
    after: SessionView,
    event: FrameEventView,
    direction: Option<Sign>,
    max_magnitude: Option<u32>,
    report: ProgressView,
) -> bool {
    &&& event is Captured
    &&& before.composed is Some
    &&& after.composed is Some
    &&& {
        let frame = event->Captured_0;
        let delta = detect_spec(before.frames.last(), frame, direction, max_magnitude);
        &&& magnitude(delta) >= MIN_DELTA
        &&& after.composed->0.width == before.composed->0.width
        &&& after.composed->0.height == before.composed->0.height + added_rows(
            frame.height,
            delta,
        )
        &&& after.composed->0.height > before.composed->0.height
        &&& after.frames == before.frames.push(frame)
        &&& after.offsets == before.offsets.push(before.offsets.last() + delta)
        &&& after.active
        &&& report.frame_count == before.frames.len() + 1
        &&& report.total_height == after.composed->0.height
    }
}

/// Accepted cycle: a cycle that reports progress has taken the frame, and
/// the composed image has grown by the size of the offset.
pub proof fn lemma_accepted_cycle(
    s: SessionView,
    event: FrameEventView,
    direction: Option<Sign>,
    max_magnitude: Option<u32>,
)
    requires
        s.wf(),
        s.cycle(event, direction, max_magnitude).1 matches Ok(Some(_)),
    ensures
        accepted(
            s,
            s.cycle(event, direction, max_magnitude).0,
            event,
            direction,
            max_magnitude,
            s.cycle(event, direction, max_magnitude).1->Ok_0->0,
        ),
{
    let frame = event->Captured_0;
    let delta = detect_spec(s.frames.last(), frame, direction, max_magnitude);
    assert(delta != 0);
    assert(frame.height >= STRIP_HEIGHT);
}

/// A frame whose sides allow the previews of a session: at least one and at
/// most 65535 pixels wide, at least one and at most 4194304 pixels high.
pub open spec fn preview_sized(img: RasterView) -> bool {
    1 <= img.width <= JPEG_SIDE_LIMIT && 1 <= img.height <= RESIZE_SIDE_LIMIT
}

/// Start succeeds: with a selected region and a captured frame of a size
/// that allows previews, the start seeds the session and reports one frame
/// of the frame's height.
pub proof fn lemma_start_succeeds(s: SessionView, frame: RasterView)
    requires
        s.region is Some,
        preview_sized(frame),
    ensures
        s.start(FrameEventView::Captured(frame)).0 == s.seeded(frame),
        s.start(FrameEventView::Captured(frame)).1 is Ok,
        s.start(FrameEventView::Captured(frame)).1->Ok_0.frame_count == 1,
        s.start(FrameEventView::Captured(frame)).1->Ok_0.total_height == frame.height,
{
    lemma_session_preview_possible(frame);
    assert(s.seeded(frame).frames.len() == 1);
}

/// An accepted cycle is owed: a capturing session with a selected region is
/// offered a captured frame as wide as its composed image, between which
/// and the last frame the detector trusts an offset of at least the
/// smallest size, and the composed image is at most 65535 pixels wide and
/// stays at most 4194304 pixels high.
pub open spec fn owed_acceptance(
    s: SessionView,
    event: FrameEventView,
    direction: Option<Sign>,
    max_magnitude: Option<u32>,
) -> bool {
    &&& s.active
    &&& s.region is Some
    &&& s.composed is Some
    &&& event is Captured
    &&& {
        let frame = event->Captured_0;
        let delta = detect_spec(s.frames.last(), frame, direction, max_magnitude);
        &&& frame.width == s.composed->0.width
        &&& 1 <= frame.width <= JPEG_SIDE_LIMIT
        &&& magnitude(delta) >= MIN_DELTA
        &&& s.composed->0.height + added_rows(frame.height, delta) <= RESIZE_SIDE_LIMIT
    }
}

/// Accepted cycles succeed: where an accepted cycle is owed, the cycle
/// reports progress, and the session is the one extended by the frame.
pub proof fn lemma_cycle_accepts(
    s: SessionView,
    frame: RasterView,
    direction: Option<Sign>,
    max_magnitude: Option<u32>,
)
    requires
        s.wf(),
        owed_acceptance(s, FrameEventView::Captured(frame), direction, max_magnitude),
    ensures
        s.cycle(FrameEventView::Captured(frame), direction, max_magnitude).1 matches Ok(Some(_)),
        accepted(
            s,
            s.cycle(FrameEventView::Captured(frame), direction, max_magnitude).0,
            FrameEventView::Captured(frame),
            direction,
            max_magnitude,
            s.cycle(FrameEventView::Captured(frame), direction, max_magnitude).1->Ok_0->0,
        ),
{
    let delta = detect_spec(s.frames.last(), frame, direction, max_magnitude);
    let next = s.extended(frame, delta);
    lemma_detect_range(s.frames.last(), frame, direction, max_magnitude);
    assert(added_rows(frame.height, delta) >= 1);
    lemma_session_preview_possible(next.composed->0);
    lemma_accepted_cycle(s, FrameEventView::Captured(frame), direction, max_magnitude);
}

/// First cycle: a session that was seeded with one frame and accepts a
/// second has exactly these two frames, the offsets zero and the detected
/// offset, and a composed image as high as the first frame and the size of
/// the offset, clamped to the second frame's height, together.
pub proof fn lemma_first_cycle(
    s: SessionView,
    first: RasterView,
    second: RasterView,
    direction: Option<Sign>,
    max_magnitude: Option<u32>,
)
    requires
        s.region is Some,
        first.wf(),
        s.seeded(first).cycle(FrameEventView::Captured(second), direction, max_magnitude).1
            matches Ok(Some(_)),
    ensures
        ({
            let after = s.seeded(first).cycle(
                FrameEventView::Captured(second),
                direction,
                max_magnitude,
            ).0;
            let report = s.seeded(first).cycle(
                FrameEventView::Captured(second),
                direction,
                max_magnitude,
            ).1->Ok_0->0;
            let delta = detect_spec(first, second, direction, max_magnitude);
            &&& after.frames == seq![first, second]
            &&& after.offsets == seq![0int, delta]
            &&& after.composed is Some
            &&& after.composed->0.width == first.width
            &&& after.composed->0.height == first.height + added_rows(second.height, delta)
            &&& report.frame_count == 2
            &&& report.total_height == first.height + added_rows(second.height, delta)
        }),
{
    let seeded = s.seeded(first);
    assert(seeded.frames.last() == first);
    assert(seeded.wf());
    lemma_accepted_cycle(seeded, FrameEventView::Captured(second), direction, max_magnitude);
    let delta = detect_spec(first, second, direction, max_magnitude);
    assert(seeded.frames.push(second) =~= seq![first, second]);
    assert(seeded.offsets.push(seeded.offsets.last() + delta) =~= seq![0int, delta]);
}

/// A cycle that does not report progress leaves the session as it was: a
/// cycle without scroll, and every failure.
pub proof fn lemma_unaccepted_cycle(
    s: SessionView,
    event: FrameEventView,
    direction: Option<Sign>,
    max_magnitude: Option<u32>,
)
    requires
        !(s.cycle(event, direction, max_magnitude).1 matches Ok(Some(_))),
    ensures
        s.cycle(event, direction, max_magnitude).0 == s,
{
}

/// Monotonic height: over any sequence of capture cycles the composed image
/// stays, keeps its width and never gets lower.
pub proof fn lemma_height_monotonic(s: SessionView, inputs: Seq<CycleInput>)
    requires
        s.composed is Some,
    ensures
        after_cycles(s, inputs).composed is Some,
        after_cycles(s, inputs).composed->0.width == s.composed->0.width,
        after_cycles(s, inputs).composed->0.height >= s.composed->0.height,
    decreases inputs.len(),
{
    if inputs.len() > 0 {
        lemma_height_monotonic(s, inputs.drop_last());
    }
}

/// No update: a capturing session that is offered a frame identical to its
/// last one reports no update and does not change.
pub proof fn lemma_identical_capture_no_update(
    s: SessionView,
    frame: RasterView,
    direction: Option<Sign>,
    max_magnitude: Option<u32>,
)
    requires
        s.wf(),
        s.active,
        s.region is Some,
        s.frames.len() > 0,
        frame == s.frames.last(),
    ensures
        s.cycle(FrameEventView::Captured(frame), direction, max_magnitude) == (
            s,
            Ok::<Option<ProgressView>, CaptureError>(None),
        ),
{
    lemma_identical_frames_detect_zero(s.frames.last(), frame, direction, max_magnitude);
}

/// Session reset: after a cancel, and after a finish that succeeded, the
/// session has no frames, no offsets and no composed image, and is not
/// capturing.
pub proof fn lemma_reset_is_empty(s: SessionView, crop: Option<CropEdges>)
    ensures
        s.reset().frames.len() == 0,
        s.reset().offsets.len() == 0,
        s.reset().composed is None,
        !s.reset().active,
        s.reset().wf(),
        s.finish(crop).1 is Ok ==> s.finish(crop).0 == s.reset(),
        s.finish(crop).1 is Err ==> s.finish(crop).0 == s,
{
}

/// Start seeds the session or resets it: where it succeeds, the frame is the
/// only frame, its offset is zero, it is the composed image, and the session
/// is capturing; where it fails, the session is left without frames, offsets
/// and composed image and is not capturing, and the error is
/// `NoRegionSelected` exactly where no region is selected.
pub proof fn lemma_start_seeds(s: SessionView, event: FrameEventView)
    ensures
        s.start(event).1 is Ok ==> event is Captured && s.start(event).0.frames
            == seq![event->Captured_0] && s.start(event).0.offsets == seq![0int] && s.start(
            event,
        ).0.composed == Some(event->Captured_0) && s.start(event).0.active && s.start(
            event,
        ).1->Ok_0.frame_count == 1 && s.start(event).1->Ok_0.total_height
            == event->Captured_0.height,
        s.start(event).1 is Err ==> s.start(event).0 == s.reset() && s.start(event).0.frames.len()
            == 0 && s.start(event).0.offsets.len() == 0 && s.start(event).0.composed is None
            && !s.start(event).0.active && s.start(event).0.region == s.region,
        s.region is None <==> s.start(event).1 == Err::<ProgressView, CaptureError>(
            CaptureError::NoRegionSelected,
        ),
{
}

/// The frame of an event, if it brings one, is well-formed.
pub open spec fn event_wf(event: FrameEventView) -> bool {
    event matches FrameEventView::Captured(frame) ==> frame.wf()
}

/// The invariant of a session holds after every transition: one offset
/// per frame, the first of them zero, every frame as wide as the composed
/// image, and the composed image at least as high as the last frame.
pub proof fn lemma_transitions_keep_invariant(
    s: SessionView,
    event: FrameEventView,
    direction: Option<Sign>,
    max_magnitude: Option<u32>,
    crop: Option<CropEdges>,
    region: Region,
)
    requires
        s.wf(),
        event_wf(event),
    ensures
        s.start(event).0.wf(),
        s.cycle(event, direction, max_magnitude).0.wf(),
        s.finish(crop).0.wf(),
        s.stopped().wf(),
        s.reset().wf(),
        s.with_region(region).wf(),
{
    if event is Captured {
        let frame = event->Captured_0;
        let seeded = s.seeded(frame);
        assert(seeded.frames.last() == frame);
        assert(seeded.wf());
        if s.cycle(event, direction, max_magnitude).1 matches Ok(Some(_)) {
            let image = s.composed->0;
            let delta = detect_spec(s.frames.last(), frame, direction, max_magnitude);
            let next = s.extended(frame, delta);
            lemma_detect_range(s.frames.last(), frame, direction, max_magnitude);
            lemma_stitched_wf(image, frame, delta);
            assert(next.frames.last() == frame);
            assert(added_rows(frame.height, delta) == magnitude(delta));
            assert(next.offsets[0] == s.offsets[0]);
            assert forall|i: int| 0 <= i < next.frames.len() implies (#[trigger] next.frames[i]).width
                == next.composed->0.width by {
                if i < s.frames.len() {
                    assert(next.frames[i] == s.frames[i]);
                }
            }
            assert forall|i: int| 0 <= i < next.offsets.len() implies -next.composed->0.height
                <= #[trigger] next.offsets[i] <= next.composed->0.height by {
                if i < s.offsets.len() {
                    assert(next.offsets[i] == s.offsets[i]);
                } else {
                    assert(next.offsets[i] == s.offsets.last() + delta);
                }
            }
            assert(next.wf());
        }
    }
}

} // verus!
