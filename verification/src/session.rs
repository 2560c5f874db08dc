//! A long-screenshot recording: captures are collected while the user
//! scrolls, then stitched into one image.

use vstd::prelude::*;
use crate::coordinates::DesktopPxRect;
use crate::frame::Frame;
use crate::stitcher::{error_message, reaches_estimate, stitch_frames, stitch_state, LongshotError, StitchOptions};

verus! {

#[verifier::external_type_specification]
#[verifier::external_body]
pub struct ExInstant(std::time::Instant);

/// The current instant.
/// Calls `std::time::Instant::now`; what it returns depends on the clock, so
/// nothing is stated of it.
#[verifier::external_body]
fn instant_now() -> std::time::Instant {
    std::time::Instant::now()
}

/// The time passed since `start`.
/// Calls `std::time::Instant::elapsed`; what it returns depends on the
/// clock, so nothing is stated of it.
#[verifier::external_body]
fn elapsed_since(start: &std::time::Instant) -> std::time::Duration {
    start.elapsed()
}

/// Most captures one recording keeps.
pub const MAX_SESSION_FRAMES: usize = 300;

/// Where a recording stands.
pub enum SessionState {
    Recording,
    Paused,
    Completed,
    Failed(String),
}

/// A recording of a scrolling region.
pub struct LongshotSession {
    pub target_rect: DesktopPxRect,
    frames: Vec<Frame>,
    options: StitchOptions,
    start_time: std::time::Instant,
    state: SessionState,
}

impl LongshotSession {
    /// The region being recorded.
    pub closed spec fn spec_target(&self) -> DesktopPxRect {
        self.target_rect
    }

    /// The captures collected so far, oldest first.
    pub closed spec fn spec_frames(&self) -> Seq<Frame> {
        self.frames@
    }

    /// The stitching options the recording was started with.
    pub closed spec fn spec_options(&self) -> StitchOptions {
        self.options
    }

    /// Where the recording stands.
    pub closed spec fn spec_state(&self) -> SessionState {
        self.state
    }

    /// Whether the recording has ended, successfully or not.
    pub open spec fn spec_ended(&self) -> bool {
        self.spec_state() is Completed || self.spec_state() is Failed
    }

    /// A recording of `target_rect` with no captures yet, started now.
    pub fn new(target_rect: DesktopPxRect, options: StitchOptions) -> (s: Self)
        ensures
            s.spec_target() == target_rect,
            s.spec_frames().len() == 0,
            s.spec_options() == options,
            s.spec_state() is Recording,
    {
        LongshotSession {
            target_rect,
            frames: Vec::new(),
            options,
            start_time: instant_now(),
            state: SessionState::Recording,
        }
    }

    /// Keeps a capture, unless the recording has ended or is full. A full
    /// recording completes instead. Returns whether the capture was kept.
    pub fn add_frame(&mut self, frame: Frame) -> (added: bool)
        ensures
            final(self).spec_target() == old(self).spec_target(),
            final(self).spec_options() == old(self).spec_options(),
            old(self).spec_ended() ==> !added && final(self).spec_frames() == old(self).spec_frames()
                && final(self).spec_state() == old(self).spec_state(),
            !old(self).spec_ended() && old(self).spec_frames().len() >= MAX_SESSION_FRAMES ==> !added
                && final(self).spec_frames() == old(self).spec_frames() && final(self).spec_state() is Completed,
            !old(self).spec_ended() && old(self).spec_frames().len() < MAX_SESSION_FRAMES ==> added
                && final(self).spec_frames() == old(self).spec_frames().push(frame)
                && final(self).spec_state() == old(self).spec_state(),
    {
        match self.state {
            SessionState::Completed | SessionState::Failed(_) => return false,
            _ => {},
        }
        if self.frames.len() >= MAX_SESSION_FRAMES {
            self.state = SessionState::Completed;
            return false;
        }
        self.frames.push(frame);
        true
    }

    /// Number of captures kept so far.
    pub fn frame_count(&self) -> (n: usize)
        ensures
            n == self.spec_frames().len(),
    {
        self.frames.len()
    }

    /// The captures kept so far, oldest first.
    pub fn frames(&self) -> (r: &[Frame])
        ensures
            r@ == self.spec_frames(),
    {
        self.frames.as_slice()
    }

    /// Time since the recording started.
    pub fn duration(&self) -> std::time::Duration {
        elapsed_since(&self.start_time)
    }

    /// Stitches the captures (see `stitch_frames`, whose outcomes, an
    /// allocation failure included, it shares). The recording completes
    /// on success and fails, with the error's text, otherwise; the captures
    /// are kept either way, and a finished recording takes no more captures
    /// (see `add_frame`).
    pub fn finish(&mut self) -> (res: Result<Frame, LongshotError>)
        requires
            reaches_estimate(old(self).spec_frames()) ==> old(self).spec_options().search_step > 0
                && old(self).spec_frames()[0].width as int * 7 <= u32::MAX,
        ensures
            final(self).spec_target() == old(self).spec_target(),
            final(self).spec_frames() == old(self).spec_frames(),
            final(self).spec_options() == old(self).spec_options(),
            final(self).spec_ended(),
            res is Ok ==> final(self).spec_state() is Completed,
            res matches Err(e) ==> (final(self).spec_state() matches SessionState::Failed(m) && m@ == error_message(e)),
            old(self).spec_frames().len() == 0 ==> res == Err::<Frame, LongshotError>(LongshotError::NoFrames),
            old(self).spec_frames().len() > 0 && stitch_state(old(self).spec_frames(), old(self).spec_options(), 1) is Err
                ==> res == Err::<Frame, LongshotError>(stitch_state(old(self).spec_frames(), old(self).spec_options(), 1)->Err_0),
            old(self).spec_frames().len() > 0 && (res matches Err(LongshotError::AllocationError(_))) ==> exists|j: nat|
                1 <= j <= old(self).spec_frames().len()
                    && #[trigger] stitch_state(old(self).spec_frames(), old(self).spec_options(), j) is Ok
                    && forall|i: nat| 1 <= i <= j ==> #[trigger] stitch_state(old(self).spec_frames(), old(self).spec_options(), i) is Ok,
            old(self).spec_frames().len() > 0 && !(res matches Err(LongshotError::AllocationError(_))) ==> {
                let fs = old(self).spec_frames();
                match stitch_state(fs, old(self).spec_options(), fs.len() as nat) {
                    Err(e) => res == Err::<Frame, LongshotError>(e),
                    Ok((total, px)) => res matches Ok(f) && {
                        &&& f.width == fs[0].width
                        &&& f.height == total
                        &&& f.stride == fs[0].width * 4
                        &&& f.format == fs[0].format
                        &&& f.pixels@ == px
                        &&& f.monitor_id == fs[0].monitor_id
                        &&& f.timestamp_ms == 0
                    },
                }
            },
    {
        let result = stitch_frames(self.frames.as_slice(), &self.options);
        match &result {
            Ok(_) => self.state = SessionState::Completed,
            Err(e) => self.state = SessionState::Failed(e.message()),
        }
        result
    }
}

} // verus!
