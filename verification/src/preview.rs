//! Decisions of the WebM preview encoder: output size, which decoded
//! frames are encoded, when to stop, and output packet timestamps.

use vstd::prelude::*;

verus! {

/// Width of every preview, in pixels.
pub const PREVIEW_WIDTH: u32 = 320;

/// Frame rate of every preview, in frames per second.
pub const PREVIEW_FPS: i64 = 25;

/// Preview height that keeps the source aspect ratio at width 320
/// (rounded down).
pub fn preview_height(source_width: u32, source_height: u32) -> (h: u32)
    requires
        source_width > 0,
        PREVIEW_WIDTH * source_height <= u32::MAX,
    ensures
        h == (PREVIEW_WIDTH * source_height) / (source_width as int),
{
    (PREVIEW_WIDTH * source_height) / source_width
}

/// Where a decoded frame lies relative to the requested start time.
#[derive(Clone, Copy, Debug, PartialEq, Eq)]
pub enum FrameTiming {
    /// The frame carries no timestamp.
    Untimed,
    /// The frame is earlier than the requested start.
    BeforeStart,
    /// The frame is at or after the requested start.
    FromStart,
}

/// What to do with a decoded frame.
#[derive(Clone, Copy, Debug, PartialEq, Eq)]
pub enum FrameStep {
    /// Drop it and keep decoding.
    Skip,
    /// Enough frames are encoded: stop reading input.
    Stop,
    /// Scale and encode it.
    Encode,
}

/// Progress of one preview: frames handed to the encoder so far and the
/// number wanted.
#[derive(Clone, Copy, Debug)]
pub struct PreviewProgress {
    pub frame_count: i64,
    pub max_frames: i64,
}

/// Output timestamp, in milliseconds, of a packet sent while `frame_count`
/// frames precede it.
pub open spec fn packet_pts(frame_count: int) -> int {
    frame_count * 1000 / PREVIEW_FPS as int
}

pub open spec fn step_for(p: PreviewProgress, timing: FrameTiming) -> FrameStep {
    match timing {
        FrameTiming::FromStart => if p.frame_count >= p.max_frames {
            FrameStep::Stop
        } else {
            FrameStep::Encode
        },
        _ => FrameStep::Skip,
    }
}

impl PreviewProgress {
    pub open spec fn new_spec(max_frames: i64) -> Self {
        PreviewProgress { frame_count: 0, max_frames }
    }

    /// Nothing encoded yet, `max_frames` wanted.
    pub fn new(max_frames: i64) -> (p: Self)
        ensures
            p == PreviewProgress::new_spec(max_frames),
    {
        PreviewProgress { frame_count: 0, max_frames }
    }

    /// Decides the fate of a decoded frame: untimed and early frames are
    /// skipped; a frame from the start on stops the run once `max_frames`
    /// frames are encoded, and is encoded otherwise.
    pub fn step(&self, timing: FrameTiming) -> (s: FrameStep)
        ensures
            s == step_for(*self, timing),
    {
        match timing {
            FrameTiming::FromStart => if self.frame_count >= self.max_frames {
                FrameStep::Stop
            } else {
                FrameStep::Encode
            },
            _ => FrameStep::Skip,
        }
    }

    /// Timestamp for the packets the encoder hands back for the current
    /// frame.
    pub fn packet_pts_ms(&self) -> (pts: i64)
        requires
            0 <= self.frame_count <= i64::MAX / 40,
        ensures
            pts == packet_pts(self.frame_count as int),
    {
        self.frame_count * 40
    }

    /// Counts a frame handed to the encoder.
    pub fn frame_sent(&mut self)
        requires
            old(self).frame_count < i64::MAX,
        ensures
            final(self).frame_count == old(self).frame_count + 1,
            final(self).max_frames == old(self).max_frames,
    {
        self.frame_count = self.frame_count + 1;
    }

    /// Timestamp of a packet drained from the encoder at the end; each such
    /// packet counts as one more frame.
    pub fn flush_packet_pts_ms(&mut self) -> (pts: i64)
        requires
            0 <= old(self).frame_count < i64::MAX / 40,
        ensures
            pts == packet_pts(old(self).frame_count as int),
            final(self).frame_count == old(self).frame_count + 1,
            final(self).max_frames == old(self).max_frames,
    {
        let pts = self.frame_count * 40;
        self.frame_count = self.frame_count + 1;
        pts
    }
}

/// The progress after feeding decoded frames with the given timings in
/// order, and whether the run has stopped.
pub open spec fn run_frames(p: PreviewProgress, timings: Seq<FrameTiming>) -> (PreviewProgress, bool)
    decreases timings.len(),
{
    if timings.len() == 0 {
        (p, false)
    } else {
        let (q, stopped) = run_frames(p, timings.drop_last());
        if stopped {
            (q, true)
        } else {
            match step_for(q, timings.last()) {
                FrameStep::Skip => (q, false),
                FrameStep::Stop => (q, true),
                FrameStep::Encode => (
                    PreviewProgress { frame_count: (q.frame_count + 1) as i64, max_frames: q.max_frames },
                    false,
                ),
            }
        }
    }
}

/// A preview never encodes more input frames than were asked for: from a
/// fresh start, whatever frames the decoder yields, the count of encoded
/// frames stays within `max(max_frames, 0)`.
pub proof fn encoded_frames_stay_within_limit(max_frames: i64, timings: Seq<FrameTiming>)
    ensures
        ({
            let (q, _) = run_frames(PreviewProgress::new_spec(max_frames), timings);
            &&& q.max_frames == max_frames
            &&& 0 <= q.frame_count
            &&& q.frame_count <= if max_frames > 0 {
                max_frames as int
            } else {
                0
            }
        }),
    decreases timings.len(),
{
    if timings.len() > 0 {
        encoded_frames_stay_within_limit(max_frames, timings.drop_last());
    }
}

/// Number of frames at or after the start time among the given timings.
pub open spec fn frames_from_start(timings: Seq<FrameTiming>) -> nat
    decreases timings.len(),
{
    if timings.len() == 0 {
        0
    } else {
        frames_from_start(timings.drop_last()) + if timings.last() == FrameTiming::FromStart {
            1nat
        } else {
            0nat
        }
    }
}

/// Exactly the first `max(max_frames, 0)` frames from the start time are
/// encoded: after any sequence of decoded frames, the encoded count is the
/// number of frames from the start seen so far, capped there, and the run
/// has stopped exactly when a frame from the start arrived beyond the cap.
pub proof fn first_frames_from_start_are_encoded(max_frames: i64, timings: Seq<FrameTiming>)
    ensures
        ({
            let (q, stopped) = run_frames(PreviewProgress::new_spec(max_frames), timings);
            let cap: int = if max_frames > 0 {
                max_frames as int
            } else {
                0
            };
            let c = frames_from_start(timings) as int;
            &&& q.frame_count == if c <= cap {
                c
            } else {
                cap
            }
            &&& stopped == (c > cap)
        }),
    decreases timings.len(),
{
    if timings.len() > 0 {
        let p = timings.drop_last();
        first_frames_from_start_are_encoded(max_frames, p);
        encoded_frames_stay_within_limit(max_frames, p);
        let (q, stopped) = run_frames(PreviewProgress::new_spec(max_frames), p);
        assert(run_frames(PreviewProgress::new_spec(max_frames), timings) == if stopped {
            (q, true)
        } else {
            match step_for(q, timings.last()) {
                FrameStep::Skip => (q, false),
                FrameStep::Stop => (q, true),
                FrameStep::Encode => (
                    PreviewProgress { frame_count: (q.frame_count + 1) as i64, max_frames: q.max_frames },
                    false,
                ),
            }
        });
        assert(frames_from_start(timings) == frames_from_start(p) + if timings.last()
            == FrameTiming::FromStart {
            1nat
        } else {
            0nat
        });
    }
}

/// Drained packets get strictly increasing timestamps, one frame period
/// (40 ms) apart.
pub proof fn flush_timestamps_increase(frame_count: int)
    requires
        0 <= frame_count,
    ensures
        packet_pts(frame_count + 1) == packet_pts(frame_count) + 40,
{
}

/// Whether `preview_height` can be computed for this source size.
pub fn preview_height_fits(source_width: u32, source_height: u32) -> (ok: bool)
    ensures
        ok == (source_width > 0 && PREVIEW_WIDTH * source_height <= u32::MAX),
{
    source_width > 0 && (source_height as u64) * 320 <= 0xffff_ffff
}

} // verus!
