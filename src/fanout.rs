use vstd::prelude::*;
use crate::rate::FrameRate;

verus! {

/// What the hub does with the frame that just arrived from the decoder.
#[derive(Clone, Copy, Debug, PartialEq, Eq, Structural)]
pub enum HubAction {
    /// Not a sampled frame: drop it.
    Skip,
    /// Hand it to every consumer queue, in order.
    Deliver,
    /// Stop and close every queue.
    Finish,
}

/// Why the hub stopped before the frames ran out.
#[derive(Clone, Copy, Debug, PartialEq, Eq, Structural)]
pub enum HubError {
    /// A consumer queue was closed while frames were still being delivered.
    ConsumerClosed,
}

/// The decisions of the frame fan-out: which decoded frames are sampled,
/// when the configured end is reached, and when a closed consumer ends the
/// run.
#[derive(Clone, Copy, Debug)]
pub struct FrameGate {
    /// Every `step`-th frame, counting from the first, is delivered.
    pub step: u32,
    /// Frames after this many are not delivered; zero means no limit.
    pub stop_frame_count: u64,
    /// Frames seen so far.
    pub frame_number: u64,
    /// Frames delivered so far.
    pub delivered: u64,
    /// A consumer queue has closed.
    pub closed: bool,
}

/// The decision on the `n`-th frame (counting from 1).
pub open spec fn gate_action(n: int, step: int, stop_frame_count: int, closed: bool) -> HubAction {
    if closed {
        HubAction::Finish
    } else if (n - 1) % step != 0 {
        HubAction::Skip
    } else if stop_frame_count > 0 && stop_frame_count < n {
        HubAction::Finish
    } else {
        HubAction::Deliver
    }
}

/// Index of the frame shown at `ms` milliseconds, rounded down.
pub open spec fn frame_at(ms: int, fps: FrameRate) -> int {
    (ms * fps.num) / (1000 * fps.den as int)
}

/// Number of frames between the start time and the end time; zero (no limit)
/// without an end time or where the end does not come after the start.
pub open spec fn stop_frames(start_ms: int, end_ms: Option<u32>, fps: FrameRate) -> int {
    match end_ms {
        Some(e) => if frame_at(e as int, fps) > frame_at(start_ms, fps) {
            frame_at(e as int, fps) - frame_at(start_ms, fps)
        } else {
            0
        },
        None => 0,
    }
}

fn frame_at_ms(ms: u32, fps: FrameRate) -> (r: u64)
    requires
        fps.wf(),
    ensures
        r == frame_at(ms as int, fps),
{
    assert(0 <= (ms as int) * (fps.num as int) <= 0xffff_ffff * 0xffff_ffff) by (nonlinear_arith)
        requires
            0 <= ms <= 0xffff_ffff,
            0 <= fps.num <= 0xffff_ffff,
    ;
    assert(1000 * (fps.den as int) >= 1);
    let p: u64 = ms as u64 * fps.num as u64;
    let q: u64 = 1000 * fps.den as u64;
    assert((p as int) / (q as int) <= p) by (nonlinear_arith)
        requires
            0 <= p,
            q >= 1,
    ;
    p / q
}

/// The frame limit for a run from `start_time_in_ms` to `end_time_in_ms`.
pub fn stop_frame_count(start_time_in_ms: u32, end_time_in_ms: Option<u32>, video_fps: FrameRate) -> (r: u64)
    requires
        video_fps.wf(),
    ensures
        r == stop_frames(start_time_in_ms as int, end_time_in_ms, video_fps),
{
    match end_time_in_ms {
        Some(end) => {
            let start_frame = frame_at_ms(start_time_in_ms, video_fps);
            let stop_frame = frame_at_ms(end, video_fps);
            if stop_frame > start_frame {
                stop_frame - start_frame
            } else {
                0
            }
        },
        None => 0,
    }
}

impl FrameGate {
    pub open spec fn wf(&self) -> bool {
        self.step >= 1 && self.delivered <= self.frame_number
    }

    /// A gate before the first frame.
    pub fn new(step: u32, stop_frame_count: u64) -> (r: FrameGate)
        requires
            step >= 1,
        ensures
            r.wf(),
            r.step == step,
            r.stop_frame_count == stop_frame_count,
            r.frame_number == 0,
            r.delivered == 0,
            !r.closed,
    {
        FrameGate { step, stop_frame_count, frame_number: 0, delivered: 0, closed: false }
    }

    /// Decides on the next decoded frame. Frames `1, 1 + step, 1 + 2 * step, ...`
    /// are delivered until the frame limit is passed or a consumer has closed.
    pub fn on_frame(&mut self) -> (r: HubAction)
        requires
            old(self).wf(),
            old(self).frame_number < u64::MAX,
        ensures
            final(self).wf(),
            final(self).step == old(self).step,
            final(self).stop_frame_count == old(self).stop_frame_count,
            final(self).closed == old(self).closed,
            final(self).frame_number == old(self).frame_number + 1,
            r == gate_action(
                final(self).frame_number as int,
                old(self).step as int,
                old(self).stop_frame_count as int,
                old(self).closed,
            ),
            final(self).delivered == old(self).delivered + if r == HubAction::Deliver {
                1int
            } else {
                0int
            },
    {
        self.frame_number = self.frame_number + 1;
        let r = if self.closed {
            HubAction::Finish
        } else if (self.frame_number - 1) % (self.step as u64) != 0 {
            HubAction::Skip
        } else if self.stop_frame_count > 0 && self.stop_frame_count < self.frame_number {
            HubAction::Finish
        } else {
            HubAction::Deliver
        };
        if let HubAction::Deliver = r {
            self.delivered = self.delivered + 1;
        }
        r
    }

    /// Records that a consumer queue refused a frame: the hub stops, and
    /// every later frame is answered with `Finish`.
    pub fn on_consumer_closed(&mut self) -> (r: HubError)
        requires
            old(self).wf(),
        ensures
            final(self).wf(),
            final(self).closed,
            final(self).step == old(self).step,
            final(self).stop_frame_count == old(self).stop_frame_count,
            final(self).frame_number == old(self).frame_number,
            final(self).delivered == old(self).delivered,
            r == HubError::ConsumerClosed,
    {
        self.closed = true;
        HubError::ConsumerClosed
    }
}

} // verus!
