use vstd::prelude::*;
use crate::geometry::BoundingBox;

verus! {

/// Why a tracking worker stopped.
#[derive(Clone, Copy, Debug, PartialEq, Eq, Structural)]
pub enum WorkerEnd {
    /// The frame queue closed before the first frame came.
    InitFrameMissing,
    /// The tracker could not be set up on the first frame.
    SetupFailed,
    /// The tracker lost its subject.
    TrackingLost,
    /// The result queue was closed by its reader.
    ResultQueueClosed,
    /// The frame queue closed: every frame was tracked.
    FramesEnded,
}

/// An event in the life of a tracking worker.
#[derive(Clone, Copy, Debug, PartialEq, Eq, Structural)]
pub enum WorkerEvent {
    /// The frame queue closed.
    FramesClosed,
    /// Setting up the tracker on the first frame succeeded or failed.
    Initialized { ok: bool },
    /// The tracker's box in the next frame, or `None` where it lost the subject.
    Updated { result: Option<BoundingBox> },
    /// Handing the last box to the result queue succeeded or failed.
    Sent { ok: bool },
}

/// What the worker does next.
#[derive(Clone, Copy, Debug, PartialEq, Eq, Structural)]
pub enum WorkerAction {
    /// Wait for the next frame.
    NextFrame,
    /// Send this box to the result queue.
    Emit { bounding_box: BoundingBox },
    /// Close the result queue and end.
    Stop { reason: WorkerEnd },
}

#[derive(Clone, Copy, Debug, PartialEq, Eq, Structural)]
pub enum WorkerPhase {
    AwaitingInit,
    Tracking,
    Sending,
    Stopped,
}

/// The decisions of one tracking worker: one box per tracked frame, none
/// skipped, and a stop on the first failure.
#[derive(Clone, Copy, Debug)]
pub struct TrackerWorker {
    pub phase: WorkerPhase,
    /// Boxes handed to the result queue so far.
    pub emitted: u64,
}

/// The next phase and action after `e` in phase `p`.
pub open spec fn worker_step(p: WorkerPhase, e: WorkerEvent) -> (WorkerPhase, WorkerAction) {
    match (p, e) {
        (WorkerPhase::AwaitingInit, WorkerEvent::FramesClosed) => (
            WorkerPhase::Stopped,
            WorkerAction::Stop { reason: WorkerEnd::InitFrameMissing },
        ),
        (WorkerPhase::AwaitingInit, WorkerEvent::Initialized { ok }) => if ok {
            (WorkerPhase::Tracking, WorkerAction::NextFrame)
        } else {
            (WorkerPhase::Stopped, WorkerAction::Stop { reason: WorkerEnd::SetupFailed })
        },
        (WorkerPhase::Tracking, WorkerEvent::FramesClosed) => (
            WorkerPhase::Stopped,
            WorkerAction::Stop { reason: WorkerEnd::FramesEnded },
        ),
        (WorkerPhase::Tracking, WorkerEvent::Updated { result }) => match result {
            Some(b) => (WorkerPhase::Sending, WorkerAction::Emit { bounding_box: b }),
            None => (WorkerPhase::Stopped, WorkerAction::Stop { reason: WorkerEnd::TrackingLost }),
        },
        (WorkerPhase::Sending, WorkerEvent::Sent { ok }) => if ok {
            (WorkerPhase::Tracking, WorkerAction::NextFrame)
        } else {
            (WorkerPhase::Stopped, WorkerAction::Stop { reason: WorkerEnd::ResultQueueClosed })
        },
        _ => (WorkerPhase::Stopped, WorkerAction::Stop { reason: WorkerEnd::FramesEnded }),
    }
}

impl TrackerWorker {
    pub fn new() -> (r: TrackerWorker)
        ensures
            r.phase == WorkerPhase::AwaitingInit,
            r.emitted == 0,
    {
        TrackerWorker { phase: WorkerPhase::AwaitingInit, emitted: 0 }
    }

    /// Advances the worker by one event. An event that its phase does not
    /// expect stops it.
    pub fn step(&mut self, e: WorkerEvent) -> (r: WorkerAction)
        requires
            old(self).emitted < u64::MAX,
        ensures
            (final(self).phase, r) == worker_step(old(self).phase, e),
            final(self).emitted == old(self).emitted + if old(self).phase == WorkerPhase::Sending
                && e == (WorkerEvent::Sent { ok: true }) {
                1int
            } else {
                0int
            },
    {
        let (p, a) = match (self.phase, e) {
            (WorkerPhase::AwaitingInit, WorkerEvent::FramesClosed) => (
                WorkerPhase::Stopped,
                WorkerAction::Stop { reason: WorkerEnd::InitFrameMissing },
            ),
            (WorkerPhase::AwaitingInit, WorkerEvent::Initialized { ok }) => if ok {
                (WorkerPhase::Tracking, WorkerAction::NextFrame)
            } else {
                (WorkerPhase::Stopped, WorkerAction::Stop { reason: WorkerEnd::SetupFailed })
            },
            (WorkerPhase::Tracking, WorkerEvent::FramesClosed) => (
                WorkerPhase::Stopped,
                WorkerAction::Stop { reason: WorkerEnd::FramesEnded },
            ),
            (WorkerPhase::Tracking, WorkerEvent::Updated { result }) => match result {
                Some(b) => (WorkerPhase::Sending, WorkerAction::Emit { bounding_box: b }),
                None => (
                    WorkerPhase::Stopped,
                    WorkerAction::Stop { reason: WorkerEnd::TrackingLost },
                ),
            },
            (WorkerPhase::Sending, WorkerEvent::Sent { ok }) => if ok {
                self.emitted = self.emitted + 1;
                (WorkerPhase::Tracking, WorkerAction::NextFrame)
            } else {
                (
                    WorkerPhase::Stopped,
                    WorkerAction::Stop { reason: WorkerEnd::ResultQueueClosed },
                )
            },
            _ => (WorkerPhase::Stopped, WorkerAction::Stop { reason: WorkerEnd::FramesEnded }),
        };
        self.phase = p;
        a
    }
}

} // verus!
