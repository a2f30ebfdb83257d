use vstd::prelude::*;
use crate::geometry::BoundingBox;
use crate::signal::{seq_min, min_upto, lemma_min_upto};

verus! {

/// Assembles one frame slot from the box each worker reported for it, in
/// worker order. A worker that reported nothing (its queue closed) ends the
/// trajectory: the slot is then incomplete and yields `None`.
pub fn complete_slot(results: Vec<Option<BoundingBox>>) -> (r: Option<Vec<BoundingBox>>)
    ensures
        r is Some <==> forall|i: int| 0 <= i < results@.len() ==> (#[trigger] results@[i]) is Some,
        r matches Some(v) ==> v@.len() == results@.len() && forall|i: int|
            0 <= i < results@.len() ==> results@[i] == Some(#[trigger] v@[i]),
{
    let mut slot: Vec<BoundingBox> = Vec::new();
    let mut i: usize = 0;
    while i < results.len()
        invariant
            i <= results@.len(),
            slot@.len() == i,
            forall|k: int| 0 <= k < i ==> results@[k] == Some(#[trigger] slot@[k]),
        decreases results@.len() - i,
    {
        match results[i] {
            Some(b) => slot.push(b),
            None => {
                assert(!(results@[i as int] is Some));
                return None;
            },
        }
        i = i + 1;
    }
    assert forall|k: int| 0 <= k < results@.len() implies (#[trigger] results@[k]) is Some by {
        assert(results@[k] == Some(slot@[k]));
    }
    Some(slot)
}

/// Number of complete slots in per-worker tracks: the length of the shortest
/// track, or zero without workers.
pub open spec fn common_len(tracks: Seq<Vec<BoundingBox>>) -> int {
    if tracks.len() == 0 {
        0
    } else {
        seq_min(tracks.map_values(|t: Vec<BoundingBox>| t@.len() as int))
    }
}

/// Aligns per-worker box tracks by slot index: slot `i` holds the `i`-th box of
/// every worker, in worker order. The result stops at the last slot that every
/// worker completed.
pub fn align_tracks(tracks: &Vec<Vec<BoundingBox>>) -> (r: Vec<Vec<BoundingBox>>)
    ensures
        r@.len() == common_len(tracks@),
        forall|i: int|
            0 <= i < r@.len() ==> (#[trigger] r@[i])@.len() == tracks@.len() && forall|w: int|
                0 <= w < tracks@.len() ==> r@[i]@[w] == (#[trigger] tracks@[w])@[i],
{
    let mut result: Vec<Vec<BoundingBox>> = Vec::new();
    if tracks.len() == 0 {
        return result;
    }
    let ghost lens = tracks@.map_values(|t: Vec<BoundingBox>| t@.len() as int);
    let mut n: usize = tracks[0].len();
    let mut w: usize = 1;
    while w < tracks.len()
        invariant
            1 <= w <= tracks@.len(),
            lens == tracks@.map_values(|t: Vec<BoundingBox>| t@.len() as int),
            n == min_upto(lens, w as int),
        decreases tracks@.len() - w,
    {
        if tracks[w].len() < n {
            n = tracks[w].len();
        }
        w = w + 1;
    }
    proof {
        lemma_min_upto(lens, lens.len() as int);
    }
    let mut i: usize = 0;
    while i < n
        invariant
            i <= n,
            n == seq_min(lens),
            lens == tracks@.map_values(|t: Vec<BoundingBox>| t@.len() as int),
            forall|k: int| 0 <= k < tracks@.len() ==> n <= #[trigger] lens[k],
            result@.len() == i,
            forall|k: int|
                0 <= k < i ==> (#[trigger] result@[k])@.len() == tracks@.len() && forall|v: int|
                    0 <= v < tracks@.len() ==> result@[k]@[v] == (#[trigger] tracks@[v])@[k],
        decreases n - i,
    {
        let mut slot: Vec<BoundingBox> = Vec::new();
        let mut v: usize = 0;
        while v < tracks.len()
            invariant
                v <= tracks@.len(),
                i < n,
                lens == tracks@.map_values(|t: Vec<BoundingBox>| t@.len() as int),
                forall|k: int| 0 <= k < tracks@.len() ==> n <= #[trigger] lens[k],
                slot@.len() == v,
                forall|k: int| 0 <= k < v ==> #[trigger] slot@[k] == tracks@[k]@[i as int],
            decreases tracks@.len() - v,
        {
            assert(lens[v as int] == tracks@[v as int]@.len());
            slot.push(tracks[v][i]);
            v = v + 1;
        }
        result.push(slot);
        i = i + 1;
    }
    result
}

} // verus!

verus! {

/// What the collection loop does after a frame slot.
#[derive(Clone, Copy, Debug, PartialEq, Eq, Structural)]
pub enum SlotOutcome {
    /// The slot was complete and is stored; `preview` tells whether this slot
    /// is one to show.
    Stored { preview: bool },
    /// A worker's queue closed: the trajectory ends at the last complete slot.
    Truncated,
}

/// Joins the workers' results slot by slot into the run's trajectory.
pub struct SlotCollector {
    /// Every `preview_frames`-th slot, counting from the first, is shown.
    pub preview_frames: u32,
    /// The complete slots so far, each with one box per worker.
    pub records: Vec<Vec<BoundingBox>>,
    /// No slot is taken after a truncation.
    pub truncated: bool,
}

/// The `n`-th slot (counting from 1) is shown.
pub open spec fn is_preview_slot(n: int, preview_frames: int) -> bool {
    (n - 1) % preview_frames == 0
}

pub open spec fn slots_view(v: Seq<Vec<BoundingBox>>) -> Seq<Seq<BoundingBox>> {
    v.map_values(|r: Vec<BoundingBox>| r@)
}

/// The boxes of a complete slot, in worker order.
pub open spec fn slot_boxes(results: Seq<Option<BoundingBox>>) -> Seq<BoundingBox> {
    results.map_values(|o: Option<BoundingBox>| o->Some_0)
}

impl SlotCollector {
    pub open spec fn wf(&self) -> bool {
        self.preview_frames >= 1
    }

    pub fn new(preview_frames: u32) -> (r: SlotCollector)
        requires
            preview_frames >= 1,
        ensures
            r.wf(),
            r.preview_frames == preview_frames,
            r.records@.len() == 0,
            !r.truncated,
    {
        SlotCollector { preview_frames, records: Vec::new(), truncated: false }
    }

    /// Takes one slot: one result per worker, `None` for a worker whose queue
    /// closed. A complete slot is appended to the records; an incomplete one,
    /// or any slot after it, ends the trajectory and leaves the records as
    /// they are.
    pub fn push_slot(&mut self, results: Vec<Option<BoundingBox>>) -> (r: SlotOutcome)
        requires
            old(self).wf(),
            old(self).records@.len() < u64::MAX,
        ensures
            final(self).wf(),
            final(self).preview_frames == old(self).preview_frames,
            !old(self).truncated && (forall|i: int|
                0 <= i < results@.len() ==> (#[trigger] results@[i]) is Some) ==> r == (
            SlotOutcome::Stored {
                preview: is_preview_slot(
                    old(self).records@.len() + 1int,
                    old(self).preview_frames as int,
                ),
            }) && !final(self).truncated && slots_view(final(self).records@) == slots_view(
                old(self).records@,
            ).push(slot_boxes(results@)),
            old(self).truncated || (exists|i: int|
                0 <= i < results@.len() && (#[trigger] results@[i]) is None) ==> r
                == SlotOutcome::Truncated && final(self).truncated && final(self).records@
                == old(self).records@,
    {
        if self.truncated {
            return SlotOutcome::Truncated;
        }
        match complete_slot(results) {
            Some(slot) => {
                let ghost before = self.records@;
                let n: u64 = self.records.len() as u64 + 1;
                self.records.push(slot);
                proof {
                    assert(slot@ =~= slot_boxes(results@));
                    assert(slots_view(self.records@) =~= slots_view(before).push(slot_boxes(results@)));
                }
                SlotOutcome::Stored { preview: (n - 1) % (self.preview_frames as u64) == 0 }
            },
            None => {
                self.truncated = true;
                SlotOutcome::Truncated
            },
        }
    }
}

} // verus!
