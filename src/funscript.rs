use vstd::prelude::*;
use crate::rate::FrameRate;
use crate::signal::{Sample, strictly_increasing_x};

verus! {

/// One script action: at time `at` (milliseconds) move to position `pos`.
#[derive(Clone, Copy, Debug, PartialEq, Eq, Structural)]
pub struct FunscriptAction {
    pub pos: u8,
    pub at: u32,
}

/// The script as written out: its metadata and its actions.
#[derive(Debug)]
pub struct FunscriptContent {
    pub version: String,
    pub inverted: bool,
    pub range: u8,
    pub fps: Option<FrameRate>,
    pub actions: Vec<FunscriptAction>,
}

/// A script together with the timing it was made from.
#[derive(Debug)]
pub struct Funscript {
    pub video_fps: FrameRate,
    pub start_time_in_ms: u32,
    pub content: FunscriptContent,
}

/// The exact time of frame `x` in milliseconds, rounded down: the start time
/// plus `x` frame durations of `1000 / fps` each.
pub open spec fn frame_time(start_ms: int, fps: FrameRate, x: int) -> int {
    start_ms + (1000 * fps.den * x) / (fps.num as int)
}

/// The time of frame `x` as stored in an action, saturated at `u32::MAX`.
pub open spec fn action_time(start_ms: int, fps: FrameRate, x: int) -> u32 {
    if frame_time(start_ms, fps, x) > u32::MAX {
        u32::MAX
    } else {
        frame_time(start_ms, fps, x) as u32
    }
}

pub open spec fn action_of(p: Sample, fps: FrameRate, start_ms: int) -> FunscriptAction {
    FunscriptAction { pos: p.y as u8, at: action_time(start_ms, fps, p.x as int) }
}

/// The actions of a score, one per sample, in order.
pub open spec fn actions_of(score: Seq<Sample>, fps: FrameRate, start_ms: int) -> Seq<
    FunscriptAction,
> {
    score.map_values(|p: Sample| action_of(p, fps, start_ms))
}

/// A score the emitter takes: frame indices not negative, positions that fit a byte.
pub open spec fn emittable(score: Seq<Sample>) -> bool {
    forall|i: int| 0 <= i < score.len() ==> 0 <= (#[trigger] score[i]).x && 0 <= score[i].y <= 255
}

/// Actions with strictly increasing times.
pub open spec fn strictly_increasing_at(a: Seq<FunscriptAction>) -> bool {
    forall|i: int, j: int| 0 <= i < j < a.len() ==> a[i].at < a[j].at
}

/// At no more than 1000 frames per second, distinct frames of a score get
/// distinct, increasing action times, as long as the last of them fits `u32`.
pub proof fn lemma_action_times_increase(score: Seq<Sample>, fps: FrameRate, start_ms: u32)
    requires
        fps.wf(),
        fps.num <= 1000 * (fps.den as int),
        forall|i: int| 0 <= i < score.len() ==> 0 <= #[trigger] score[i].x,
        strictly_increasing_x(score),
        score.len() > 0 ==> frame_time(start_ms as int, fps, score.last().x as int) <= u32::MAX,
    ensures
        strictly_increasing_at(actions_of(score, fps, start_ms as int)),
{
    let a = actions_of(score, fps, start_ms as int);
    let num = fps.num as int;
    let k = 1000 * (fps.den as int);
    assert forall|i: int, j: int| 0 <= i < j < a.len() implies a[i].at < a[j].at by {
        let xi = score[i].x as int;
        let xj = score[j].x as int;
        let xl = score.last().x as int;
        if j < score.len() - 1 {
            assert(score[j].x < score[score.len() - 1].x);
        }
        assert((k * xi) / num < (k * xj) / num) by (nonlinear_arith)
            requires
                0 <= xi < xj,
                0 < num <= k,
        {
            assert(k * xj >= k * xi + k);
            assert((k * xi + k) / num >= (k * xi + num) / num);
            assert((k * xi + num) / num == (k * xi) / num + 1);
        }
        assert((k * xj) / num <= (k * xl) / num) by (nonlinear_arith)
            requires
                0 <= xj <= xl,
                0 < num,
                0 <= k,
        {
            assert(k * xj <= k * xl);
        }
    }
}

/// Time of frame `x` in milliseconds after the start, saturated at `u32::MAX`.
pub fn frame_time_ms(start_time_in_ms: u32, video_fps: FrameRate, x: i64) -> (r: u32)
    requires
        video_fps.wf(),
        x >= 0,
    ensures
        r == action_time(start_time_in_ms as int, video_fps, x as int),
{
    let den: u128 = video_fps.den as u128;
    assert(0 <= 1000 * (den as int) * (x as int) <= 1000 * 0x1_0000_0000 * 0x8000_0000_0000_0000)
        by (nonlinear_arith)
        requires
            0 <= den <= 0xffff_ffff,
            0 <= x <= 0x7fff_ffff_ffff_ffff,
    ;
    let scaled: u128 = 1000 * den * (x as u128);
    let t: u128 = start_time_in_ms as u128 + scaled / (video_fps.num as u128);
    if t > u32::MAX as u128 {
        u32::MAX
    } else {
        t as u32
    }
}

impl Funscript {
    /// The script of a score: every sample `(x, y)` becomes the action
    /// `{at: start + x * 1000 / fps, pos: y}`.
    pub fn new(video_fps: FrameRate, start_time_in_ms: u32, score: Vec<Sample>) -> (r: Self)
        requires
            video_fps.wf(),
            emittable(score@),
        ensures
            r.video_fps == video_fps,
            r.start_time_in_ms == start_time_in_ms,
            r.content.version@ == "1.0"@,
            !r.content.inverted,
            r.content.range == 90,
            r.content.fps == Some(video_fps),
            r.content.actions@ == actions_of(score@, video_fps, start_time_in_ms as int),
    {
        Funscript {
            video_fps,
            start_time_in_ms,
            content: Funscript::to_funscript_content(&score, video_fps, start_time_in_ms),
        }
    }

    /// Wraps the actions of a score with the script's metadata.
    pub fn to_funscript_content(score: &Vec<Sample>, video_fps: FrameRate, start_time_in_ms: u32) -> (r:
        FunscriptContent)
        requires
            video_fps.wf(),
            emittable(score@),
        ensures
            r.version@ == "1.0"@,
            !r.inverted,
            r.range == 90,
            r.fps == Some(video_fps),
            r.actions@ == actions_of(score@, video_fps, start_time_in_ms as int),
    {
        let mut actions: Vec<FunscriptAction> = Vec::new();
        let mut i: usize = 0;
        while i < score.len()
            invariant
                i <= score@.len(),
                video_fps.wf(),
                emittable(score@),
                actions@.len() == i,
                forall|k: int|
                    0 <= k < i ==> #[trigger] actions@[k] == action_of(
                        score@[k],
                        video_fps,
                        start_time_in_ms as int,
                    ),
            decreases score@.len() - i,
        {
            let p = score[i];
            assert(0 <= p.x && 0 <= p.y <= 255);
            let at = frame_time_ms(start_time_in_ms, video_fps, p.x);
            actions.push(FunscriptAction { pos: p.y as u8, at });
            i = i + 1;
        }
        assert(actions@ =~= actions_of(score@, video_fps, start_time_in_ms as int));
        proof {
            reveal_strlit("1.0");
        }
        FunscriptContent {
            version: "1.0".to_owned(),
            inverted: false,
            range: 90,
            fps: Some(video_fps),
            actions,
        }
    }
}

} // verus!
