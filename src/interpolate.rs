use vstd::prelude::*;
use crate::signal::{Sample, strictly_increasing_x};

verus! {

/// Resampling applies to a decimated signal with at least two samples;
/// otherwise the signal passes through unchanged.
pub open spec fn needs_resampling(raw: Seq<Sample>, frame_step_size: int) -> bool {
    raw.len() >= 2 && frame_step_size > 1
}

/// Number of source frames from the first sample's frame to the last one's,
/// both included.
pub open spec fn frame_span(raw: Seq<Sample>) -> int {
    raw.last().x - raw[0].x + 1
}

/// The frames at which the resampled curve is evaluated: every frame index
/// from the first sample's frame on, `frame_span` of them.
pub open spec fn resample_frames(raw: Seq<Sample>) -> Seq<i64> {
    Seq::new(frame_span(raw) as nat, |i: int| (raw[0].x + i) as i64)
}

/// `v` limited to the range between `a` and `b`.
pub open spec fn clamp_between(v: int, a: int, b: int) -> int {
    let lo = if a <= b { a } else { b };
    let hi = if a <= b { b } else { a };
    if v < lo {
        lo
    } else if v > hi {
        hi
    } else {
        v
    }
}

/// The resampled value at frame `f`, where the interpolant gives `c`, looking
/// from control sample `k` on: a control frame keeps its control value; a frame
/// between two control frames takes `c`, kept within the two control values.
pub open spec fn value_from(raw: Seq<Sample>, k: int, f: int, c: int) -> int
    decreases raw.len() - k,
{
    if k < 0 || k + 1 >= raw.len() {
        raw.last().y as int
    } else if f == raw[k].x {
        raw[k].y as int
    } else if f < raw[k + 1].x {
        clamp_between(c, raw[k].y as int, raw[k + 1].y as int)
    } else {
        value_from(raw, k + 1, f, c)
    }
}

/// The resampled signal: one sample per frame of the span, its value taken from
/// the curve and kept between the neighbouring control values; or the signal
/// itself where no resampling applies.
pub open spec fn resampled(raw: Seq<Sample>, frame_step_size: int, curve: Seq<i64>) -> Seq<Sample> {
    if needs_resampling(raw, frame_step_size) {
        Seq::new(
            frame_span(raw) as nat,
            |i: int|
                Sample {
                    x: (raw[0].x + i) as i64,
                    y: value_from(raw, 0, raw[0].x + i, curve[i] as int) as i64,
                },
        )
    } else {
        raw
    }
}

proof fn lemma_value_skip(raw: Seq<Sample>, j: int, k: int, f: int, c: int)
    requires
        strictly_increasing_x(raw),
        0 <= j <= k,
        k + 1 < raw.len(),
        raw[k].x <= f,
    ensures
        value_from(raw, j, f, c) == value_from(raw, k, f, c),
    decreases k - j,
{
    if j < k {
        assert(raw[j].x < raw[j + 1].x);
        if j + 1 < k {
            assert(raw[j + 1].x < raw[k].x);
        }
        lemma_value_skip(raw, j + 1, k, f, c);
    }
}

proof fn lemma_value_between(raw: Seq<Sample>, k: int, f: int, c: int)
    requires
        strictly_increasing_x(raw),
        0 <= k,
        k + 1 < raw.len(),
        raw[k].x <= f <= raw[k + 1].x,
    ensures
        clamp_between(value_from(raw, 0, f, c), raw[k].y as int, raw[k + 1].y as int)
            == value_from(raw, 0, f, c),
{
    lemma_value_skip(raw, 0, k, f, c);
    if f != raw[k].x && f >= raw[k + 1].x {
        assert(value_from(raw, k, f, c) == value_from(raw, k + 1, f, c));
    }
}

/// The frames at which a monotone interpolant of `raw` is to be evaluated,
/// or `None` where the signal passes through unchanged.
pub fn resample_domain(raw: &Vec<Sample>, frame_step_size: u32) -> (r: Option<Vec<i64>>)
    requires
        strictly_increasing_x(raw@),
        needs_resampling(raw@, frame_step_size as int) ==> frame_span(raw@) <= usize::MAX,
    ensures
        r is Some <==> needs_resampling(raw@, frame_step_size as int),
        r matches Some(v) ==> v@ == resample_frames(raw@),
{
    if raw.len() < 2 || frame_step_size <= 1 {
        return None;
    }
    let first: i64 = raw[0].x;
    let last: i64 = raw[raw.len() - 1].x;
    let span: usize = (last as i128 - first as i128 + 1) as usize;
    let mut frames: Vec<i64> = Vec::new();
    let mut i: usize = 0;
    while i < span
        invariant
            i <= span,
            span == frame_span(raw@),
            first == raw@[0].x,
            last == raw@.last().x,
            frames@.len() == i,
            forall|k: int| 0 <= k < i ==> #[trigger] frames@[k] == (first + k) as i64,
        decreases span - i,
    {
        frames.push((first as i128 + i as i128) as i64);
        i = i + 1;
    }
    assert(frames@ =~= resample_frames(raw@));
    Some(frames)
}

/// Rebuilds a full-rate signal from a decimated one: `curve[i]` is the value
/// of a monotone interpolant of `raw` at frame `raw[0].x + i`. Control frames
/// keep their control values and no value leaves the range of the two control
/// values around it. Where no resampling applies, the signal is returned
/// unchanged.
pub fn interpolate_score(raw: Vec<Sample>, frame_step_size: u32, curve: &Vec<i64>) -> (r: Vec<Sample>)
    requires
        strictly_increasing_x(raw@),
        needs_resampling(raw@, frame_step_size as int) ==> curve@.len() == frame_span(raw@),
    ensures
        r@ == resampled(raw@, frame_step_size as int, curve@),
{
    if raw.len() < 2 || frame_step_size <= 1 {
        return raw;
    }
    let n = raw.len();
    let first: i64 = raw[0].x;
    let mut k: usize = 0;
    let mut result: Vec<Sample> = Vec::new();
    let mut i: usize = 0;
    while i < curve.len()
        invariant
            i <= curve@.len(),
            curve@.len() == frame_span(raw@),
            n == raw@.len(),
            n >= 2,
            first == raw@[0].x,
            strictly_increasing_x(raw@),
            k + 1 < n,
            raw@[k as int].x <= first + i,
            result@.len() == i,
            forall|m: int|
                0 <= m < i ==> #[trigger] result@[m] == (Sample {
                    x: (first + m) as i64,
                    y: value_from(raw@, 0, first + m, curve@[m] as int) as i64,
                }),
        decreases curve@.len() - i,
    {
        let f: i64 = (first as i128 + i as i128) as i64;
        while k + 2 < n && raw[k + 1].x <= f
            invariant
                k + 1 < n,
                n == raw@.len(),
                raw@[k as int].x <= f,
            decreases n - k,
        {
            k = k + 1;
        }
        let c: i64 = curve[i];
        let a: i64 = raw[k].y;
        let b: i64 = raw[k + 1].y;
        proof {
            lemma_value_skip(raw@, 0, k as int, f as int, c as int);
            if f != raw@[k as int].x && f >= raw@[k as int + 1].x {
                assert(k + 2 >= n);
                assert(value_from(raw@, k as int, f as int, c as int) == value_from(
                    raw@,
                    k as int + 1,
                    f as int,
                    c as int,
                ));
            }
        }
        let y: i64 = if f == raw[k].x {
            a
        } else if f < raw[k + 1].x {
            let lo = if a <= b { a } else { b };
            let hi = if a <= b { b } else { a };
            if c < lo {
                lo
            } else if c > hi {
                hi
            } else {
                c
            }
        } else {
            raw[n - 1].y
        };
        result.push(Sample { x: f, y });
        i = i + 1;
    }
    assert(result@ =~= resampled(raw@, frame_step_size as int, curve@));
    result
}

/// The resampled signal has one sample per frame of the span, and every frame
/// of the original samples is among its frames.
pub proof fn lemma_resampled_covers_samples(raw: Seq<Sample>, frame_step_size: int, curve: Seq<i64>)
    requires
        strictly_increasing_x(raw),
        needs_resampling(raw, frame_step_size),
        curve.len() == frame_span(raw),
    ensures
        resampled(raw, frame_step_size, curve).len() == frame_span(raw),
        forall|k: int|
            0 <= k < raw.len() ==> exists|j: int|
                0 <= j < resampled(raw, frame_step_size, curve).len() && resampled(
                    raw,
                    frame_step_size,
                    curve,
                )[j].x == (#[trigger] raw[k]).x,
{
    let out = resampled(raw, frame_step_size, curve);
    assert forall|k: int| 0 <= k < raw.len() implies exists|j: int|
        0 <= j < out.len() && out[j].x == (#[trigger] raw[k]).x by {
        let j = raw[k].x - raw[0].x;
        if k > 0 {
            assert(raw[0].x < raw[k].x);
        }
        if k < raw.len() - 1 {
            assert(raw[k].x < raw[raw.len() - 1].x);
        }
        assert(0 <= j < out.len());
        assert(out[j].x == raw[k].x);
    }
}

} // verus!

verus! {

/// Between two neighbouring control samples, every resampled value lies
/// within their two values: the resampled curve neither overshoots nor
/// undershoots the control values around it.
pub proof fn lemma_resampled_within_neighbours(raw: Seq<Sample>, frame_step_size: int, curve: Seq<i64>)
    requires
        strictly_increasing_x(raw),
        needs_resampling(raw, frame_step_size),
        curve.len() == frame_span(raw),
    ensures
        forall|k: int, i: int|
            0 <= k < raw.len() - 1 && 0 <= i < resampled(raw, frame_step_size, curve).len()
                && raw[k].x <= #[trigger] resampled(raw, frame_step_size, curve)[i].x <= (
            #[trigger] raw[k + 1]).x ==> {
                let y = resampled(raw, frame_step_size, curve)[i].y;
                (raw[k].y <= y <= raw[k + 1].y) || (raw[k + 1].y <= y <= raw[k].y)
            },
{
    let out = resampled(raw, frame_step_size, curve);
    assert forall|k: int, i: int|
        0 <= k < raw.len() - 1 && 0 <= i < out.len() && raw[k].x <= #[trigger] out[i].x <= (
        #[trigger] raw[k + 1]).x implies {
        let y = out[i].y;
        (raw[k].y <= y <= raw[k + 1].y) || (raw[k + 1].y <= y <= raw[k].y)
    } by {
        let f = raw[0].x + i;
        if k + 1 < raw.len() - 1 {
            assert(raw[k + 1].x < raw[raw.len() - 1].x);
        }
        assert(out[i].x == f);
        lemma_value_between(raw, k, f, curve[i] as int);
    }
}

} // verus!
