use vstd::prelude::*;
use crate::config::ConfigError;
use crate::geometry::{BoundingBox, CenterPoint, center_of};
use crate::signal::{
    Sample,
    ys,
    seq_min,
    seq_max,
    strictly_increasing_x,
    min_upto,
    lemma_min_upto,
    lemma_max_upto,
    y_extrema,
};

verus! {

/// Synchronized tracking results: one record per frame slot, holding the
/// center of every tracked subject's box in that slot.
pub struct TrackingTrajectories {
    /// Number of source frames between two tracked frames.
    pub timestep: u32,
    /// Number of tracked subjects.
    pub trackers: usize,
    /// `trajectories[slot][subject]`.
    pub trajectories: Vec<Vec<CenterPoint>>,
}

/// The records as mathematical sequences.
pub open spec fn records_view(v: Seq<Vec<CenterPoint>>) -> Seq<Seq<CenterPoint>> {
    v.map_values(|r: Vec<CenterPoint>| r@)
}

/// Per-slot centers of per-slot boxes.
pub open spec fn centers_of(boxes: Seq<Seq<BoundingBox>>) -> Seq<Seq<CenterPoint>> {
    boxes.map_values(|r: Seq<BoundingBox>| r.map_values(|b: BoundingBox| center_of(b)))
}

pub open spec fn boxes_view(v: Seq<Vec<BoundingBox>>) -> Seq<Seq<BoundingBox>> {
    v.map_values(|r: Vec<BoundingBox>| r@)
}

/// A center that a box in `i32` pixel space can have.
pub open spec fn center_in_range(c: CenterPoint) -> bool {
    -0x1_0000_0000 <= c.x <= 0x1_0000_0000 && -0x1_0000_0000 <= c.y <= 0x1_0000_0000
}

/// Every record holds one center per subject, each in range.
pub open spec fn records_well_formed(recs: Seq<Seq<CenterPoint>>, trackers: int) -> bool {
    forall|i: int|
        0 <= i < recs.len() ==> #[trigger] recs[i].len() >= trackers && forall|j: int|
            0 <= j < recs[i].len() ==> center_in_range(#[trigger] recs[i][j])
}

/// Every center is one that a box in `i32` pixel space can have.
pub open spec fn centers_in_range(recs: Seq<Seq<CenterPoint>>) -> bool {
    forall|i: int, j: int|
        0 <= i < recs.len() && 0 <= j < recs[i].len() ==> center_in_range(#[trigger] recs[i][j])
}

/// Index of the first slot from `k` on that lacks a center for some subject,
/// or the number of slots where there is none.
pub open spec fn complete_from(recs: Seq<Seq<CenterPoint>>, trackers: int, k: int) -> int
    decreases recs.len() - k,
{
    if k >= recs.len() {
        recs.len() as int
    } else if recs[k].len() < trackers {
        k
    } else {
        complete_from(recs, trackers, k + 1)
    }
}

/// The slots before the first incomplete one: a tracker that stopped early
/// ends the trajectory there.
pub open spec fn complete_prefix(recs: Seq<Seq<CenterPoint>>, trackers: int) -> Seq<Seq<CenterPoint>> {
    recs.take(complete_from(recs, trackers, 0))
}

/// Vertical position of the first subject in each slot.
pub open spec fn first_ys(recs: Seq<Seq<CenterPoint>>) -> Seq<int> {
    recs.map_values(|r: Seq<CenterPoint>| r[0].y as int)
}

/// The motion value of slot `i`: with one subject, its height above the lowest
/// position it reaches over the whole run; with two, the vertical distance
/// from the second subject to the first.
pub open spec fn motion_value(recs: Seq<Seq<CenterPoint>>, i: int, trackers: int) -> int {
    if trackers == 1 {
        recs[i][0].y - seq_min(first_ys(recs))
    } else {
        recs[i][0].y - recs[i][1].y
    }
}

/// The frame index of slot `i`; the initialization frame yields no slot.
pub open spec fn slot_frame(i: int, timestep: int) -> int {
    (i + 1) * timestep
}

/// The motion signal of a run, one sample per slot.
pub open spec fn motion_signal(recs: Seq<Seq<CenterPoint>>, trackers: int, timestep: int) -> Seq<
    Sample,
> {
    Seq::new(
        recs.len(),
        |i: int|
            Sample {
                x: slot_frame(i, timestep) as i64,
                y: motion_value(recs, i, trackers) as i64,
            },
    )
}

/// `a / d` for `d > 0`, rounded toward zero.
pub open spec fn trunc_div(a: int, d: int) -> int {
    if a >= 0 {
        a / d
    } else {
        -((-a) / d)
    }
}

/// Where a value falls once `[mn, mx]` is mapped linearly onto `[lo, up]`:
/// `lo + (up - lo) * (y - mn) / (mx - mn)`, rounded toward zero. A constant
/// signal maps to `lo`.
pub open spec fn scaled(y: int, mn: int, mx: int, lo: int, up: int) -> int {
    if mx == mn {
        lo
    } else {
        trunc_div(lo * (mx - mn) + (up - lo) * (y - mn), mx - mn)
    }
}

pub open spec fn bound_or(b: Option<i32>, default: int) -> int {
    match b {
        Some(v) => v as int,
        None => default,
    }
}

/// A signal rescaled onto `[lo, up]` by its own extrema.
pub open spec fn scaled_signal(s: Seq<Sample>, lo: int, up: int) -> Seq<Sample> {
    s.map_values(
        |p: Sample| Sample { x: p.x, y: scaled(p.y as int, seq_min(ys(s)), seq_max(ys(s)), lo, up) as i64 },
    )
}

proof fn lemma_trunc_div_exact(v: int, d: int)
    requires
        0 < d,
    ensures
        trunc_div(v * d, d) == v,
{
    if v >= 0 {
        assert(v * d >= 0) by (nonlinear_arith)
            requires
                v >= 0,
                d > 0,
        ;
        vstd::arithmetic::div_mod::lemma_div_by_multiple(v, d);
    } else {
        assert(v * d < 0 && -(v * d) == (-v) * d) by (nonlinear_arith)
            requires
                v < 0,
                d > 0,
        ;
        vstd::arithmetic::div_mod::lemma_div_by_multiple(-v, d);
    }
}

proof fn lemma_trunc_div_between(n: int, d: int, lo: int, hi: int)
    requires
        0 < d,
        lo * d <= n <= hi * d,
    ensures
        lo <= trunc_div(n, d) <= hi,
{
    if n >= 0 {
        vstd::arithmetic::div_mod::lemma_div_is_ordered(0, n, d);
        assert(hi >= 0) by (nonlinear_arith)
            requires
                0 <= n <= hi * d,
                d > 0,
        ;
        vstd::arithmetic::div_mod::lemma_div_is_ordered(n, hi * d, d);
        vstd::arithmetic::div_mod::lemma_div_by_multiple(hi, d);
        if lo > 0 {
            assert(lo * d >= 0) by (nonlinear_arith)
                requires
                    lo > 0,
                    d > 0,
            ;
            vstd::arithmetic::div_mod::lemma_div_is_ordered(lo * d, n, d);
            vstd::arithmetic::div_mod::lemma_div_by_multiple(lo, d);
        }
    } else {
        let m = -n;
        assert(-lo > 0 && m <= (-lo) * d) by (nonlinear_arith)
            requires
                lo * d <= n,
                n < 0,
                m == -n,
                d > 0,
        ;
        vstd::arithmetic::div_mod::lemma_div_is_ordered(m, (-lo) * d, d);
        vstd::arithmetic::div_mod::lemma_div_by_multiple(-lo, d);
        vstd::arithmetic::div_mod::lemma_div_is_ordered(0, m, d);
        if -hi > 0 {
            assert((-hi) * d <= m) by (nonlinear_arith)
                requires
                    n <= hi * d,
                    m == -n,
            ;
            vstd::arithmetic::div_mod::lemma_div_is_ordered((-hi) * d, m, d);
            vstd::arithmetic::div_mod::lemma_div_by_multiple(-hi, d);
        }
    }
}

proof fn lemma_scaled_between(y: int, mn: int, mx: int, lo: int, up: int)
    requires
        mn <= y <= mx,
        mn < mx,
    ensures
        lo <= up ==> lo <= scaled(y, mn, mx, lo, up) <= up,
        up < lo ==> up <= scaled(y, mn, mx, lo, up) <= lo,
        y == mn ==> scaled(y, mn, mx, lo, up) == lo,
        y == mx ==> scaled(y, mn, mx, lo, up) == up,
{
    let d = mx - mn;
    let b = y - mn;
    let n = lo * d + (up - lo) * b;
    if lo <= up {
        assert(lo * d <= n <= up * d) by (nonlinear_arith)
            requires
                n == lo * d + (up - lo) * b,
                0 <= b <= d,
                lo <= up,
        ;
        lemma_trunc_div_between(n, d, lo, up);
    } else {
        assert(up * d <= n <= lo * d) by (nonlinear_arith)
            requires
                n == lo * d + (up - lo) * b,
                0 <= b <= d,
                up < lo,
        ;
        lemma_trunc_div_between(n, d, up, lo);
    }
    if y == mn {
        assert(n == lo * d) by (nonlinear_arith)
            requires
                n == lo * d + (up - lo) * b,
                b == 0,
        ;
        lemma_trunc_div_exact(lo, d);
    }
    if y == mx {
        assert(n == up * d) by (nonlinear_arith)
            requires
                n == lo * d + (up - lo) * b,
                b == d,
        ;
        lemma_trunc_div_exact(up, d);
    }
}

/// Normalizing a signal whose values are not all equal puts its smallest value
/// exactly at `lower` and its largest exactly at `upper`; a constant signal
/// becomes constant at `lower`.
pub proof fn lemma_scale_y_extremes(s: Seq<Sample>, lower: i32, upper: i32)
    requires
        s.len() > 0,
    ensures
        lower <= upper && seq_min(ys(s)) < seq_max(ys(s)) ==> seq_min(
            ys(scaled_signal(s, lower as int, upper as int)),
        ) == lower && seq_max(ys(scaled_signal(s, lower as int, upper as int))) == upper,
        seq_min(ys(s)) == seq_max(ys(s)) ==> forall|i: int|
            0 <= i < s.len() ==> #[trigger] scaled_signal(s, lower as int, upper as int)[i].y
                == lower,
{
    let lo = lower as int;
    let up = upper as int;
    let t = scaled_signal(s, lo, up);
    let v = ys(s);
    let w = ys(t);
    let mn = seq_min(v);
    let mx = seq_max(v);
    lemma_min_upto(v, v.len() as int);
    lemma_max_upto(v, v.len() as int);
    if lo <= up && mn < mx {
        assert forall|k: int| 0 <= k < s.len() implies lo <= #[trigger] w[k] <= up by {
            assert(v[k] == s[k].y);
            lemma_scaled_between(v[k], mn, mx, lo, up);
        }
        let k0 = choose|k: int| 0 <= k < v.len() && mn == v[k];
        let k1 = choose|k: int| 0 <= k < v.len() && mx == v[k];
        lemma_scaled_between(v[k0], mn, mx, lo, up);
        lemma_scaled_between(v[k1], mn, mx, lo, up);
        assert(w[k0] == lo);
        assert(w[k1] == up);
        lemma_min_upto(w, w.len() as int);
        lemma_max_upto(w, w.len() as int);
    }
}

impl TrackingTrajectories {
    /// Builds the synchronized record of a run from per-slot tracking boxes.
    pub fn new(timestep: u32, trackers: usize, tracking_trajectories: Vec<Vec<BoundingBox>>) -> (r:
        Self)
        ensures
            r.timestep == timestep,
            r.trackers == trackers,
            records_view(r.trajectories@) == centers_of(boxes_view(tracking_trajectories@)),
    {
        TrackingTrajectories {
            timestep,
            trackers,
            trajectories: TrackingTrajectories::get_center_points(tracking_trajectories),
        }
    }

    /// Replaces every box by its center, keeping the slot and subject layout.
    pub fn get_center_points(tracking_trajectories: Vec<Vec<BoundingBox>>) -> (r: Vec<
        Vec<CenterPoint>,
    >)
        ensures
            records_view(r@) == centers_of(boxes_view(tracking_trajectories@)),
    {
        let mut result: Vec<Vec<CenterPoint>> = Vec::new();
        let mut i: usize = 0;
        while i < tracking_trajectories.len()
            invariant
                i <= tracking_trajectories@.len(),
                result@.len() == i,
                forall|k: int|
                    0 <= k < i ==> (#[trigger] result@[k])@ == tracking_trajectories@[k]@.map_values(
                        |b: BoundingBox| center_of(b),
                    ),
            decreases tracking_trajectories@.len() - i,
        {
            let t = &tracking_trajectories[i];
            let mut slot: Vec<CenterPoint> = Vec::new();
            let mut j: usize = 0;
            while j < t.len()
                invariant
                    j <= t@.len(),
                    slot@.len() == j,
                    forall|k: int| 0 <= k < j ==> #[trigger] slot@[k] == center_of(t@[k]),
                decreases t@.len() - j,
            {
                slot.push(t[j].center());
                j = j + 1;
            }
            assert(slot@ =~= t@.map_values(|b: BoundingBox| center_of(b)));
            result.push(slot);
            i = i + 1;
        }
        assert(records_view(result@) =~= centers_of(boxes_view(tracking_trajectories@)));
        result
    }

    /// Reduces each slot to one motion value. The sample of slot `i` stands at
    /// frame `(i + 1) * timestep`. The signal ends before the first slot that
    /// lacks a center for some subject.
    pub fn get_y_diff(&self) -> (r: Result<Vec<Sample>, ConfigError>)
        requires
            centers_in_range(records_view(self.trajectories@)),
            (self.trajectories@.len() + 1) * (self.timestep as int) <= i64::MAX,
        ensures
            self.trackers != 1 && self.trackers != 2 ==> r == Err::<Vec<Sample>, ConfigError>(
                ConfigError::InvalidSubjectCount,
            ),
            (self.trackers == 1 || self.trackers == 2) && self.timestep == 0 ==> r == Err::<
                Vec<Sample>,
                ConfigError,
            >(ConfigError::InvalidStep),
            (self.trackers == 1 || self.trackers == 2) && self.timestep > 0 ==> r is Ok,
            r matches Ok(v) ==> v@ == motion_signal(
                complete_prefix(records_view(self.trajectories@), self.trackers as int),
                self.trackers as int,
                self.timestep as int,
            ) && strictly_increasing_x(v@),
    {
        if self.trackers != 1 && self.trackers != 2 {
            return Err(ConfigError::InvalidSubjectCount);
        }
        if self.timestep == 0 {
            return Err(ConfigError::InvalidStep);
        }
        let ghost all = records_view(self.trajectories@);
        let ghost t = self.trackers as int;
        let mut n: usize = 0;
        while n < self.trajectories.len() && self.trajectories[n].len() >= self.trackers
            invariant
                n <= self.trajectories@.len(),
                all == records_view(self.trajectories@),
                t == self.trackers,
                complete_from(all, t, 0) == complete_from(all, t, n as int),
                forall|j: int| 0 <= j < n ==> #[trigger] all[j].len() >= t,
            decreases self.trajectories@.len() - n,
        {
            n = n + 1;
        }
        let ghost recs = all.take(n as int);
        proof {
            assert(complete_from(all, t, n as int) == n);
            assert(recs == complete_prefix(all, t));
            assert forall|i: int| 0 <= i < recs.len() implies #[trigger] recs[i].len() >= t && forall|
                j: int,
            | 0 <= j < recs[i].len() ==> center_in_range(#[trigger] recs[i][j]) by {
                assert(recs[i] == all[i]);
                assert forall|j: int| 0 <= j < recs[i].len() implies center_in_range(
                    #[trigger] recs[i][j],
                ) by {
                    assert(center_in_range(all[i][j]));
                }
            }
            assert(records_well_formed(recs, t));
            assert((n + 1) * (self.timestep as int) <= (self.trajectories@.len() + 1) * (
            self.timestep as int)) by (nonlinear_arith)
                requires
                    n <= self.trajectories@.len(),
            ;
        }
        let mut min_y: i64 = 0;
        if self.trackers == 1 && n > 0 {
            assert(recs[0].len() >= 1);
            min_y = self.trajectories[0][0].y;
            let mut i: usize = 1;
            while i < n
                invariant
                    1 <= i <= n,
                    n <= self.trajectories@.len(),
                    recs == records_view(self.trajectories@).take(n as int),
                    self.trackers == 1,
                    records_well_formed(recs, 1),
                    first_ys(recs).len() == n,
                    min_y == min_upto(first_ys(recs), i as int),
                decreases n - i,
            {
                assert(recs[i as int].len() >= 1);
                let y = self.trajectories[i][0].y;
                if y < min_y {
                    min_y = y;
                }
                i = i + 1;
            }
            proof {
                lemma_min_upto(first_ys(recs), n as int);
                let k = choose|k: int| 0 <= k < n && min_y == first_ys(recs)[k];
                assert(recs[k].len() >= 1 && center_in_range(recs[k][0]));
            }
        }
        let mut result: Vec<Sample> = Vec::new();
        let mut i: usize = 0;
        while i < n
            invariant
                i <= n,
                n <= self.trajectories@.len(),
                recs == records_view(self.trajectories@).take(n as int),
                self.trackers == 1 || self.trackers == 2,
                self.timestep > 0,
                (n + 1) * (self.timestep as int) <= i64::MAX,
                records_well_formed(recs, self.trackers as int),
                self.trackers == 1 && n > 0 ==> min_y == seq_min(first_ys(recs)),
                self.trackers == 1 && n > 0 ==> -0x1_0000_0000 <= min_y <= 0x1_0000_0000,
                result@.len() == i,
                forall|k: int|
                    0 <= k < i ==> #[trigger] result@[k] == motion_signal(
                        recs,
                        self.trackers as int,
                        self.timestep as int,
                    )[k],
            decreases n - i,
        {
            assert(recs[i as int].len() >= self.trackers);
            assert(center_in_range(recs[i as int][0]));
            proof {
                assert((i + 1) * (self.timestep as int) <= (n + 1) * (self.timestep as int))
                    by (nonlinear_arith)
                    requires
                        i < n,
                        self.timestep > 0,
                ;
            }
            let x: i64 = ((i as u64 + 1) * (self.timestep as u64)) as i64;
            let y: i64 = if self.trackers == 1 {
                self.trajectories[i][0].y - min_y
            } else {
                assert(center_in_range(recs[i as int][1]));
                self.trajectories[i][0].y - self.trajectories[i][1].y
            };
            result.push(Sample { x, y });
            i = i + 1;
        }
        proof {
            let s = motion_signal(recs, self.trackers as int, self.timestep as int);
            assert(result@ =~= s);
            assert forall|a: int, b: int| 0 <= a < b < s.len() implies s[a].x < s[b].x by {
                assert((a + 1) * (self.timestep as int) < (b + 1) * (self.timestep as int))
                    by (nonlinear_arith)
                    requires
                        a < b,
                        self.timestep > 0,
                ;
                assert((b + 1) * (self.timestep as int) <= (n + 1) * (self.timestep as int))
                    by (nonlinear_arith)
                    requires
                        b < n,
                        self.timestep > 0,
                ;
            }
        }
        Ok(result)
    }

    /// Rescales a signal linearly so that its smallest value lands on `lower`
    /// (default 0) and its largest on `upper` (default 100). A constant signal
    /// lands entirely on `lower`.
    pub fn scale_y(input: Vec<Sample>, lower: Option<i32>, upper: Option<i32>) -> (r: Vec<Sample>)
        ensures
            r@ == scaled_signal(input@, bound_or(lower, 0), bound_or(upper, 100)),
    {
        if input.len() == 0 {
            let r: Vec<Sample> = Vec::new();
            assert(r@ =~= scaled_signal(input@, bound_or(lower, 0), bound_or(upper, 100)));
            return r;
        }
        let lo: i32 = match lower {
            Some(v) => v,
            None => 0,
        };
        let up: i32 = match upper {
            Some(v) => v,
            None => 100,
        };
        let (mn, mx) = y_extrema(&input);
        let ghost v = ys(input@);
        proof {
            lemma_min_upto(v, v.len() as int);
            lemma_max_upto(v, v.len() as int);
        }
        let mut result: Vec<Sample> = Vec::new();
        let mut i: usize = 0;
        while i < input.len()
            invariant
                i <= input@.len(),
                v == ys(input@),
                v.len() == input@.len(),
                mn == seq_min(v),
                mx == seq_max(v),
                forall|k: int| 0 <= k < input@.len() ==> mn <= #[trigger] v[k] <= mx,
                result@.len() == i,
                forall|k: int|
                    0 <= k < i ==> #[trigger] result@[k] == scaled_signal(
                        input@,
                        lo as int,
                        up as int,
                    )[k],
            decreases input@.len() - i,
        {
            let p = input[i];
            assert(v[i as int] == p.y);
            let y: i64 = if mx == mn {
                lo as i64
            } else {
                proof {
                    lemma_scaled_between(p.y as int, mn as int, mx as int, lo as int, up as int);
                }
                let d: i128 = mx as i128 - mn as i128;
                let off: i128 = p.y as i128 - mn as i128;
                let l: i128 = lo as i128;
                let a: i128 = up as i128 - lo as i128;
                assert(-0x8000_0000 * 0x1_0000_0000_0000_0000 <= l * d <= 0x8000_0000
                    * 0x1_0000_0000_0000_0000) by (nonlinear_arith)
                    requires
                        -0x8000_0000 <= l <= 0x8000_0000,
                        0 < d <= 0x1_0000_0000_0000_0000,
                ;
                assert(-0x1_0000_0000 * 0x1_0000_0000_0000_0000 <= a * off <= 0x1_0000_0000
                    * 0x1_0000_0000_0000_0000) by (nonlinear_arith)
                    requires
                        -0x1_0000_0000 <= a <= 0x1_0000_0000,
                        0 <= off <= 0x1_0000_0000_0000_0000,
                ;
                let n: i128 = l * d + a * off;
                let q: i128 = if n >= 0 {
                    n / d
                } else {
                    -((-n) / d)
                };
                q as i64
            };
            result.push(Sample { x: p.x, y });
            i = i + 1;
        }
        assert(result@ =~= scaled_signal(input@, lo as int, up as int));
        result
    }
}

} // verus!
