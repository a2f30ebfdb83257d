use vstd::prelude::*;

verus! {

/// One sample of a scalar signal over frames: `x` is a frame index,
/// `y` the value at that frame.
#[derive(Clone, Copy, Debug, PartialEq, Eq, Structural)]
pub struct Sample {
    pub x: i64,
    pub y: i64,
}

impl Sample {
    pub fn new(x: i64, y: i64) -> (r: Sample)
        ensures
            r == (Sample { x, y }),
    {
        Sample { x, y }
    }
}

/// The values of a signal, in order.
pub open spec fn ys(s: Seq<Sample>) -> Seq<int> {
    s.map_values(|p: Sample| p.y as int)
}

/// Frame indices grow strictly from one sample to the next.
pub open spec fn strictly_increasing_x(s: Seq<Sample>) -> bool {
    forall|i: int, j: int| 0 <= i < j < s.len() ==> s[i].x < s[j].x
}

/// Minimum of the first `n` elements.
pub open spec fn min_upto(s: Seq<int>, n: int) -> int
    decreases n,
{
    if n <= 1 {
        s[0]
    } else {
        let m = min_upto(s, n - 1);
        if s[n - 1] < m {
            s[n - 1]
        } else {
            m
        }
    }
}

/// Maximum of the first `n` elements.
pub open spec fn max_upto(s: Seq<int>, n: int) -> int
    decreases n,
{
    if n <= 1 {
        s[0]
    } else {
        let m = max_upto(s, n - 1);
        if s[n - 1] > m {
            s[n - 1]
        } else {
            m
        }
    }
}

pub open spec fn seq_min(s: Seq<int>) -> int {
    min_upto(s, s.len() as int)
}

pub open spec fn seq_max(s: Seq<int>) -> int {
    max_upto(s, s.len() as int)
}

/// The minimum of a non-empty prefix bounds each of its elements and is one of them.
pub proof fn lemma_min_upto(s: Seq<int>, n: int)
    requires
        0 < n <= s.len(),
    ensures
        forall|k: int| 0 <= k < n ==> min_upto(s, n) <= s[k],
        exists|k: int| 0 <= k < n && min_upto(s, n) == s[k],
    decreases n,
{
    if n > 1 {
        lemma_min_upto(s, n - 1);
        if s[n - 1] >= min_upto(s, n - 1) {
            let k = choose|k: int| 0 <= k < n - 1 && min_upto(s, n - 1) == s[k];
            assert(0 <= k < n && min_upto(s, n) == s[k]);
        } else {
            assert(min_upto(s, n) == s[n - 1]);
        }
    } else {
        assert(min_upto(s, n) == s[0]);
    }
}

/// The maximum of a non-empty prefix bounds each of its elements and is one of them.
pub proof fn lemma_max_upto(s: Seq<int>, n: int)
    requires
        0 < n <= s.len(),
    ensures
        forall|k: int| 0 <= k < n ==> max_upto(s, n) >= s[k],
        exists|k: int| 0 <= k < n && max_upto(s, n) == s[k],
    decreases n,
{
    if n > 1 {
        lemma_max_upto(s, n - 1);
        if s[n - 1] <= max_upto(s, n - 1) {
            let k = choose|k: int| 0 <= k < n - 1 && max_upto(s, n - 1) == s[k];
            assert(0 <= k < n && max_upto(s, n) == s[k]);
        } else {
            assert(max_upto(s, n) == s[n - 1]);
        }
    } else {
        assert(max_upto(s, n) == s[0]);
    }
}

/// Computes the smallest and largest value of a non-empty signal.
pub fn y_extrema(s: &Vec<Sample>) -> (r: (i64, i64))
    requires
        s@.len() > 0,
    ensures
        r.0 == seq_min(ys(s@)),
        r.1 == seq_max(ys(s@)),
{
    let mut mn: i64 = s[0].y;
    let mut mx: i64 = s[0].y;
    let mut i: usize = 1;
    while i < s.len()
        invariant
            1 <= i <= s@.len(),
            ys(s@).len() == s@.len(),
            mn == min_upto(ys(s@), i as int),
            mx == max_upto(ys(s@), i as int),
        decreases s@.len() - i,
    {
        let y = s[i].y;
        if y < mn {
            mn = y;
        }
        if y > mx {
            mx = y;
        }
        i = i + 1;
    }
    (mn, mx)
}

} // verus!
