use vstd::prelude::*;
use crate::signal::{Sample, strictly_increasing_x};

verus! {

/// Largest coordinate magnitude the simplifier takes: the range of an `i32`
/// frame index or value.
pub const COORD_LIMIT: i64 = 0x8000_0000;

/// Tolerances in thousandths at or below this (0.01) mean no simplification.
pub const EPSILON_FLOOR_MILLI: u32 = 10;

/// A signal the simplifier takes: frames strictly increasing, coordinates
/// within `COORD_LIMIT`.
pub open spec fn simplifiable(s: Seq<Sample>) -> bool {
    strictly_increasing_x(s) && forall|i: int|
        0 <= i < s.len() ==> -COORD_LIMIT <= (#[trigger] s[i]).x <= COORD_LIMIT && -COORD_LIMIT
            <= s[i].y <= COORD_LIMIT
}

/// Twice the signed area of the triangle `s[a], s[b], s[i]`: the perpendicular
/// distance of `s[i]` from the chord `s[a]..s[b]` times the chord's length.
pub open spec fn cross(s: Seq<Sample>, a: int, b: int, i: int) -> int {
    (s[b].x - s[a].x) * (s[i].y - s[a].y) - (s[b].y - s[a].y) * (s[i].x - s[a].x)
}

/// The deviation of `s[i]` from the chord `s[a]..s[b]`, up to the chord's
/// length, which is the same for every point of the segment.
pub open spec fn deviation(s: Seq<Sample>, a: int, b: int, i: int) -> int {
    if cross(s, a, b, i) < 0 {
        -cross(s, a, b, i)
    } else {
        cross(s, a, b, i)
    }
}

/// Squared length of the chord `s[a]..s[b]`.
pub open spec fn chord_sq(s: Seq<Sample>, a: int, b: int) -> int {
    (s[b].x - s[a].x) * (s[b].x - s[a].x) + (s[b].y - s[a].y) * (s[b].y - s[a].y)
}

/// The perpendicular distance of `s[i]` from the chord exceeds
/// `epsilon_milli / 1000`: `deviation / sqrt(chord_sq) > epsilon_milli / 1000`,
/// squared.
pub open spec fn beyond(s: Seq<Sample>, a: int, b: int, i: int, epsilon_milli: int) -> bool {
    (1000 * deviation(s, a, b, i)) * (1000 * deviation(s, a, b, i)) > epsilon_milli * epsilon_milli
        * chord_sq(s, a, b)
}

/// The first point among `s[a + 1 .. k]` farthest from the chord `s[a]..s[b]`.
pub open spec fn farthest(s: Seq<Sample>, a: int, b: int, k: int) -> int
    decreases k - a,
{
    if k <= a + 2 {
        a + 1
    } else {
        let m = farthest(s, a, b, k - 1);
        if deviation(s, a, b, k - 1) > deviation(s, a, b, m) {
            k - 1
        } else {
            m
        }
    }
}

/// The interior points of the segment `a..b` that the simplification keeps:
/// the farthest point from the chord, where it lies beyond the tolerance,
/// together with what the two halves around it keep.
pub open spec fn kept_between(s: Seq<Sample>, a: int, b: int, epsilon_milli: int) -> Set<int>
    decreases b - a,
{
    if b - a < 2 {
        Set::empty()
    } else {
        let m = farthest(s, a, b, b);
        if a < m < b && beyond(s, a, b, m, epsilon_milli) {
            kept_between(s, a, m, epsilon_milli).union(kept_between(s, m, b, epsilon_milli)).insert(
                m,
            )
        } else {
            Set::empty()
        }
    }
}

/// Index `i` of `s` survives: an endpoint, or kept between them.
pub open spec fn is_kept(s: Seq<Sample>, epsilon_milli: int, i: int) -> bool {
    i == 0 || i == s.len() - 1 || kept_between(s, 0, s.len() - 1, epsilon_milli).contains(i)
}

/// The surviving samples among the first `k`, in their original order.
pub open spec fn kept_prefix(s: Seq<Sample>, epsilon_milli: int, k: int) -> Seq<Sample>
    decreases k,
{
    if k <= 0 {
        Seq::empty()
    } else {
        let p = kept_prefix(s, epsilon_milli, k - 1);
        if is_kept(s, epsilon_milli, k - 1) {
            p.push(s[k - 1])
        } else {
            p
        }
    }
}

/// The simplified signal; a tolerance at or below the floor keeps every sample.
pub open spec fn simplified(s: Seq<Sample>, epsilon_milli: int) -> Seq<Sample> {
    if epsilon_milli <= EPSILON_FLOOR_MILLI {
        s
    } else {
        kept_prefix(s, epsilon_milli, s.len() as int)
    }
}

proof fn lemma_farthest_inside(s: Seq<Sample>, a: int, b: int, k: int)
    requires
        a + 2 <= k,
    ensures
        a < farthest(s, a, b, k) < k,
        forall|j: int| a < j < k ==> #[trigger] deviation(s, a, b, j) <= deviation(s, a, b, farthest(s, a, b, k)),
    decreases k - a,
{
    if k > a + 2 {
        lemma_farthest_inside(s, a, b, k - 1);
    }
}

proof fn lemma_kept_prefix(s: Seq<Sample>, e: int, k: int)
    requires
        0 <= k <= s.len(),
    ensures
        kept_prefix(s, e, k).len() <= k,
        k >= 1 ==> kept_prefix(s, e, k).len() >= 1 && kept_prefix(s, e, k)[0] == s[0],
    decreases k,
{
    if k > 0 {
        lemma_kept_prefix(s, e, k - 1);
    }
}

/// The simplified signal keeps the first and the last sample and is never
/// longer than the signal.
pub proof fn lemma_simplified_keeps_endpoints(s: Seq<Sample>, epsilon_milli: int)
    ensures
        simplified(s, epsilon_milli).len() <= s.len(),
        s.len() >= 1 ==> simplified(s, epsilon_milli)[0] == s[0] && simplified(
            s,
            epsilon_milli,
        ).last() == s.last(),
        s.len() >= 2 ==> simplified(s, epsilon_milli).len() >= 2,
{
    if epsilon_milli > EPSILON_FLOOR_MILLI {
        let n = s.len() as int;
        lemma_kept_prefix(s, epsilon_milli, n);
        if n >= 2 {
            lemma_kept_prefix(s, epsilon_milli, n - 1);
        }
    }
}

proof fn lemma_bounded_products(s: Seq<Sample>, a: int, b: int, i: int)
    requires
        simplifiable(s),
        0 <= a < s.len(),
        0 <= b < s.len(),
        0 <= i < s.len(),
    ensures
        0 <= deviation(s, a, b, i) <= 0x2_0000_0000_0000_0000,
        0 <= chord_sq(s, a, b) <= 0x2_0000_0000_0000_0000,
{
    let dx = s[b].x - s[a].x;
    let dy = s[b].y - s[a].y;
    let ex = s[i].x - s[a].x;
    let ey = s[i].y - s[a].y;
    assert(-0x1_0000_0000 <= dx <= 0x1_0000_0000);
    assert(-0x1_0000_0000 <= dy <= 0x1_0000_0000);
    assert(-0x1_0000_0000 <= ex <= 0x1_0000_0000);
    assert(-0x1_0000_0000 <= ey <= 0x1_0000_0000);
    assert(-0x1_0000_0000_0000_0000 <= dx * ey <= 0x1_0000_0000_0000_0000) by (nonlinear_arith)
        requires
            -0x1_0000_0000 <= dx <= 0x1_0000_0000,
            -0x1_0000_0000 <= ey <= 0x1_0000_0000,
    ;
    assert(-0x1_0000_0000_0000_0000 <= dy * ex <= 0x1_0000_0000_0000_0000) by (nonlinear_arith)
        requires
            -0x1_0000_0000 <= dy <= 0x1_0000_0000,
            -0x1_0000_0000 <= ex <= 0x1_0000_0000,
    ;
    assert(0 <= dx * dx <= 0x1_0000_0000_0000_0000) by (nonlinear_arith)
        requires
            -0x1_0000_0000 <= dx <= 0x1_0000_0000,
    ;
    assert(0 <= dy * dy <= 0x1_0000_0000_0000_0000) by (nonlinear_arith)
        requires
            -0x1_0000_0000 <= dy <= 0x1_0000_0000,
    ;
}

fn deviation_exec(s: &Vec<Sample>, a: usize, b: usize, i: usize) -> (r: i128)
    requires
        simplifiable(s@),
        a < s@.len(),
        b < s@.len(),
        i < s@.len(),
    ensures
        r == deviation(s@, a as int, b as int, i as int),
{
    proof {
        lemma_bounded_products(s@, a as int, b as int, i as int);
    }
    let dx: i128 = s[b].x as i128 - s[a].x as i128;
    let dy: i128 = s[b].y as i128 - s[a].y as i128;
    let ex: i128 = s[i].x as i128 - s[a].x as i128;
    let ey: i128 = s[i].y as i128 - s[a].y as i128;
    assert(-0x1_0000_0000 <= dx <= 0x1_0000_0000 && -0x1_0000_0000 <= ey <= 0x1_0000_0000);
    assert(-0x1_0000_0000 <= dy <= 0x1_0000_0000 && -0x1_0000_0000 <= ex <= 0x1_0000_0000);
    assert(-0x1_0000_0000_0000_0000 <= dx * ey <= 0x1_0000_0000_0000_0000) by (nonlinear_arith)
        requires
            -0x1_0000_0000 <= dx <= 0x1_0000_0000,
            -0x1_0000_0000 <= ey <= 0x1_0000_0000,
    ;
    assert(-0x1_0000_0000_0000_0000 <= dy * ex <= 0x1_0000_0000_0000_0000) by (nonlinear_arith)
        requires
            -0x1_0000_0000 <= dy <= 0x1_0000_0000,
            -0x1_0000_0000 <= ex <= 0x1_0000_0000,
    ;
    let c: i128 = dx * ey - dy * ex;
    if c < 0 {
        -c
    } else {
        c
    }
}

/// The integer square root: the largest `s` with `s * s <= c`.
fn isqrt(c: i128) -> (s: i128)
    requires
        0 <= c <= 0x4_0000_0000_0000_0000,
    ensures
        0 <= s <= 0x2_0000_0000,
        s * s <= c < (s + 1) * (s + 1),
{
    let mut lo: i128 = 0;
    let mut hi: i128 = 0x2_0000_0001;
    assert(c < hi * hi) by (nonlinear_arith)
        requires
            hi == 0x2_0000_0001,
            c <= 0x4_0000_0000_0000_0000,
    ;
    while hi - lo > 1
        invariant
            0 <= lo < hi <= 0x2_0000_0001,
            lo * lo <= c < hi * hi,
        decreases hi - lo,
    {
        let mid: i128 = lo + (hi - lo) / 2;
        assert(0 <= mid * mid <= 0x2_0000_0001 * 0x2_0000_0001) by (nonlinear_arith)
            requires
                0 <= mid <= 0x2_0000_0001,
        ;
        if mid * mid <= c {
            lo = mid;
        } else {
            hi = mid;
        }
    }
    if lo == 0x2_0000_0001 - 1 {
        assert(lo * lo <= c);
    }
    assert(lo <= 0x2_0000_0000);
    lo
}

proof fn lemma_beyond_split(a: int, e: int, s: int, c: int)
    requires
        0 <= a,
        0 < e,
        0 <= s,
        s * s <= c < (s + 1) * (s + 1),
    ensures
        a >= e * (s + 1) ==> a * a > e * e * c,
        a <= e * s ==> a * a <= e * e * c,
        e * s < a < e * (s + 1) ==> (a * a > e * e * c <==> 2 * e * s * (a - e * s) + (a - e
            * s) * (a - e * s) > e * e * (c - s * s)),
{
    if a >= e * (s + 1) {
        assert(a * a >= (e * (s + 1)) * (e * (s + 1))) by (nonlinear_arith)
            requires
                a >= e * (s + 1),
                e * (s + 1) >= 0,
        ;
        assert((e * (s + 1)) * (e * (s + 1)) == (e * e) * ((s + 1) * (s + 1))) by (nonlinear_arith);
        assert((e * e) * ((s + 1) * (s + 1)) > (e * e) * c) by (nonlinear_arith)
            requires
                e > 0,
                c < (s + 1) * (s + 1),
        ;
    }
    if a <= e * s {
        assert(a * a <= (e * s) * (e * s)) by (nonlinear_arith)
            requires
                0 <= a <= e * s,
        ;
        assert((e * s) * (e * s) == (e * e) * (s * s)) by (nonlinear_arith);
        assert((e * e) * (s * s) <= (e * e) * c) by (nonlinear_arith)
            requires
                s * s <= c,
        ;
    }
    let r = a - e * s;
    assert(a * a - e * e * c == 2 * e * s * r + r * r - e * e * (c - s * s)) by (nonlinear_arith)
        requires
            r == a - e * s,
    ;
}

fn beyond_exec(s: &Vec<Sample>, a: usize, b: usize, i: usize, epsilon_milli: u32) -> (r: bool)
    requires
        simplifiable(s@),
        a < s@.len(),
        b < s@.len(),
        i < s@.len(),
    ensures
        r == beyond(s@, a as int, b as int, i as int, epsilon_milli as int),
{
    proof {
        lemma_bounded_products(s@, a as int, b as int, i as int);
    }
    let d: i128 = deviation_exec(s, a, b, i);
    let dx: i128 = s[b].x as i128 - s[a].x as i128;
    let dy: i128 = s[b].y as i128 - s[a].y as i128;
    assert(-0x1_0000_0000 <= dx <= 0x1_0000_0000 && -0x1_0000_0000 <= dy <= 0x1_0000_0000);
    assert(0 <= dx * dx <= 0x1_0000_0000_0000_0000) by (nonlinear_arith)
        requires
            -0x1_0000_0000 <= dx <= 0x1_0000_0000,
    ;
    assert(0 <= dy * dy <= 0x1_0000_0000_0000_0000) by (nonlinear_arith)
        requires
            -0x1_0000_0000 <= dy <= 0x1_0000_0000,
    ;
    let c: i128 = dx * dx + dy * dy;
    let e: i128 = epsilon_milli as i128;
    let m: i128 = 1000 * d;
    proof {
        assert(beyond(s@, a as int, b as int, i as int, e as int) == (m * m > e * e * c));
    }
    if e == 0 {
        assert(e * e * c == 0) by (nonlinear_arith)
            requires
                e == 0,
        ;
        assert(m * m > 0 <==> m > 0) by (nonlinear_arith)
            requires
                m >= 0,
        ;
        return m > 0;
    }
    let sq: i128 = isqrt(c);
    proof {
        lemma_beyond_split(m as int, e as int, sq as int, c as int);
    }
    assert(0 <= e * (sq + 1) <= 0xffff_ffff * 0x2_0000_0001) by (nonlinear_arith)
        requires
            0 < e <= 0xffff_ffff,
            0 <= sq <= 0x2_0000_0000,
    ;
    assert(e * (sq + 1) == e * sq + e && 0 <= e * sq) by (nonlinear_arith)
        requires
            0 < e,
            0 <= sq,
    ;
    if m >= e * (sq + 1) {
        return true;
    }
    if m <= e * sq {
        return false;
    }
    let r: i128 = m - e * sq;
    assert(0 < r < e);
    assert(0 <= 2 * e * sq * r <= 2 * 0xffff_ffff * 0x2_0000_0000 * 0xffff_ffff) by (nonlinear_arith)
        requires
            0 < e <= 0xffff_ffff,
            0 <= sq <= 0x2_0000_0000,
            0 < r < e,
    ;
    assert(0 <= r * r <= 0xffff_ffff * 0xffff_ffff) by (nonlinear_arith)
        requires
            0 < r <= 0xffff_ffff,
    ;
    assert(0 <= c - sq * sq <= 2 * sq) by (nonlinear_arith)
        requires
            sq * sq <= c < (sq + 1) * (sq + 1),
            sq >= 0,
    ;
    assert(0 <= e * e <= 0xffff_ffff * 0xffff_ffff) by (nonlinear_arith)
        requires
            0 < e <= 0xffff_ffff,
    ;
    assert(0 <= (e * e) * (c - sq * sq) <= (0xffff_ffff * 0xffff_ffff) * 0x4_0000_0000)
        by (nonlinear_arith)
        requires
            0 <= e * e <= 0xffff_ffff * 0xffff_ffff,
            0 <= c - sq * sq <= 0x4_0000_0000,
    ;
    let e2: i128 = 2 * e;
    assert(0 <= e2 * sq <= 2 * 0xffff_ffff * 0x2_0000_0000) by (nonlinear_arith)
        requires
            e2 == 2 * e,
            0 < e <= 0xffff_ffff,
            0 <= sq <= 0x2_0000_0000,
    ;
    let es: i128 = e2 * sq;
    assert(es == 2 * e * sq) by (nonlinear_arith)
        requires
            es == e2 * sq,
            e2 == 2 * e,
    ;
    assert(0 <= es <= 2 * 0xffff_ffff * 0x2_0000_0000) by (nonlinear_arith)
        requires
            es == 2 * e * sq,
            0 < e <= 0xffff_ffff,
            0 <= sq <= 0x2_0000_0000,
    ;
    assert(0 <= es * r <= 2 * 0xffff_ffff * 0x2_0000_0000 * 0xffff_ffff) by (nonlinear_arith)
        requires
            0 <= es <= 2 * 0xffff_ffff * 0x2_0000_0000,
            0 < r <= 0xffff_ffff,
    ;
    let lhs: i128 = es * r + r * r;
    let rhs: i128 = e * e * (c - sq * sq);
    lhs > rhs
}

fn farthest_exec(s: &Vec<Sample>, a: usize, b: usize) -> (m: usize)
    requires
        simplifiable(s@),
        a + 2 <= b,
        b < s@.len(),
    ensures
        m == farthest(s@, a as int, b as int, b as int),
        a < m < b,
{
    let mut m: usize = a + 1;
    let mut best: i128 = deviation_exec(s, a, b, m);
    let mut k: usize = a + 2;
    while k < b
        invariant
            simplifiable(s@),
            a + 2 <= k <= b,
            b < s@.len(),
            m == farthest(s@, a as int, b as int, k as int),
            a < m < k,
            best == deviation(s@, a as int, b as int, m as int),
        decreases b - k,
    {
        let d = deviation_exec(s, a, b, k);
        if d > best {
            m = k;
            best = d;
        }
        k = k + 1;
    }
    m
}

/// Marks in `mask` the points that the simplification keeps strictly inside
/// the segment `a..b`.
fn mark_between(s: &Vec<Sample>, a: usize, b: usize, epsilon_milli: u32, mask: &mut Vec<bool>)
    requires
        simplifiable(s@),
        a <= b,
        b < s@.len(),
        old(mask)@.len() == s@.len(),
    ensures
        final(mask)@.len() == s@.len(),
        forall|i: int|
            0 <= i < s@.len() ==> #[trigger] final(mask)@[i] == (old(mask)@[i] || kept_between(
                s@,
                a as int,
                b as int,
                epsilon_milli as int,
            ).contains(i)),
    decreases b - a,
{
    if b - a < 2 {
        return;
    }
    let m = farthest_exec(s, a, b);
    if !beyond_exec(s, a, b, m, epsilon_milli) {
        return;
    }
    let ghost before = mask@;
    mask.set(m, true);
    mark_between(s, a, m, epsilon_milli, mask);
    mark_between(s, m, b, epsilon_milli, mask);
    proof {
        let e = epsilon_milli as int;
        assert(kept_between(s@, a as int, b as int, e) == kept_between(s@, a as int, m as int, e).union(
            kept_between(s@, m as int, b as int, e),
        ).insert(m as int));
        assert forall|i: int| 0 <= i < s@.len() implies #[trigger] mask@[i] == (before[i]
            || kept_between(s@, a as int, b as int, e).contains(i)) by {}
    }
}

/// Reduces a signal by recursive chord splitting with tolerance
/// `epsilon_milli / 1000`: the first and last samples stay; in each segment the
/// sample farthest from the chord between its ends stays when its distance
/// exceeds the tolerance, and the segment is split there; otherwise the
/// segment's interior samples go. Samples keep their order. A tolerance of
/// 0.01 or less keeps every sample.
pub fn rdp(score: Vec<Sample>, epsilon_milli: u32) -> (r: Vec<Sample>)
    requires
        simplifiable(score@),
    ensures
        r@ == simplified(score@, epsilon_milli as int),
{
    if epsilon_milli <= EPSILON_FLOOR_MILLI {
        return score;
    }
    let n = score.len();
    let mut mask: Vec<bool> = Vec::new();
    let mut i: usize = 0;
    while i < n
        invariant
            i <= n,
            n == score@.len(),
            mask@.len() == i,
            forall|j: int| 0 <= j < i ==> #[trigger] mask@[j] == (j == 0 || j == n - 1),
        decreases n - i,
    {
        mask.push(i == 0 || i + 1 == n);
        i = i + 1;
    }
    if n >= 1 {
        mark_between(&score, 0, n - 1, epsilon_milli, &mut mask);
    }
    let ghost e = epsilon_milli as int;
    assert forall|j: int| 0 <= j < n implies #[trigger] mask@[j] == is_kept(score@, e, j) by {}
    let mut result: Vec<Sample> = Vec::new();
    let mut i: usize = 0;
    while i < n
        invariant
            i <= n,
            n == score@.len(),
            mask@.len() == n,
            forall|j: int| 0 <= j < n ==> #[trigger] mask@[j] == is_kept(score@, e, j),
            result@ == kept_prefix(score@, e, i as int),
        decreases n - i,
    {
        if mask[i] {
            result.push(score[i]);
        }
        i = i + 1;
    }
    result
}

} // verus!

verus! {

/// Every sample lies on the line through the first and the last one.
pub open spec fn collinear(s: Seq<Sample>) -> bool {
    s.len() >= 2 && forall|i: int| 0 <= i < s.len() ==> #[trigger] cross(s, 0, s.len() - 1, i) == 0
}

proof fn lemma_endpoints_only(s: Seq<Sample>, e: int, k: int)
    requires
        1 <= k < s.len(),
        kept_between(s, 0, s.len() - 1, e) == Set::<int>::empty(),
    ensures
        kept_prefix(s, e, k) == seq![s[0]],
    decreases k,
{
    if k > 1 {
        lemma_endpoints_only(s, e, k - 1);
        assert(!kept_between(s, 0, s.len() - 1, e).contains(k - 1));
    } else {
        assert(kept_prefix(s, e, 0) == Seq::<Sample>::empty());
        assert(kept_prefix(s, e, 1) =~= seq![s[0]]);
    }
}

/// With a tolerance above the floor, a straight run of samples simplifies to
/// its two endpoints.
pub proof fn lemma_collinear_simplifies_to_endpoints(s: Seq<Sample>, epsilon_milli: int)
    requires
        simplifiable(s),
        collinear(s),
        epsilon_milli > EPSILON_FLOOR_MILLI,
    ensures
        simplified(s, epsilon_milli) == seq![s[0], s.last()],
{
    let n = s.len() as int;
    let e = epsilon_milli;
    if n - 1 >= 2 {
        let m = farthest(s, 0, n - 1, n - 1);
        lemma_farthest_inside(s, 0, n - 1, n - 1);
        assert(cross(s, 0, n - 1, m) == 0);
        assert(deviation(s, 0, n - 1, m) == 0);
        assert(chord_sq(s, 0, n - 1) >= 0) by (nonlinear_arith)
            requires
                chord_sq(s, 0, n - 1) == (s[n - 1].x - s[0].x) * (s[n - 1].x - s[0].x) + (s[n
                    - 1].y - s[0].y) * (s[n - 1].y - s[0].y),
        ;
        assert(e * e * chord_sq(s, 0, n - 1) >= 0) by (nonlinear_arith)
            requires
                chord_sq(s, 0, n - 1) >= 0,
        ;
        let d = deviation(s, 0, n - 1, m);
        assert((1000 * d) * (1000 * d) == 0) by (nonlinear_arith)
            requires
                d == 0,
        ;
        assert(!beyond(s, 0, n - 1, m, e));
    }
    assert(kept_between(s, 0, n - 1, e) =~= Set::<int>::empty());
    lemma_endpoints_only(s, e, n - 1);
    assert(kept_prefix(s, e, n) =~= seq![s[0], s.last()]);
}

} // verus!

verus! {

/// The indices of the surviving samples among the first `k`, in order.
pub open spec fn kept_indices(s: Seq<Sample>, e: int, k: int) -> Seq<int>
    decreases k,
{
    if k <= 0 {
        Seq::empty()
    } else {
        let p = kept_indices(s, e, k - 1);
        if is_kept(s, e, k - 1) {
            p.push(k - 1)
        } else {
            p
        }
    }
}

pub open spec fn increasing(ix: Seq<int>) -> bool {
    forall|p: int, q: int| 0 <= p < q < ix.len() ==> ix[p] < ix[q]
}

proof fn lemma_kept_between_inside(s: Seq<Sample>, a: int, b: int, e: int)
    ensures
        forall|j: int| kept_between(s, a, b, e).contains(j) ==> a < j < b,
    decreases b - a,
{
    if b - a >= 2 {
        let m = farthest(s, a, b, b);
        if a < m < b && beyond(s, a, b, m, e) {
            lemma_kept_between_inside(s, a, m, e);
            lemma_kept_between_inside(s, m, b, e);
            let k = kept_between(s, a, b, e);
            assert(k == kept_between(s, a, m, e).union(kept_between(s, m, b, e)).insert(m));
            assert forall|j: int| k.contains(j) implies a < j < b by {
                if j != m && !kept_between(s, a, m, e).contains(j) {
                    assert(kept_between(s, m, b, e).contains(j));
                }
            }
        }
    }
}

proof fn lemma_kept_indices(s: Seq<Sample>, e: int, k: int)
    requires
        0 <= k <= s.len(),
    ensures
        kept_indices(s, e, k).len() == kept_prefix(s, e, k).len(),
        increasing(kept_indices(s, e, k)),
        forall|q: int|
            0 <= q < kept_indices(s, e, k).len() ==> 0 <= #[trigger] kept_indices(s, e, k)[q] < k
                && is_kept(s, e, kept_indices(s, e, k)[q]) && kept_prefix(s, e, k)[q] == s[kept_indices(
                s,
                e,
                k,
            )[q]],
        forall|i: int|
            0 <= i < k && is_kept(s, e, i) ==> exists|q: int|
                0 <= q < kept_indices(s, e, k).len() && #[trigger] kept_indices(s, e, k)[q] == i,
    decreases k,
{
    if k > 0 {
        lemma_kept_indices(s, e, k - 1);
        let p = kept_indices(s, e, k - 1);
        if is_kept(s, e, k - 1) {
            assert(kept_indices(s, e, k)[p.len() as int] == k - 1);
        }
        assert forall|i: int| 0 <= i < k && is_kept(s, e, i) implies exists|q: int|
            0 <= q < kept_indices(s, e, k).len() && #[trigger] kept_indices(s, e, k)[q] == i by {
            if i < k - 1 {
                let q = choose|q: int| 0 <= q < p.len() && #[trigger] p[q] == i;
                assert(kept_indices(s, e, k)[q] == i);
            } else {
                assert(kept_indices(s, e, k)[p.len() as int] == i);
            }
        }
    }
}

/// The farthest point is the first one of greatest deviation.
proof fn lemma_farthest_first(s: Seq<Sample>, a: int, b: int, k: int)
    requires
        a + 2 <= k,
    ensures
        forall|j: int|
            a < j < farthest(s, a, b, k) ==> #[trigger] deviation(s, a, b, j) < deviation(
                s,
                a,
                b,
                farthest(s, a, b, k),
            ),
    decreases k - a,
{
    if k > a + 2 {
        lemma_farthest_first(s, a, b, k - 1);
        lemma_farthest_inside(s, a, b, k - 1);
    }
}

/// A first point of greatest deviation in `a + 1 .. k` is the farthest one.
proof fn lemma_farthest_unique(s: Seq<Sample>, a: int, b: int, k: int, m: int)
    requires
        a < m < k,
        forall|j: int| a < j < k ==> #[trigger] deviation(s, a, b, j) <= deviation(s, a, b, m),
        forall|j: int| a < j < m ==> #[trigger] deviation(s, a, b, j) < deviation(s, a, b, m),
    ensures
        farthest(s, a, b, k) == m,
{
    lemma_farthest_inside(s, a, b, k);
    lemma_farthest_first(s, a, b, k);
    let f = farthest(s, a, b, k);
    if f < m {
        assert(deviation(s, a, b, f) < deviation(s, a, b, m));
    } else if f > m {
        assert(deviation(s, a, b, m) < deviation(s, a, b, f));
    }
}

/// On a selection `t` of the samples of `s` (`t[q] == s[ix[q]]`) whose
/// indices strictly inside `pa .. pb` are exactly what the simplification of
/// `s` keeps between `ix[pa]` and `ix[pb]`, the simplification of `t` keeps
/// every index between `pa` and `pb`.
proof fn lemma_selection_kept(
    s: Seq<Sample>,
    t: Seq<Sample>,
    ix: Seq<int>,
    e: int,
    pa: int,
    pb: int,
)
    requires
        t.len() == ix.len(),
        increasing(ix),
        forall|q: int| 0 <= q < ix.len() ==> 0 <= #[trigger] ix[q] < s.len(),
        forall|q: int| 0 <= q < t.len() ==> #[trigger] t[q] == s[ix[q]],
        0 <= pa < pb < ix.len(),
        forall|q: int|
            pa < q < pb ==> kept_between(s, ix[pa], ix[pb], e).contains(#[trigger] ix[q]),
        forall|j: int|
            kept_between(s, ix[pa], ix[pb], e).contains(j) ==> exists|q: int|
                pa < q < pb && #[trigger] ix[q] == j,
    ensures
        forall|q: int| pa < q < pb ==> #[trigger] kept_between(t, pa, pb, e).contains(q),
    decreases ix[pb] - ix[pa],
{
    let a = ix[pa];
    let b = ix[pb];
    lemma_kept_between_inside(s, a, b, e);
    let kb = kept_between(s, a, b, e);
    if pb - pa < 2 {
        return;
    }
    assert(kb.contains(ix[pa + 1]));
    assert(b - a >= 2);
    let m = farthest(s, a, b, b);
    assert(a < m < b && beyond(s, a, b, m, e));
    assert(kb.contains(m));
    let pm = choose|q: int| pa < q < pb && #[trigger] ix[q] == m;
    lemma_farthest_inside(s, a, b, b);
    lemma_farthest_first(s, a, b, b);
    assert forall|q: int| pa < q < pb implies #[trigger] deviation(t, pa, pb, q) <= deviation(
        t,
        pa,
        pb,
        pm,
    ) by {
        assert(kb.contains(ix[q]));
        assert(deviation(t, pa, pb, q) == deviation(s, a, b, ix[q]));
    }
    assert forall|q: int| pa < q < pm implies #[trigger] deviation(t, pa, pb, q) < deviation(
        t,
        pa,
        pb,
        pm,
    ) by {
        assert(kb.contains(ix[q]));
        assert(ix[q] < ix[pm]);
        assert(deviation(t, pa, pb, q) == deviation(s, a, b, ix[q]));
    }
    lemma_farthest_unique(t, pa, pb, pb, pm);
    assert(beyond(t, pa, pb, pm, e) == beyond(s, a, b, m, e));
    lemma_kept_between_inside(s, a, m, e);
    lemma_kept_between_inside(s, m, b, e);
    assert(kb == kept_between(s, a, m, e).union(kept_between(s, m, b, e)).insert(m));
    assert forall|q: int| pa < q < pm implies kept_between(s, ix[pa], ix[pm], e).contains(
        #[trigger] ix[q],
    ) by {
        assert(kb.contains(ix[q]));
        assert(ix[q] < m);
    }
    assert forall|j: int| kept_between(s, ix[pa], ix[pm], e).contains(j) implies exists|q: int|
        pa < q < pm && #[trigger] ix[q] == j by {
        assert(kb.contains(j));
        let q = choose|q: int| pa < q < pb && #[trigger] ix[q] == j;
        if q >= pm {
            assert(ix[q] >= ix[pm]);
        }
    }
    assert forall|q: int| pm < q < pb implies kept_between(s, ix[pm], ix[pb], e).contains(
        #[trigger] ix[q],
    ) by {
        assert(kb.contains(ix[q]));
        assert(ix[q] > m);
    }
    assert forall|j: int| kept_between(s, ix[pm], ix[pb], e).contains(j) implies exists|q: int|
        pm < q < pb && #[trigger] ix[q] == j by {
        assert(kb.contains(j));
        let q = choose|q: int| pa < q < pb && #[trigger] ix[q] == j;
        if q <= pm {
            assert(ix[q] <= ix[pm]);
        }
    }
    lemma_selection_kept(s, t, ix, e, pa, pm);
    lemma_selection_kept(s, t, ix, e, pm, pb);
    let kt = kept_between(t, pa, pb, e);
    assert(kt == kept_between(t, pa, pm, e).union(kept_between(t, pm, pb, e)).insert(pm));
    assert forall|q: int| pa < q < pb implies #[trigger] kept_between(t, pa, pb, e).contains(q) by {
        if q < pm {
            assert(kept_between(t, pa, pm, e).contains(q));
        } else if q > pm {
            assert(kept_between(t, pm, pb, e).contains(q));
        }
    }
}

proof fn lemma_all_kept_prefix(t: Seq<Sample>, e: int, k: int)
    requires
        0 <= k <= t.len(),
        forall|q: int| 0 <= q < t.len() ==> #[trigger] is_kept(t, e, q),
    ensures
        kept_prefix(t, e, k) == t.take(k),
    decreases k,
{
    if k > 0 {
        lemma_all_kept_prefix(t, e, k - 1);
        assert(is_kept(t, e, k - 1));
        assert(t.take(k - 1).push(t[k - 1]) =~= t.take(k));
    } else {
        assert(t.take(0) =~= Seq::<Sample>::empty());
    }
}

/// Simplifying a simplified signal again, with the same tolerance, changes
/// nothing.
pub proof fn lemma_simplify_idempotent(s: Seq<Sample>, epsilon_milli: int)
    ensures
        simplified(simplified(s, epsilon_milli), epsilon_milli) == simplified(s, epsilon_milli),
{
    let e = epsilon_milli;
    if e <= EPSILON_FLOOR_MILLI {
        return;
    }
    let n = s.len() as int;
    let t = kept_prefix(s, e, n);
    lemma_kept_indices(s, e, n);
    let ix = kept_indices(s, e, n);
    lemma_simplified_keeps_endpoints(s, e);
    if n >= 2 {
        // The selection starts at index 0 and ends at index n - 1.
        assert(is_kept(s, e, 0));
        assert(is_kept(s, e, n - 1));
        let q0 = choose|q: int| 0 <= q < ix.len() && #[trigger] ix[q] == 0;
        let ql = choose|q: int| 0 <= q < ix.len() && #[trigger] ix[q] == n - 1;
        let last = ix.len() - 1;
        if q0 > 0 {
            assert(ix[0] < ix[q0]);
        }
        if ql < last {
            assert(ix[ql] < ix[last]);
        }
        assert(ix[0] == 0 && ix[last] == n - 1);
        lemma_kept_between_inside(s, 0, n - 1, e);
        assert forall|q: int| 0 < q < last implies kept_between(s, ix[0], ix[last], e).contains(
            #[trigger] ix[q],
        ) by {
            assert(ix[0] < ix[q] < ix[last]);
        }
        assert forall|j: int| kept_between(s, ix[0], ix[last], e).contains(j) implies exists|q: int|
            0 < q < last && #[trigger] ix[q] == j by {
            assert(is_kept(s, e, j));
            let q = choose|q: int| 0 <= q < ix.len() && #[trigger] ix[q] == j;
            assert(q != 0 && q != last);
        }
        lemma_selection_kept(s, t, ix, e, 0, last);
        assert forall|q: int| 0 <= q < t.len() implies #[trigger] is_kept(t, e, q) by {}
        lemma_all_kept_prefix(t, e, t.len() as int);
        assert(t.take(t.len() as int) =~= t);
    } else {
        assert forall|q: int| 0 <= q < t.len() implies #[trigger] is_kept(t, e, q) by {}
        lemma_all_kept_prefix(t, e, t.len() as int);
        assert(t.take(t.len() as int) =~= t);
    }
}

} // verus!
