use vstd::prelude::*;
use vstd::string::StringSliceAdditionalSpecFns;

verus! {

/// Width and height of a frame, in pixels.
#[derive(Clone, Copy, Debug, PartialEq, Eq, Structural)]
pub struct Dimensions {
    pub width: u32,
    pub height: u32,
}

impl Dimensions {
    pub fn new(width: u32, height: u32) -> (r: Dimensions)
        ensures
            r == (Dimensions { width, height }),
    {
        Dimensions { width, height }
    }
}

pub open spec fn is_digit(b: u8) -> bool {
    48 <= b <= 57
}

/// Length of the run of decimal digits that starts at `i`.
pub open spec fn digit_run(s: Seq<u8>, i: int) -> int
    decreases s.len() - i,
{
    if 0 <= i < s.len() && is_digit(s[i]) {
        1 + digit_run(s, i + 1)
    } else {
        0
    }
}

/// Value of the `n` decimal digits at `i`.
pub open spec fn decimal(s: Seq<u8>, i: int, n: int) -> int
    decreases n,
{
    if n <= 0 {
        0
    } else {
        decimal(s, i, n - 1) * 10 + (s[i + n - 1] - 48)
    }
}

pub open spec fn occurs_at(s: Seq<u8>, p: int, t: Seq<u8>) -> bool {
    0 <= p && p + t.len() <= s.len() && s.subrange(p, p + t.len()) == t
}

/// A size pattern `pre DIGITS sep DIGITS`: where its first run of digits
/// starts, where its second one starts, and their lengths.
pub open spec fn first_run_at(p: int, pre: Seq<u8>) -> int {
    p + pre.len()
}

pub open spec fn second_run_at(s: Seq<u8>, p: int, pre: Seq<u8>, sep: Seq<u8>) -> int {
    first_run_at(p, pre) + digit_run(s, first_run_at(p, pre)) + sep.len()
}

/// The pattern `pre DIGITS sep DIGITS`, the runs of digits taken whole,
/// occurs at `p`.
pub open spec fn matches_at(s: Seq<u8>, p: int, pre: Seq<u8>, sep: Seq<u8>) -> bool {
    let a = first_run_at(p, pre);
    occurs_at(s, p, pre) && digit_run(s, a) > 0 && occurs_at(s, a + digit_run(s, a), sep)
        && digit_run(s, second_run_at(s, p, pre, sep)) > 0
}

pub open spec fn match_end(s: Seq<u8>, p: int, pre: Seq<u8>, sep: Seq<u8>) -> int {
    second_run_at(s, p, pre, sep) + digit_run(s, second_run_at(s, p, pre, sep))
}

/// The two numbers of the pattern occurrence at `p`.
pub open spec fn captures_at(s: Seq<u8>, p: int, pre: Seq<u8>, sep: Seq<u8>) -> (int, int) {
    let a = first_run_at(p, pre);
    let b = second_run_at(s, p, pre, sep);
    (decimal(s, a, digit_run(s, a)), decimal(s, b, digit_run(s, b)))
}

/// The numbers of the last occurrence found when scanning from `k` for
/// leftmost, non-overlapping occurrences.
pub open spec fn last_capture(s: Seq<u8>, k: int, pre: Seq<u8>, sep: Seq<u8>) -> Option<(int, int)>
    decreases s.len() - k,
{
    if k < 0 || k >= s.len() {
        None
    } else if matches_at(s, k, pre, sep) && k < match_end(s, k, pre, sep) <= s.len() {
        match last_capture(s, match_end(s, k, pre, sep), pre, sep) {
            Some(c) => Some(c),
            None => Some(captures_at(s, k, pre, sep)),
        }
    } else {
        last_capture(s, k + 1, pre, sep)
    }
}

/// The size that the last occurrence of the pattern in `s` gives, if both of
/// its numbers fit `u32`.
pub open spec fn size_from(s: Seq<u8>, pre: Seq<u8>, sep: Seq<u8>) -> Option<Dimensions> {
    match last_capture(s, 0, pre, sep) {
        Some((w, h)) => if w <= u32::MAX && h <= u32::MAX {
            Some(Dimensions { width: w as u32, height: h as u32 })
        } else {
            None
        },
        None => None,
    }
}

/// `WIDTHxHEIGHT`, as a probe reports a video's resolution.
pub open spec fn resolution_sep() -> Seq<u8> {
    seq![120u8]
}

/// `w=WIDTH:h=HEIGHT` in a video filter.
pub open spec fn wh_pre() -> Seq<u8> {
    seq![119u8, 61u8]
}

pub open spec fn wh_sep() -> Seq<u8> {
    seq![58u8, 104u8, 61u8]
}

/// `scale=WIDTH:HEIGHT` in a video filter.
pub open spec fn scale_pre() -> Seq<u8> {
    seq![115u8, 99u8, 97u8, 108u8, 101u8, 61u8]
}

pub open spec fn scale_sep() -> Seq<u8> {
    seq![58u8]
}

/// The output size a video filter asks for: its last `w=..:h=..`, or else its
/// last `scale=..:..`.
pub open spec fn filter_size(s: Seq<u8>) -> Option<Dimensions> {
    if last_capture(s, 0, wh_pre(), wh_sep()) is Some {
        size_from(s, wh_pre(), wh_sep())
    } else {
        size_from(s, scale_pre(), scale_sep())
    }
}

fn run_len(s: &[u8], i: usize) -> (r: usize)
    ensures
        r == digit_run(s@, i as int),
        i + r <= s@.len() || r == 0,
    decreases s@.len() - i,
{
    if i < s.len() && 48 <= s[i] && s[i] <= 57 {
        1 + run_len(s, i + 1)
    } else {
        0
    }
}

fn occurs(s: &[u8], p: usize, t: &Vec<u8>) -> (r: bool)
    requires
        s@.len() <= usize::MAX,
    ensures
        r == occurs_at(s@, p as int, t@),
{
    if p > s.len() || t.len() > s.len() - p {
        return false;
    }
    let mut j: usize = 0;
    while j < t.len()
        invariant
            j <= t@.len(),
            p + t@.len() <= s@.len(),
            p <= s@.len(),
            s@.len() <= usize::MAX,
            forall|k: int| 0 <= k < j ==> s@[p + k] == t@[k],
        decreases t@.len() - j,
    {
        let idx: usize = p + j;
        if s[idx] != t[j] {
            assert(s@.subrange(p as int, p + t@.len())[j as int] != t@[j as int]);
            return false;
        }
        j = j + 1;
    }
    assert(s@.subrange(p as int, p + t@.len()) =~= t@);
    true
}

/// The value of `n` digits at `i`, or `None` where it exceeds `u32::MAX`.
fn decimal_u32(s: &[u8], i: usize, n: usize) -> (r: Option<u32>)
    requires
        i + n <= s@.len(),
        s@.len() <= usize::MAX,
        forall|k: int| i <= k < i + n ==> is_digit(#[trigger] s@[k]),
    ensures
        r matches Some(v) ==> v == decimal(s@, i as int, n as int),
        r is None ==> decimal(s@, i as int, n as int) > u32::MAX,
{
    let mut acc: u32 = 0;
    let mut j: usize = 0;
    while j < n
        invariant
            j <= n,
            i + n <= s@.len(),
            s@.len() <= usize::MAX,
            forall|k: int| i <= k < i + n ==> is_digit(#[trigger] s@[k]),
            acc == decimal(s@, i as int, j as int),
        decreases n - j,
    {
        assert(is_digit(s@[i + j]));
        let idx: usize = i + j;
        let d: u32 = (s[idx] - 48) as u32;
        if acc > (u32::MAX - d) / 10 {
            assert(acc * 10 + d > u32::MAX) by (nonlinear_arith)
                requires
                    acc > (u32::MAX - d) / 10,
                    0 <= d <= 9,
            ;
            proof {
                lemma_decimal_grows(s@, i as int, j as int + 1, n as int);
            }
            return None;
        }
        acc = acc * 10 + d;
        j = j + 1;
    }
    Some(acc)
}

proof fn lemma_decimal_grows(s: Seq<u8>, i: int, m: int, n: int)
    requires
        0 <= m <= n,
        0 <= i,
        i + n <= s.len(),
        forall|k: int| i <= k < i + n ==> is_digit(#[trigger] s[k]),
    ensures
        decimal(s, i, m) <= decimal(s, i, n),
    decreases n - m,
{
    if m < n {
        lemma_decimal_grows(s, i, m, n - 1);
        lemma_decimal_nonneg(s, i, n - 1);
        assert(is_digit(s[i + n - 1]));
    }
}

proof fn lemma_decimal_nonneg(s: Seq<u8>, i: int, n: int)
    requires
        0 <= i,
        i + n <= s.len(),
        forall|k: int| i <= k < i + n ==> is_digit(#[trigger] s[k]),
    ensures
        decimal(s, i, n) >= 0,
    decreases n,
{
    if n > 0 {
        lemma_decimal_nonneg(s, i, n - 1);
        assert(is_digit(s[i + n - 1]));
    }
}

proof fn lemma_run_digits(s: Seq<u8>, i: int)
    requires
        0 <= i,
    ensures
        forall|k: int| i <= k < i + digit_run(s, i) ==> is_digit(#[trigger] s[k]),
        digit_run(s, i) > 0 ==> i + digit_run(s, i) <= s.len(),
        digit_run(s, i) >= 0,
    decreases s.len() - i,
{
    if 0 <= i < s.len() && is_digit(s[i]) {
        lemma_run_digits(s, i + 1);
    }
}

/// Finds the last occurrence of `pre DIGITS sep DIGITS` in `s` and reads its
/// two numbers; `None` where there is none. The flag tells whether both
/// numbers fit `u32`.
fn scan_size(s: &[u8], pre: &Vec<u8>, sep: &Vec<u8>) -> (r: Option<Option<Dimensions>>)
    requires
        s@.len() < usize::MAX - 16,
        pre@.len() < 8,
        sep@.len() < 8,
    ensures
        r is None <==> last_capture(s@, 0, pre@, sep@) is None,
        r matches Some(d) ==> d == size_from(s@, pre@, sep@),
{
    let mut found: Option<Option<Dimensions>> = None;
    let ghost mut last: Option<(int, int)> = None;
    let mut k: usize = 0;
    while k < s.len()
        invariant
            k <= s@.len(),
            s@.len() < usize::MAX - 16,
            pre@.len() < 8,
            sep@.len() < 8,
            last_capture(s@, 0, pre@, sep@) == match last_capture(s@, k as int, pre@, sep@) {
                Some(c) => Some(c),
                None => last,
            },
            found is None <==> last is None,
            last matches Some((w, h)) ==> found == Some(
                if w <= u32::MAX && h <= u32::MAX {
                    Some(Dimensions { width: w as u32, height: h as u32 })
                } else {
                    None
                },
            ),
        decreases s@.len() - k,
    {
        let a = k + pre.len();
        let mut matched = false;
        if occurs(s, k, pre) {
            let ra = run_len(s, a);
            if ra > 0 && occurs(s, a + ra, sep) {
                let b = a + ra + sep.len();
                let rb = run_len(s, b);
                if rb > 0 {
                    proof {
                        lemma_run_digits(s@, a as int);
                        lemma_run_digits(s@, b as int);
                        assert(matches_at(s@, k as int, pre@, sep@));
                    }
                    let w = decimal_u32(s, a, ra);
                    let h = decimal_u32(s, b, rb);
                    proof {
                        last = Some(captures_at(s@, k as int, pre@, sep@));
                    }
                    found = match (w, h) {
                        (Some(w), Some(h)) => Some(Some(Dimensions { width: w, height: h })),
                        _ => Some(None),
                    };
                    matched = true;
                    k = b + rb;
                }
            }
        }
        if !matched {
            k = k + 1;
        }
    }
    found
}

fn resolution_sep_bytes() -> (r: Vec<u8>)
    ensures
        r@ == resolution_sep(),
{
    let r: Vec<u8> = vec![120u8];
    assert(r@ =~= resolution_sep());
    r
}

/// Reads the resolution a probe prints, such as `1920x1080`; the last
/// `WIDTHxHEIGHT` in the text counts. `None` where there is none or a number
/// exceeds `u32::MAX`.
pub fn parse_video_dimensions(line: &str) -> (r: Option<Dimensions>)
    requires
        line.spec_bytes().len() < usize::MAX - 16,
    ensures
        r == size_from(line.spec_bytes(), Seq::empty(), resolution_sep()),
{
    let bytes = line.as_bytes();
    let pre: Vec<u8> = Vec::new();
    let sep = resolution_sep_bytes();
    assert(pre@ =~= Seq::<u8>::empty());
    match scan_size(bytes, &pre, &sep) {
        Some(d) => d,
        None => None,
    }
}

/// The output frame size a video filter asks for: from its last
/// `w=WIDTH:h=HEIGHT`, or where it has none, from its last
/// `scale=WIDTH:HEIGHT`. `None` where neither occurs or the chosen numbers
/// exceed `u32::MAX`.
pub fn get_dimension_from_video_filter(video_filter: &str) -> (r: Option<Dimensions>)
    requires
        video_filter.spec_bytes().len() < usize::MAX - 16,
    ensures
        r == filter_size(video_filter.spec_bytes()),
{
    let bytes = video_filter.as_bytes();
    let pre: Vec<u8> = vec![119u8, 61u8];
    let sep: Vec<u8> = vec![58u8, 104u8, 61u8];
    assert(pre@ =~= wh_pre());
    assert(sep@ =~= wh_sep());
    match scan_size(bytes, &pre, &sep) {
        Some(d) => d,
        None => {
            let pre2: Vec<u8> = vec![115u8, 99u8, 97u8, 108u8, 101u8, 61u8];
            let sep2: Vec<u8> = vec![58u8];
            assert(pre2@ =~= scale_pre());
            assert(sep2@ =~= scale_sep());
            match scan_size(bytes, &pre2, &sep2) {
                Some(d) => d,
                None => None,
            }
        },
    }
}

} // verus!
