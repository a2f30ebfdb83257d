use vstd::prelude::*;

verus! {

/// A video frame rate as the rational `num / den` frames per second.
#[derive(Clone, Copy, Debug, PartialEq, Eq, Structural)]
pub struct FrameRate {
    pub num: u32,
    pub den: u32,
}

/// The rate assumed where a video's own cannot be determined: 30 fps.
pub const DEFAULT_FPS: u32 = 30;

/// The sign, numerator and denominator that a frame rate text parses to:
/// `None` where it does not parse, `Some(None)` where it parses to NaN or an
/// infinity.
pub uninterp spec fn parsed_fraction(s: Seq<char>) -> Option<Option<(bool, u64, u64)>>;

/// Relies on `<fraction::Fraction as FromStr>::from_str`, then `numer`,
/// `denom` and `is_sign_negative`: the parts of the parsed fraction.
#[verifier::external_body]
fn parse_fraction(s: &str) -> (r: Option<Option<(bool, u64, u64)>>)
    ensures
        r == parsed_fraction(s@),
{
    match s.parse::<fraction::Fraction>() {
        Ok(f) => match (f.numer(), f.denom()) {
            (Some(n), Some(d)) => Some(Some((f.is_sign_negative(), *n, *d))),
            _ => Some(None),
        },
        Err(_) => None,
    }
}

impl FrameRate {
    /// A usable rate: positive numerator and denominator.
    pub open spec fn wf(&self) -> bool {
        self.num > 0 && self.den > 0
    }

    pub open spec fn default_rate() -> FrameRate {
        FrameRate { num: DEFAULT_FPS, den: 1 }
    }

    /// The rate of a parsed fraction: a positive rational whose parts fit
    /// `u32`; anything else gives the default rate.
    pub open spec fn from_parts_spec(p: Option<(bool, u64, u64)>) -> FrameRate {
        match p {
            Some((negative, n, d)) => if !negative && 0 < n <= u32::MAX && 0 < d <= u32::MAX {
                FrameRate { num: n as u32, den: d as u32 }
            } else {
                FrameRate::default_rate()
            },
            None => FrameRate::default_rate(),
        }
    }

    /// The rate `num / den` frames per second.
    pub fn new(num: u32, den: u32) -> (r: FrameRate)
        ensures
            r == (FrameRate { num, den }),
    {
        FrameRate { num, den }
    }

    /// Builds a rate from a parsed fraction, falling back to the default rate.
    pub fn from_parts(p: Option<(bool, u64, u64)>) -> (r: FrameRate)
        ensures
            r == FrameRate::from_parts_spec(p),
            r.wf(),
    {
        match p {
            Some((negative, n, d)) => {
                if !negative && 0 < n && n <= u32::MAX as u64 && 0 < d && d <= u32::MAX as u64 {
                    FrameRate { num: n as u32, den: d as u32 }
                } else {
                    FrameRate { num: DEFAULT_FPS, den: 1 }
                }
            },
            None => FrameRate { num: DEFAULT_FPS, den: 1 },
        }
    }

    /// Reads a rate such as `30000/1001` or `25`. Text that does not parse
    /// gives `None`; a fraction that is no usable rate gives the default.
    pub fn parse(s: &str) -> (r: Option<FrameRate>)
        ensures
            parsed_fraction(s@) is None ==> r is None,
            parsed_fraction(s@) matches Some(p) ==> r == Some(FrameRate::from_parts_spec(p)),
            r matches Some(f) ==> f.wf(),
    {
        match parse_fraction(s) {
            Some(p) => Some(FrameRate::from_parts(p)),
            None => None,
        }
    }
}

} // verus!
