use vstd::prelude::*;
use vstd::string::StringExecFns;

verus! {

/// The decimal digit `d`.
pub open spec fn digit_char(d: int) -> char {
    if d == 0 {
        '0'
    } else if d == 1 {
        '1'
    } else if d == 2 {
        '2'
    } else if d == 3 {
        '3'
    } else if d == 4 {
        '4'
    } else if d == 5 {
        '5'
    } else if d == 6 {
        '6'
    } else if d == 7 {
        '7'
    } else if d == 8 {
        '8'
    } else {
        '9'
    }
}

/// `HH:MM:SS.mmm` for a time in milliseconds, the hours taken modulo 24.
pub open spec fn timestamp_text(ms: int) -> Seq<char> {
    let h = (ms / 3_600_000) % 24;
    let m = (ms / 60_000) % 60;
    let s = (ms / 1000) % 60;
    let f = ms % 1000;
    seq![
        digit_char(h / 10),
        digit_char(h % 10),
        ':',
        digit_char(m / 10),
        digit_char(m % 10),
        ':',
        digit_char(s / 10),
        digit_char(s % 10),
        '.',
        digit_char(f / 100),
        digit_char((f / 10) % 10),
        digit_char(f % 10),
    ]
}

fn digit(d: u32) -> (r: &'static str)
    requires
        d < 10,
    ensures
        r@ == seq![digit_char(d as int)],
{
    match d {
        0 => {
            proof {
                reveal_strlit("0");
            }
            "0"
        },
        1 => {
            proof {
                reveal_strlit("1");
            }
            "1"
        },
        2 => {
            proof {
                reveal_strlit("2");
            }
            "2"
        },
        3 => {
            proof {
                reveal_strlit("3");
            }
            "3"
        },
        4 => {
            proof {
                reveal_strlit("4");
            }
            "4"
        },
        5 => {
            proof {
                reveal_strlit("5");
            }
            "5"
        },
        6 => {
            proof {
                reveal_strlit("6");
            }
            "6"
        },
        7 => {
            proof {
                reveal_strlit("7");
            }
            "7"
        },
        8 => {
            proof {
                reveal_strlit("8");
            }
            "8"
        },
        _ => {
            proof {
                reveal_strlit("9");
            }
            "9"
        },
    }
}

/// Formats a time in milliseconds as `HH:MM:SS.mmm`, the form a decoder
/// takes as a seek position.
pub fn millisec_to_timestamp(val: u32) -> (r: String)
    ensures
        r@ == timestamp_text(val as int),
{
    let hours: u32 = (val / 3_600_000) % 24;
    let minutes: u32 = (val / 60_000) % 60;
    let seconds: u32 = (val / 1000) % 60;
    let millis: u32 = val % 1000;
    let colon = ":";
    let dot = ".";
    proof {
        reveal_strlit(":");
        reveal_strlit(".");
    }
    let mut v = String::new();
    v.append(digit(hours / 10));
    v.append(digit(hours % 10));
    v.append(colon);
    v.append(digit(minutes / 10));
    v.append(digit(minutes % 10));
    v.append(colon);
    v.append(digit(seconds / 10));
    v.append(digit(seconds % 10));
    v.append(dot);
    v.append(digit(millis / 100));
    v.append(digit((millis / 10) % 10));
    v.append(digit(millis % 10));
    assert(v@ =~= timestamp_text(val as int));
    v
}

} // verus!
