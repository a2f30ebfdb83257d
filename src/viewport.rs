use vstd::prelude::*;

verus! {

/// The projection parameters chosen while picking a VR viewport, in degrees.
#[derive(Clone, Copy, Debug, PartialEq, Eq, Structural)]
pub struct Viewport {
    pub pitch: i8,
    pub yaw: i8,
    pub fov: u8,
}

/// Degrees one key press turns or zooms by.
pub const VIEWPORT_STEP: i8 = 5;

/// `v` moved by `d`, or left where the move would leave the type's range.
pub open spec fn nudged_i8(v: i8, d: int) -> i8 {
    if i8::MIN <= v + d <= i8::MAX {
        (v + d) as i8
    } else {
        v
    }
}

pub open spec fn nudged_u8(v: u8, d: int) -> u8 {
    if 0 <= v + d <= u8::MAX {
        (v + d) as u8
    } else {
        v
    }
}

/// The viewport after a key press, and whether the key confirms it:
/// `q`, space or return confirm; `w`/`s` tilt up/down, `a`/`d` turn left/right,
/// `+`/`-` narrow/widen the field of view; other keys change nothing.
pub open spec fn viewport_key(v: Viewport, key: char) -> (Viewport, bool) {
    if key == 'q' || key == ' ' || key == '\n' {
        (v, true)
    } else if key == 'w' {
        (Viewport { pitch: nudged_i8(v.pitch, 5), ..v }, false)
    } else if key == 's' {
        (Viewport { pitch: nudged_i8(v.pitch, -5), ..v }, false)
    } else if key == 'a' {
        (Viewport { yaw: nudged_i8(v.yaw, -5), ..v }, false)
    } else if key == 'd' {
        (Viewport { yaw: nudged_i8(v.yaw, 5), ..v }, false)
    } else if key == '+' {
        (Viewport { fov: nudged_u8(v.fov, -5), ..v }, false)
    } else if key == '-' {
        (Viewport { fov: nudged_u8(v.fov, 5), ..v }, false)
    } else {
        (v, false)
    }
}

fn nudge_i8(v: i8, up: bool) -> (r: i8)
    ensures
        r == nudged_i8(v, if up { 5int } else { -5int }),
{
    if up {
        if v <= i8::MAX - VIEWPORT_STEP {
            v + VIEWPORT_STEP
        } else {
            v
        }
    } else {
        if v >= i8::MIN + VIEWPORT_STEP {
            v - VIEWPORT_STEP
        } else {
            v
        }
    }
}

fn nudge_u8(v: u8, up: bool) -> (r: u8)
    ensures
        r == nudged_u8(v, if up { 5int } else { -5int }),
{
    if up {
        if v <= u8::MAX - 5 {
            v + 5
        } else {
            v
        }
    } else {
        if v >= 5 {
            v - 5
        } else {
            v
        }
    }
}

impl Viewport {
    /// The starting viewport: pitched 25 degrees down, facing ahead, 90 degrees wide.
    pub fn new() -> (r: Viewport)
        ensures
            r.pitch == -25 && r.yaw == 0 && r.fov == 90,
    {
        Viewport { pitch: -25, yaw: 0, fov: 90 }
    }

    /// Applies one key press; returns whether the key confirms the viewport.
    pub fn on_key(&mut self, key: char) -> (done: bool)
        ensures
            (*final(self), done) == viewport_key(*old(self), key),
    {
        if key == 'q' || key == ' ' || key == '\n' {
            return true;
        }
        if key == 'w' {
            self.pitch = nudge_i8(self.pitch, true);
        } else if key == 's' {
            self.pitch = nudge_i8(self.pitch, false);
        } else if key == 'a' {
            self.yaw = nudge_i8(self.yaw, false);
        } else if key == 'd' {
            self.yaw = nudge_i8(self.yaw, true);
        } else if key == '+' {
            self.fov = nudge_u8(self.fov, false);
        } else if key == '-' {
            self.fov = nudge_u8(self.fov, true);
        }
        false
    }
}

} // verus!
