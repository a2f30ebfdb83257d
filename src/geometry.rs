use vstd::prelude::*;

verus! {

/// An axis-aligned rectangle in frame pixel space, as reported by a tracker.
#[derive(Clone, Copy, Debug, PartialEq, Eq, Structural)]
pub struct BoundingBox {
    pub x: i32,
    pub y: i32,
    pub width: i32,
    pub height: i32,
}

/// The center of a tracking box, in pixels.
#[derive(Clone, Copy, Debug, PartialEq, Eq, Structural)]
pub struct CenterPoint {
    pub x: i64,
    pub y: i64,
}

/// Center of a box along one axis: `origin + extent / 2`, the division
/// truncating toward zero.
pub open spec fn center_coord(origin: i32, extent: i32) -> int {
    origin as int + (extent as int) / 2 - if extent < 0 && extent % 2 != 0 { -1int } else { 0int }
}

pub open spec fn center_of(b: BoundingBox) -> CenterPoint {
    CenterPoint { x: center_coord(b.x, b.width) as i64, y: center_coord(b.y, b.height) as i64 }
}

impl BoundingBox {
    pub fn new(x: i32, y: i32, width: i32, height: i32) -> (r: BoundingBox)
        ensures
            r == (BoundingBox { x, y, width, height }),
    {
        BoundingBox { x, y, width, height }
    }

    /// The center point `{x + width / 2, y + height / 2}`.
    pub fn center(&self) -> (r: CenterPoint)
        ensures
            r == center_of(*self),
            r.x == center_coord(self.x, self.width),
            r.y == center_coord(self.y, self.height),
    {
        let cx: i64 = self.x as i64 + (self.width / 2) as i64;
        let cy: i64 = self.y as i64 + (self.height / 2) as i64;
        CenterPoint { x: cx, y: cy }
    }
}

} // verus!
