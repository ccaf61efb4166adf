use vstd::prelude::*;

verus! {

/// The kinds of geometric shape, numbered from 0 in this order.
#[derive(Debug, Clone, Copy, PartialEq, Eq, Structural)]
pub enum ShapeEnum {
    ShapeAABB,
    ShapeSphere,
    ShapeOBB,
    ShapeRay,
    ShapeLine,
    ShapeFrustum,
    ShapePlane,
}

/// Where a shape lies relative to a plane.
#[derive(Debug, Clone, Copy, PartialEq, Eq, Structural)]
pub enum PlaneIntersectResult {
    Intersect,
    OutsideFront,
    InsideBack,
}

impl PlaneIntersectResult {
    /// The numeric result: 1 when crossing, 0 in front, -1 behind.
    pub open spec fn spec_code(self) -> int {
        match self {
            PlaneIntersectResult::Intersect => 1,
            PlaneIntersectResult::OutsideFront => 0,
            PlaneIntersectResult::InsideBack => -1,
        }
    }

    pub fn code(self) -> (r: i32)
        ensures
            r == self.spec_code(),
    {
        match self {
            PlaneIntersectResult::Intersect => 1,
            PlaneIntersectResult::OutsideFront => 0,
            PlaneIntersectResult::InsideBack => -1,
        }
    }
}

} // verus!
