//! Rectangles in pixel space.

use vstd::prelude::*;

verus! {

/// An axis-aligned rectangle: the top-left corner and the extent.
#[derive(Clone, Copy, Debug, PartialEq, Eq, Structural)]
pub struct Region {
    pub x: i32,
    pub y: i32,
    pub width: i32,
    pub height: i32,
}

impl Region {
    /// A region covers at least one pixel and its far edges are representable.
    pub open spec fn wf(self) -> bool {
        &&& self.width > 0
        &&& self.height > 0
        &&& self.x + self.width <= i32::MAX
        &&& self.y + self.height <= i32::MAX
    }

    /// The number of pixels the region covers.
    pub open spec fn spec_area(self) -> int {
        self.width * self.height
    }

    /// Every pixel of `self` lies in `outer`.
    pub open spec fn within(self, outer: Region) -> bool {
        &&& outer.x <= self.x
        &&& outer.y <= self.y
        &&& self.x + self.width <= outer.x + outer.width
        &&& self.y + self.height <= outer.y + outer.height
    }

    pub fn new(x: i32, y: i32, width: i32, height: i32) -> (r: Region)
        ensures
            r == (Region { x, y, width, height }),
    {
        Region { x, y, width, height }
    }

    /// Whether the region satisfies [`Region::wf`].
    pub fn is_wf(&self) -> (ok: bool)
        ensures
            ok == self.wf(),
    {
        self.width > 0 && self.height > 0 && self.x <= i32::MAX - self.width && self.y <= i32::MAX
            - self.height
    }

    /// The number of pixels the region covers, wide enough for every region.
    pub fn area(&self) -> (a: i64)
        ensures
            a == self.spec_area(),
    {
        assert(-0x8000_0000 * 0x8000_0000 <= self.width * self.height <= 0x8000_0000 * 0x8000_0000)
            by (nonlinear_arith)
            requires
                -0x8000_0000 <= self.width <= 0x7fff_ffff,
                -0x8000_0000 <= self.height <= 0x7fff_ffff,
        ;
        (self.width as i64) * (self.height as i64)
    }
}

} // verus!
