//! Solved per-node geometry, in whole pixels.

use vstd::prelude::*;

verus! {

/// The absolute position, border-box size and border widths of one node.
#[derive(Clone, Copy, Debug, PartialEq, Eq, Structural)]
pub struct Layout {
    pub x: u32,
    pub y: u32,
    pub width: u32,
    pub height: u32,
    pub border_top: u32,
    pub border_right: u32,
    pub border_bottom: u32,
    pub border_left: u32,
}

impl Layout {
    /// The box lies inside the coordinate range and its borders fit inside it.
    pub open spec fn wf(&self) -> bool {
        &&& self.x as int + self.width as int <= u32::MAX
        &&& self.y as int + self.height as int <= u32::MAX
        &&& self.border_left as int + self.border_right as int <= self.width as int
        &&& self.border_top as int + self.border_bottom as int <= self.height as int
    }

    /// All four border widths are zero.
    pub open spec fn no_border(&self) -> bool {
        self.border_top == 0 && self.border_right == 0 && self.border_bottom == 0
            && self.border_left == 0
    }

    /// Whether `(i, j)` lies in the border box.
    pub open spec fn in_outer(&self, i: int, j: int) -> bool {
        self.x <= i < self.x + self.width && self.y <= j < self.y + self.height
    }

    /// Whether `(i, j)` lies in the area inside the borders.
    pub open spec fn in_inner(&self, i: int, j: int) -> bool {
        &&& self.x + self.border_left <= i < self.x + self.width - self.border_right
        &&& self.y + self.border_top <= j < self.y + self.height - self.border_bottom
    }

    /// Whether `(i, j)` lies on the border ring: in the box but not inside the borders.
    pub open spec fn in_ring(&self, i: int, j: int) -> bool {
        self.in_outer(i, j) && !self.in_inner(i, j)
    }
}

} // verus!
