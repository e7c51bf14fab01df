use vstd::prelude::*;

verus! {

/// Width and height in pixels.
#[derive(Clone, Copy, PartialEq, Eq, Structural, Debug)]
pub struct Size {
    pub width: u32,
    pub height: u32,
}

impl Size {
    pub fn new(width: u32, height: u32) -> (s: Size)
        ensures
            s == (Size { width, height }),
    {
        Size { width, height }
    }
}

/// Whether the half-open rectangles `[ax, ax + aw) x [ay, ay + ah)` and
/// `[bx, bx + bw) x [by, by + bh)` share no pixel.
pub open spec fn rects_disjoint(ax: int, ay: int, aw: int, ah: int, bx: int, by: int, bw: int, bh: int) -> bool {
    ax + aw <= bx || bx + bw <= ax || ay + ah <= by || by + bh <= ay
}

} // verus!
