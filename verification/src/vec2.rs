use vstd::prelude::*;

verus! {

/// A position on the level grid: an integer pair with component-wise
/// equality and addition. The grid itself is unbounded; walls are what
/// constrain movement, not grid edges.
#[derive(Clone, Copy, Debug, PartialEq, Eq, Structural)]
pub struct Vec2 {
    pub x: i32,
    pub y: i32,
}

impl View for Vec2 {
    type V = (int, int);

    open spec fn view(&self) -> (int, int) {
        (self.x as int, self.y as int)
    }
}

impl Vec2 {
    /// Component-wise addition, in place.
    pub fn add(&mut self, vec: Vec2)
        requires
            i32::MIN <= old(self).x + vec.x <= i32::MAX,
            i32::MIN <= old(self).y + vec.y <= i32::MAX,
        ensures
            final(self).x == old(self).x + vec.x,
            final(self).y == old(self).y + vec.y,
    {
        self.x = self.x + vec.x;
        self.y = self.y + vec.y;
    }

    /// True exactly on the origin, which the parser uses as the
    /// "player missing" sentinel.
    pub fn is_zero(&self) -> (r: bool)
        ensures
            r == (self.x == 0 && self.y == 0),
    {
        self.x == 0 && self.y == 0
    }
}

} // verus!
