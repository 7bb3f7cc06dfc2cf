//! Screen coordinates and the three-way comparisons that order sibling
//! windows by their on-screen position.

use vstd::prelude::*;
use core::cmp::Ordering;

verus! {

/// A point on the screen. `y` is 0 at the top and grows downward; `x` is 0 at
/// the left and grows rightward.
#[derive(Debug, Clone, Copy, PartialEq, Eq, Structural)]
pub struct Coord {
    pub x: i64,
    pub y: i64,
}

/// Three-way comparison that ranks a coordinate earlier the lower on the
/// screen it is, or, at equal height grounds, the further left it is.
pub open spec fn spec_asc_below_or_right_of(a: Coord, b: Coord) -> Ordering {
    if a == b {
        Ordering::Equal
    } else if a.y > b.y || a.x < b.x {
        Ordering::Less
    } else {
        Ordering::Greater
    }
}

/// Three-way comparison that ranks a coordinate earlier the higher on the
/// screen it is, or, at equal height grounds, the further left it is.
pub open spec fn spec_asc_above_or_right_of(a: Coord, b: Coord) -> Ordering {
    if a == b {
        Ordering::Equal
    } else if a.y < b.y || a.x < b.x {
        Ordering::Less
    } else {
        Ordering::Greater
    }
}

impl Coord {
    /// Ascending "below or right of" comparison, see
    /// [`spec_asc_below_or_right_of`].
    pub fn asc_below_or_right_of(&self, b: &Coord) -> (o: Ordering)
        ensures
            o == spec_asc_below_or_right_of(*self, *b),
    {
        if *self == *b {
            Ordering::Equal
        } else if self.y > b.y || self.x < b.x {
            Ordering::Less
        } else {
            Ordering::Greater
        }
    }

    /// Ascending "above or right of" comparison, see
    /// [`spec_asc_above_or_right_of`].
    pub fn asc_above_or_right_of(&self, b: &Coord) -> (o: Ordering)
        ensures
            o == spec_asc_above_or_right_of(*self, *b),
    {
        if *self == *b {
            Ordering::Equal
        } else if self.y < b.y || self.x < b.x {
            Ordering::Less
        } else {
            Ordering::Greater
        }
    }
}

} // verus!
