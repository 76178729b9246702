//! Wall model and orientation.

use vstd::prelude::*;
use crate::config::{PADDING_I32, SQUARE_SIZE_I32};

verus! {

#[derive(Copy, Clone, Hash, Eq, PartialEq, Debug, Structural)]
pub enum WallOrientation {
    Horizontal,
    Vertical,
}

#[derive(Copy, Clone, Hash, Eq, PartialEq, Debug, Structural)]
pub struct Wall {
    pub x: i32,
    pub y: i32,
    pub w: i32,
    pub h: i32,
    pub orientation: WallOrientation,
}

/// The wall that `Wall::new(x, y, orientation)` builds: a horizontal wall is
/// one square wide and one padding high, a vertical wall the other way round.
pub open spec fn wall_spec(x: i32, y: i32, orientation: WallOrientation) -> Wall {
    match orientation {
        WallOrientation::Horizontal => Wall { x, y, w: 150, h: 20, orientation },
        WallOrientation::Vertical => Wall { x, y, w: 20, h: 150, orientation },
    }
}

impl Wall {
    pub fn new(x: i32, y: i32, orientation: WallOrientation) -> (wall: Self)
        ensures
            wall == wall_spec(x, y, orientation),
    {
        let (w, h) = match orientation {
            WallOrientation::Horizontal => (SQUARE_SIZE_I32, PADDING_I32),
            WallOrientation::Vertical => (PADDING_I32, SQUARE_SIZE_I32),
        };
        Wall { x, y, w, h, orientation }
    }
}

} // verus!
