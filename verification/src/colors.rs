//! The color slots that game transitions fade in and out.

use vstd::prelude::*;

verus! {

/// One fading color of the game screen; `PlayerText(i)` is the name and
/// score text of player `i`.
#[derive(Copy, Clone, Debug, PartialEq, Eq, Structural)]
pub enum ColorField {
    Brick,
    Pillar,
    Gameboard,
    Wall,
    Title,
    Text,
    Gem,
    PlayerText(usize),
}

} // verus!
