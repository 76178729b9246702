//! Shared integer constants for board geometry and gameplay values.

use vstd::prelude::*;

verus! {

/// Window size used when creating the app window.
pub const WINDOW_WIDTH: i32 = 1400;
pub const WINDOW_HEIGHT: i32 = 1000;

/// Board grid counts: a 6x6 playable grid and its wall slots.
pub const GAMEBOARD_SIZE: i32 = 6;
pub const WALL_SLOT_COUNT: usize = 30;
pub const WALL_ROW_COUNT: i32 = 5;

/// Board geometry in pixels, used where wall positions are stored as grid coordinates.
pub const SQUARE_SIZE_I32: i32 = 150;
pub const PADDING_I32: i32 = 20;
pub const CELL_STRIDE_I32: i32 = 170;
pub const BOARD_SIZE_I32: i32 = 1000;
pub const LAST_WALL_OFFSET_I32: i32 = 830;

/// Gameplay setup values: the sides of the movement die, the board cells
/// (by `6 * row + col`) that hold no token, and the most walls on the board.
pub const DICE_SIDES: [i32; 6] = [1, 2, 2, 3, 3, 4];
pub const SKIP_POS: [i32; 12] = [0, 1, 4, 5, 6, 11, 24, 29, 30, 31, 34, 35];
pub const MAX_WALLS: usize = 24;

/// The start cell (row, col) of each player: the four corners, top-left,
/// bottom-right, top-right, bottom-left.
pub const INITIAL_POS: [(i32, i32); 4] = [(0, 0), (5, 5), (0, 5), (5, 0)];

} // verus!
