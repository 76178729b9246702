//! Player pieces: facing direction, animation choice, the turn counters a
//! player carries, and the rule that keeps two pieces off one cell.

use vstd::prelude::*;
use crate::board::BoardCell;

verus! {

#[derive(Copy, Clone, Debug, PartialEq, Eq, Structural)]
pub enum Direction {
    Idle,
    Left,
    Right,
    Up,
    Down,
}

/// The counters of a player piece: its number (0 to 3, which also picks its
/// start corner and text color), the moves left this turn, and the tokens it
/// has collected.
#[derive(Copy, Clone, Debug, PartialEq, Eq, Structural)]
pub struct PlayerStatus {
    pub player_id: usize,
    pub num_moves: i32,
    pub tokens_collected: i32,
}

impl PlayerStatus {
    pub fn new(player_id: usize, num_moves: i32) -> (player: Self)
        ensures
            player == (PlayerStatus { player_id, num_moves, tokens_collected: 0 }),
    {
        PlayerStatus { player_id, num_moves, tokens_collected: 0 }
    }
}

/// The sprite animation a piece shows when it moves in `direction`: 0 idle,
/// 1 walking left, 2 walking right; moving up or down shows walking right for
/// players 0 and 3 and walking left for the others.
pub open spec fn animation_spec(player_id: usize, direction: Direction) -> usize {
    let movement: usize = if player_id == 0 || player_id == 3 { 2 } else { 1 };
    match direction {
        Direction::Left => 1,
        Direction::Right => 2,
        Direction::Up => movement,
        Direction::Down => movement,
        Direction::Idle => 0,
    }
}

/// Chooses the animation for the direction moved.
pub fn animate(player_id: usize, direction: Direction) -> (animation: usize)
    ensures
        animation == animation_spec(player_id, direction),
{
    let movement = if player_id == 0 || player_id == 3 {
        2
    } else {
        1
    };
    match direction {
        Direction::Left => 1,
        Direction::Right => 2,
        Direction::Up => movement,
        Direction::Down => movement,
        Direction::Idle => 0,
    }
}

/// Some player other than `current_player` stands on `target`.
/// `positions[i]` is the cell on which player `i` stands, `None` while it is
/// between cells.
pub open spec fn occupied(positions: Seq<Option<BoardCell>>, target: BoardCell, current_player: int) -> bool {
    exists|i: int| 0 <= i < positions.len() && i != current_player && #[trigger] positions[i] == Some(target)
}

/// Keeps two pieces off one cell: true when another piece already stands on
/// the target cell.
pub fn player_collision(positions: &[Option<BoardCell>], target_pos: BoardCell, current_player: usize) -> (r: bool)
    ensures
        r == occupied(positions@, target_pos, current_player as int),
        forall|i: int| 0 <= i < positions@.len() && i != current_player && positions@[i] == Some(target_pos) ==> r,
        r ==> exists|i: int| 0 <= i < positions@.len() && i != current_player && positions@[i] == Some(target_pos),
{
    let mut index: usize = 0;
    while index < positions.len()
        invariant
            index <= positions@.len(),
            forall|i: int| 0 <= i < index && i != current_player ==> positions@[i] != Some(target_pos),
        decreases positions@.len() - index,
    {
        if index != current_player {
            match positions[index] {
                Some(cell) => {
                    if cell.0 == target_pos.0 && cell.1 == target_pos.1 {
                        return true;
                    }
                },
                None => {},
            }
        }
        index = index + 1;
    }
    false
}

/// Any piece but the current one blocks the cell it stands on, whatever its
/// place in the list, and only such a piece does.
pub proof fn lemma_every_other_piece_blocks(positions: Seq<Option<BoardCell>>, target: BoardCell, current_player: int)
    ensures
        forall|i: int| 0 <= i < positions.len() && i != current_player && positions[i] == Some(target)
            ==> occupied(positions, target, current_player),
        occupied(positions, target, current_player)
            ==> exists|i: int| 0 <= i < positions.len() && i != current_player && positions[i] == Some(target),
{
    assert forall|i: int| 0 <= i < positions.len() && i != current_player && positions[i] == Some(target)
        implies occupied(positions, target, current_player) by {
        assert(positions[i] == Some(target));
    }
}

} // verus!
