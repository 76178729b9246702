//! Shared game data used by state updates, menus, and gameplay setup.

use vstd::prelude::*;
use rand::rngs::ThreadRng;
use crate::config::MAX_WALLS;
use crate::player::{Direction, PlayerStatus};
use crate::random::shuffle;
use crate::board::BoardCell;
use crate::wall_placement::WallPlacementState;

verus! {

#[derive(Copy, Clone, Debug, PartialEq, Eq, Structural)]
pub enum PostGameChoice {
    Undecided,
    Quit,
    PlayAgain,
}

/// A token on the board: its cell and the index of its item picture.
pub type TokenSlot = (BoardCell, usize);

/// The game's data as plain values. `target_pos` is the cell the current
/// player moves to; the token lists hold token slots.
pub struct GameData {
    pub num_players: usize,
    pub player_turn: usize,
    pub players_on_board: Vec<PlayerStatus>,
    pub target_pos: BoardCell,
    pub tokens_to_win: usize,
    pub token_taken: bool,
    pub wall_placement: WallPlacementState,
    pub wall_collision: bool,
    pub color_to_transparent: bool,
    pub set_state: bool,
    pub element_color_change: bool,
    pub gamepieces_visible: bool,
    pub post_game_choice: PostGameChoice,
    pub token_positions: Vec<TokenSlot>,
    pub token_list: Vec<TokenSlot>,
    pub static_token_list: Vec<TokenSlot>,
    pub direction: Direction,
}

/// Cell `k` of the board in row-major order.
pub open spec fn board_cell(k: int) -> BoardCell {
    ((k / 6) as i32, (k % 6) as i32)
}

pub open spec fn not_skipped(skip_pos: Seq<i32>) -> spec_fn(BoardCell) -> bool {
    |c: BoardCell| !skip_pos.contains((c.0 * 6 + c.1) as i32)
}

/// The cells that hold a token, in row-major order: every cell whose number
/// `6 * row + col` is not in `skip_pos`.
pub open spec fn token_layout(skip_pos: Seq<i32>) -> Seq<BoardCell> {
    Seq::new(36, |k: int| board_cell(k)).filter(not_skipped(skip_pos))
}

/// The token slots in row-major order, the `n`-th with item picture `n`.
pub open spec fn dealt_slots(skip_pos: Seq<i32>) -> Seq<TokenSlot> {
    Seq::new(token_layout(skip_pos).len(), |n: int| (token_layout(skip_pos)[n], n as usize))
}

fn slice_contains(values: &[i32], x: i32) -> (r: bool)
    ensures
        r == values@.contains(x),
{
    let mut i: usize = 0;
    while i < values.len()
        invariant
            i <= values@.len(),
            forall|j: int| 0 <= j < i ==> values@[j] != x,
        decreases values@.len() - i,
    {
        if values[i] == x {
            return true;
        }
        i = i + 1;
    }
    false
}

/// A copy of a list of token slots.
pub(crate) fn copy_slots(slots: &Vec<TokenSlot>) -> (r: Vec<TokenSlot>)
    ensures
        r@ == slots@,
{
    let mut r: Vec<TokenSlot> = Vec::new();
    let mut i: usize = 0;
    while i < slots.len()
        invariant
            i <= slots@.len(),
            r@ == slots@.take(i as int),
        decreases slots@.len() - i,
    {
        r.push(slots[i]);
        proof {
            assert(r@ =~= slots@.take(i + 1));
        }
        i = i + 1;
    }
    proof {
        assert(slots@.take(slots@.len() as int) =~= slots@);
    }
    r
}

/// The number of tokens that `skip_pos` leaves on the board.
pub fn token_count(skip_pos: &[i32; 12]) -> (n: usize)
    ensures
        n == token_layout(skip_pos@).len(),
{
    let ghost pred = not_skipped(skip_pos@);
    let ghost cells = Seq::new(36, |k: int| board_cell(k));
    let mut n: usize = 0;
    let mut pos: i32 = 0;
    while pos < 36
        invariant
            0 <= pos <= 36,
            pred == not_skipped(skip_pos@),
            cells == Seq::new(36, |k: int| board_cell(k)),
            n == cells.take(pos as int).filter(pred).len(),
            n <= pos,
        decreases 36 - pos,
    {
        proof {
            let m = pos as int;
            assert((m / 6) * 6 + m % 6 == m);
            assert(cells.take(m + 1) =~= cells.take(m).push(cells[m]));
            cells.take(m).lemma_filter_push(cells[m], pred);
            assert(pred(cells[m]) == !skip_pos@.contains(pos));
        }
        if !slice_contains(skip_pos, pos) {
            n = n + 1;
        }
        pos = pos + 1;
    }
    proof {
        assert(cells.take(36) =~= cells);
    }
    n
}

impl GameData {
    pub open spec fn wf(&self) -> bool {
        self.wall_placement.wf()
    }

    /// One to four players, and the turn is one of theirs.
    pub open spec fn turn_ok(&self) -> bool {
        1 <= self.num_players <= 4 && self.player_turn < self.num_players
    }

    /// In play: `turn_ok`, and every player has a piece on the board.
    pub open spec fn pieces_ok(&self) -> bool {
        self.turn_ok() && self.num_players <= self.players_on_board@.len()
    }

    pub fn new(initial_pos: [BoardCell; 4], max_walls: usize) -> (data: Self)
        ensures
            data.wf(),
            data.num_players == 2,
            data.player_turn == 0,
            data.players_on_board@ == Seq::<PlayerStatus>::empty(),
            data.target_pos == initial_pos[0],
            data.tokens_to_win == 5,
            !data.token_taken,
            data.wall_placement.walls_left == max_walls,
            data.wall_placement.walls_on_board@ == Seq::<crate::wall::Wall>::empty(),
            data.wall_placement.current_wall is None,
            !data.wall_collision,
            !data.color_to_transparent,
            !data.set_state,
            !data.element_color_change,
            !data.gamepieces_visible,
            data.post_game_choice == PostGameChoice::Undecided,
            data.token_positions@ == Seq::<TokenSlot>::empty(),
            data.token_list@ == Seq::<TokenSlot>::empty(),
            data.static_token_list@ == Seq::<TokenSlot>::empty(),
            data.direction == Direction::Idle,
            data.turn_ok(),
            max_walls == MAX_WALLS ==> data.wall_placement.walls_counted(),
    {
        GameData {
            num_players: 2,
            player_turn: 0,
            players_on_board: Vec::new(),
            target_pos: initial_pos[0],
            tokens_to_win: 5,
            token_taken: false,
            wall_placement: WallPlacementState::new(max_walls),
            wall_collision: false,
            color_to_transparent: false,
            set_state: false,
            element_color_change: false,
            gamepieces_visible: false,
            post_game_choice: PostGameChoice::Undecided,
            token_positions: Vec::new(),
            token_list: Vec::new(),
            static_token_list: Vec::new(),
            direction: Direction::Idle,
        }
    }

    /// Clears the walls (with `MAX_WALLS` walls to place again) and the
    /// players, and puts the target on the current player's start cell.
    pub fn reset(&mut self, initial_pos: [BoardCell; 4])
        requires
            old(self).wf(),
            old(self).player_turn < 4,
        ensures
            final(self).wf(),
            final(self).wall_placement.walls_on_board@ == Seq::<crate::wall::Wall>::empty(),
            final(self).wall_placement.walls_left == MAX_WALLS,
            final(self).wall_placement.current_wall is None,
            final(self).players_on_board@ == Seq::<PlayerStatus>::empty(),
            final(self).wall_placement.walls_counted(),
            *final(self) == (GameData {
                wall_placement: final(self).wall_placement,
                target_pos: initial_pos[old(self).player_turn as int],
                players_on_board: final(self).players_on_board,
                post_game_choice: PostGameChoice::Undecided,
                ..*old(self)
            }),
    {
        self.wall_placement.reset(MAX_WALLS);
        self.target_pos = initial_pos[self.player_turn];
        self.players_on_board.clear();
        self.post_game_choice = PostGameChoice::Undecided;
    }

    /// Lays out the tokens: each cell not in `skip_pos`, in row-major order,
    /// gets the next item picture; the draw order is a shuffle of that
    /// layout, and the faint tokens drawn on the board follow the draw order.
    pub fn init_tokens(&mut self, item_count: usize, skip_pos: &[i32; 12], rng: &mut ThreadRng)
        requires
            item_count >= token_layout(skip_pos@).len(),
        ensures
            final(self).token_positions@ == dealt_slots(skip_pos@),
            final(self).token_list@.to_multiset() == final(self).token_positions@.to_multiset(),
            final(self).static_token_list@ == final(self).token_list@,
            *final(self) == (GameData {
                token_positions: final(self).token_positions,
                token_list: final(self).token_list,
                static_token_list: final(self).static_token_list,
                ..*old(self)
            }),
    {
        let ghost skip = skip_pos@;
        let ghost pred = not_skipped(skip);
        let ghost cells = Seq::new(36, |k: int| board_cell(k));
        //item pictures mapped to token_positions
        let mut item_index: usize = 0;
        self.token_positions.clear();

        let mut i: i32 = 0;
        while i < 6
            invariant
                0 <= i <= 6,
                skip == skip_pos@,
                pred == not_skipped(skip),
                cells == Seq::new(36, |k: int| board_cell(k)),
                item_count >= token_layout(skip).len(),
                item_index == self.token_positions@.len(),
                self.token_positions@.len() == cells.take(i * 6).filter(pred).len(),
                forall|n: int| 0 <= n < item_index ==>
                    #[trigger] self.token_positions@[n] == (cells.take(i * 6).filter(pred)[n], n as usize),
                *self == (GameData { token_positions: self.token_positions, ..*old(self) }),
            decreases 6 - i,
        {
            let mut j: i32 = 0;
            while j < 6
                invariant
                    0 <= i < 6,
                    0 <= j <= 6,
                    skip == skip_pos@,
                    pred == not_skipped(skip),
                    cells == Seq::new(36, |k: int| board_cell(k)),
                    item_count >= token_layout(skip).len(),
                    item_index == self.token_positions@.len(),
                    self.token_positions@.len() == cells.take(i * 6 + j).filter(pred).len(),
                    forall|n: int| 0 <= n < item_index ==>
                        #[trigger] self.token_positions@[n] == (cells.take(i * 6 + j).filter(pred)[n], n as usize),
                    *self == (GameData { token_positions: self.token_positions, ..*old(self) }),
                decreases 6 - j,
            {
                let pos = i * 6 + j;
                let ghost m = i * 6 + j;
                let ghost before = cells.take(m);
                proof {
                    assert((i * 6 + j) / 6 == i && (i * 6 + j) % 6 == j) by (nonlinear_arith)
                        requires 0 <= j < 6, 0 <= i;
                    assert(cells[m] == (i, j));
                    assert(cells.take(m + 1) =~= before.push((i, j)));
                    before.lemma_filter_push((i, j), pred);
                }
                if !slice_contains(skip_pos, pos) {
                    proof {
                        assert(pred((i, j)));
                    }
                    self.token_positions.push(((i, j), item_index));
                    item_index += 1;
                } else {
                    proof {
                        assert(!pred((i, j)));
                    }
                }
                j = j + 1;
            }
            i = i + 1;
        }
        proof {
            assert(cells.take(36) =~= cells);
            assert(self.token_positions@ =~= dealt_slots(skip));
        }

        self.token_list = copy_slots(&self.token_positions);
        shuffle(&mut self.token_list, rng);
        self.static_token_list = copy_slots(&self.token_list);
    }
}

} // verus!
