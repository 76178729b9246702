//! The game's states and the per-state rules: turn order, movement input,
//! token collection, wall collisions, winning, and restarting.

use vstd::prelude::*;
use rand::rngs::ThreadRng;
use crate::config::{DICE_SIDES, INITIAL_POS, MAX_WALLS};
use crate::game_data::{GameData, PostGameChoice, TokenSlot};
use crate::player::{occupied, player_collision, Direction, PlayerStatus};
use crate::random::{choose_value, random_below, shuffle};
use crate::token::{first_free, next_token};
use crate::board::{cell_in_bounds, BoardCell};
use crate::wall_placement::{PointerPosition, placement_update_in_range};

verus! {

#[derive(Copy, Clone, Debug, PartialEq, Eq, Structural)]
pub enum GameState {
    StartMenu,
    SetWalls,
    InGame,
    EndGame,
}

/// The state that follows `state`: the menu, the wall setup, the game and
/// the end screen, and from the end screen the menu again.
pub open spec fn next_state(state: GameState) -> GameState {
    match state {
        GameState::StartMenu => GameState::SetWalls,
        GameState::SetWalls => GameState::InGame,
        GameState::InGame => GameState::EndGame,
        GameState::EndGame => GameState::StartMenu,
    }
}

/// `after` is `before` or the state that follows it.
pub open spec fn state_step(before: GameState, after: GameState) -> bool {
    after == before || after == next_state(before)
}

/// The keys of one frame: whether any key was pressed, and whether each
/// arrow key was pressed.
#[derive(Copy, Clone, Debug, PartialEq, Eq, Structural)]
pub struct KeyInput {
    pub any_key: bool,
    pub left: bool,
    pub right: bool,
    pub up: bool,
    pub down: bool,
}

/// The move that the arrow keys ask for from `cell`, checked in the order
/// left, right, up, down; a key that would leave the board asks for nothing.
pub open spec fn key_move(keys: KeyInput, cell: BoardCell) -> Option<(BoardCell, Direction)> {
    if keys.left && cell.1 > 0 {
        Some(((cell.0, (cell.1 - 1) as i32), Direction::Left))
    } else if keys.right && cell.1 < 5 {
        Some(((cell.0, (cell.1 + 1) as i32), Direction::Right))
    } else if keys.up && cell.0 > 0 {
        Some((((cell.0 - 1) as i32, cell.1), Direction::Up))
    } else if keys.down && cell.0 < 5 {
        Some((((cell.0 + 1) as i32, cell.1), Direction::Down))
    } else {
        None
    }
}

/// Each arrow key moves exactly one cell its own way: Up to the row above,
/// Down to the row below, Left to the column on the left, Right to the column
/// on the right, and only for a key that was pressed. From a cell on the
/// board the move stays on the board, and a pressed key whose cell lies on
/// the board always gives a move.
pub proof fn lemma_arrow_keys_step_one_cell(keys: KeyInput, cell: BoardCell)
    ensures
        key_move(keys, cell) matches Some((to, direction)) ==> {
            ||| direction == Direction::Up && keys.up && to.0 == cell.0 - 1 && to.1 == cell.1
            ||| direction == Direction::Down && keys.down && to.0 == cell.0 + 1 && to.1 == cell.1
            ||| direction == Direction::Left && keys.left && to.0 == cell.0 && to.1 == cell.1 - 1
            ||| direction == Direction::Right && keys.right && to.0 == cell.0 && to.1 == cell.1 + 1
        },
        cell_in_bounds(cell) ==> (key_move(keys, cell) matches Some((to, _)) ==> cell_in_bounds(to)),
        cell_in_bounds(cell) && (
            (keys.up && cell.0 > 0) || (keys.down && cell.0 < 5)
            || (keys.left && cell.1 > 0) || (keys.right && cell.1 < 5)
        ) ==> key_move(keys, cell) is Some,
{
}

/// The turn passes in a circle: after player `turn` of `num_players` comes
/// player `(turn + 1) % num_players`.
pub proof fn lemma_next_turn_is_the_following_player(turn: int, num_players: int)
    requires
        0 <= turn < num_players,
    ensures
        next_turn(turn, num_players) == (turn + 1) % num_players,
        0 <= next_turn(turn, num_players) < num_players,
{
    if turn < num_players - 1 {
        assert((turn + 1) % num_players == turn + 1) by (nonlinear_arith)
            requires 0 <= turn + 1 < num_players;
    } else {
        assert((turn + 1) % num_players == 0) by (nonlinear_arith)
            requires turn + 1 == num_players, num_players > 0;
    }
}

/// The player whose turn it is after `passes` turn passes from `turn`.
pub open spec fn turn_after(turn: int, num_players: int, passes: nat) -> int
    decreases passes,
{
    if passes == 0 {
        turn
    } else {
        next_turn(turn_after(turn, num_players, (passes - 1) as nat), num_players)
    }
}

/// After `passes` turn passes from `turn` it is the turn of player
/// `(turn + passes) % num_players`.
pub proof fn lemma_turn_after_passes(turn: int, num_players: int, passes: nat)
    requires
        0 <= turn < num_players,
    ensures
        turn_after(turn, num_players, passes) == (turn + passes) % num_players,
    decreases passes,
{
    if passes == 0 {
        assert(turn % num_players == turn) by (nonlinear_arith)
            requires 0 <= turn < num_players;
    } else {
        let p = (passes - 1) as nat;
        lemma_turn_after_passes(turn, num_players, p);
        let r = (turn + p) % num_players;
        assert(0 <= r < num_players) by (nonlinear_arith)
            requires num_players > 0, r == (turn + p) % num_players;
        lemma_next_turn_is_the_following_player(r, num_players);
        vstd::arithmetic::div_mod::lemma_add_mod_noop(turn + p, 1, num_players);
        vstd::arithmetic::div_mod::lemma_add_mod_noop(r, 1, num_players);
        vstd::arithmetic::div_mod::lemma_mod_twice(turn + p, num_players);
    }
}

/// Over `num_players` turn passes every player gets the turn exactly once:
/// player `player` gets it after `(player - turn) mod num_players` passes,
/// and no two of the first `num_players` passes give the same player.
pub proof fn lemma_every_player_gets_one_turn(turn: int, num_players: int)
    requires
        0 <= turn < num_players,
    ensures
        forall|player: int| 0 <= player < num_players ==>
            #[trigger] turn_after(turn, num_players, ((player - turn + num_players) % num_players) as nat) == player,
        forall|a: nat, b: nat| a < num_players && b < num_players && a != b
            ==> #[trigger] turn_after(turn, num_players, a) != #[trigger] turn_after(turn, num_players, b),
{
    assert forall|player: int| 0 <= player < num_players implies
        #[trigger] turn_after(turn, num_players, ((player - turn + num_players) % num_players) as nat) == player by {
        let d = player - turn + num_players;
        let passes = d % num_players;
        assert(0 <= passes < num_players) by (nonlinear_arith)
            requires num_players > 0, passes == d % num_players;
        lemma_turn_after_passes(turn, num_players, passes as nat);
        if player >= turn {
            assert(passes == player - turn) by {
                vstd::arithmetic::div_mod::lemma_mod_add_multiples_vanish(player - turn, num_players);
                vstd::arithmetic::div_mod::lemma_small_mod((player - turn) as nat, num_players as nat);
            }
            vstd::arithmetic::div_mod::lemma_small_mod(player as nat, num_players as nat);
        } else {
            vstd::arithmetic::div_mod::lemma_small_mod(d as nat, num_players as nat);
            vstd::arithmetic::div_mod::lemma_mod_add_multiples_vanish(player, num_players);
            vstd::arithmetic::div_mod::lemma_small_mod(player as nat, num_players as nat);
        }
    }
    assert forall|a: nat, b: nat| a < num_players && b < num_players && a != b
        implies #[trigger] turn_after(turn, num_players, a) != #[trigger] turn_after(turn, num_players, b) by {
        lemma_turn_after_passes(turn, num_players, a);
        lemma_turn_after_passes(turn, num_players, b);
        let x = turn + a;
        let y = turn + b;
        assert(x % num_players != y % num_players) by {
            if x < num_players {
                vstd::arithmetic::div_mod::lemma_small_mod(x as nat, num_players as nat);
            } else {
                vstd::arithmetic::div_mod::lemma_mod_sub_multiples_vanish(x, num_players);
                vstd::arithmetic::div_mod::lemma_small_mod((x - num_players) as nat, num_players as nat);
            }
            if y < num_players {
                vstd::arithmetic::div_mod::lemma_small_mod(y as nat, num_players as nat);
            } else {
                vstd::arithmetic::div_mod::lemma_mod_sub_multiples_vanish(y, num_players);
                vstd::arithmetic::div_mod::lemma_small_mod((y - num_players) as nat, num_players as nat);
            }
        }
    }
}

/// The move the keys ask of the current player: only while it has moves
/// left, stands on its target cell, and a key was pressed.
pub open spec fn requested_move(data: GameData, keys: KeyInput, positions: Seq<Option<BoardCell>>) -> Option<(BoardCell, Direction)> {
    let turn = data.player_turn as int;
    if data.players_on_board@[turn].num_moves > 0 && positions[turn] == Some(data.target_pos) && keys.any_key {
        key_move(keys, data.target_pos)
    } else {
        None
    }
}

/// The current player's turn is over: no moves left, standing on its
/// target, no wall collision under way, and the game not won.
pub open spec fn turn_over(data: GameData, positions: Seq<Option<BoardCell>>) -> bool {
    let turn = data.player_turn as int;
    &&& data.players_on_board@[turn].num_moves == 0
    &&& positions[turn] == Some(data.target_pos)
    &&& !data.wall_collision
    &&& !data.set_state
}

/// The die roll faces.
pub open spec fn dice_sides() -> Seq<i32> {
    seq![1i32, 2, 2, 3, 3, 4]
}

/// The player after `turn` among `num_players`, wrapping to player 0.
pub open spec fn next_turn(turn: int, num_players: int) -> int {
    if turn < num_players - 1 { turn + 1 } else { 0 }
}

/// `players` with player `i`'s moves set to `moves`.
pub open spec fn with_moves(players: Seq<PlayerStatus>, i: int, moves: i32) -> Seq<PlayerStatus> {
    players.update(i, PlayerStatus { num_moves: moves, ..players[i] })
}

fn at_cell(position: Option<BoardCell>, cell: BoardCell) -> (r: bool)
    ensures
        r == (position == Some(cell)),
{
    match position {
        Some(p) => p.0 == cell.0 && p.1 == cell.1,
        None => false,
    }
}

fn roll_dice(rng: &mut ThreadRng) -> (moves: i32)
    ensures
        dice_sides().contains(moves),
{
    let sides: &[i32] = &DICE_SIDES;
    assert(sides@ =~= dice_sides());
    match choose_value(sides, rng) {
        Some(moves) => moves,
        None => {
            assert(false);
            0
        },
    }
}

impl GameData {
    /// On "Start Game" the wall setup begins with a random first player,
    /// whose start cell becomes the target.
    pub fn update_start_menu_state(&mut self, state: &mut GameState, rng: &mut ThreadRng) -> (started: bool)
        requires
            old(self).set_state ==> 1 <= old(self).num_players <= 4,
        ensures
            started == old(self).set_state,
            started ==> {
                &&& final(self).player_turn < old(self).num_players
                &&& *final(self) == (GameData {
                    player_turn: final(self).player_turn,
                    target_pos: INITIAL_POS@[final(self).player_turn as int],
                    set_state: false,
                    ..*old(self)
                })
                &&& *final(state) == GameState::SetWalls
            },
            !started ==> *final(self) == *old(self) && *final(state) == *old(state),
            started ==> final(self).turn_ok(),
            *old(state) == GameState::StartMenu ==> state_step(*old(state), *final(state)),
    {
        //move to SetWalls state
        if self.set_state {
            self.player_turn = random_below(rng, self.num_players);
            self.target_pos = INITIAL_POS[self.player_turn];
            self.set_state = false;
            *state = GameState::SetWalls;
            true
        } else {
            false
        }
    }

    /// While the walls are being set, one frame of wall placement from the
    /// pointer and clicks of this frame; placement stops once "Set Walls" was
    /// pressed or while the board fades in.
    pub fn update_wall_placement(&mut self, pointer: PointerPosition, left_pressed: bool, right_pressed: bool)
        requires
            old(self).wf(),
            !old(self).set_state && !old(self).element_color_change ==>
                placement_update_in_range(old(self).wall_placement, pointer, left_pressed, right_pressed),
        ensures
            final(self).wf(),
            !old(self).set_state && !old(self).element_color_change ==> {
                &&& *final(self) == (GameData { wall_placement: final(self).wall_placement, ..*old(self) })
                &&& crate::wall_placement::placement_update_effect(
                    old(self).wall_placement, final(self).wall_placement, pointer, left_pressed, right_pressed)
                &&& final(self).wall_placement.current_wall == crate::wall_placement::hovered_wall_spec(pointer)
            },
            old(self).set_state || old(self).element_color_change ==> *final(self) == *old(self),
            crate::board::fully_accessible(old(self).wall_placement.walls())
                ==> crate::board::fully_accessible(final(self).wall_placement.walls()),
            old(self).wall_placement.walls_in_slots() ==> final(self).wall_placement.walls_in_slots(),
            old(self).wall_placement.walls_counted() ==> final(self).wall_placement.walls_counted(),
            old(self).turn_ok() ==> final(self).turn_ok(),
    {
        if !self.set_state && !self.element_color_change {
            self.wall_placement.update_placement(pointer, left_pressed, right_pressed);
        }
    }

    /// Once the walls have faded out after "Set Walls", the board is turned
    /// at random and the game begins with `MAX_WALLS` on the wall counter.
    pub fn transition_to_in_game_if_ready(&mut self, walls_faded: bool, state: &mut GameState, rng: &mut ThreadRng) -> (began: bool)
        requires
            old(self).wf(),
        ensures
            final(self).wf(),
            began == (old(self).set_state && walls_faded),
            began ==> {
                &&& *final(self) == (GameData {
                    wall_placement: final(self).wall_placement,
                    set_state: false,
                    element_color_change: true,
                    ..*old(self)
                })
                &&& exists|rotation: int| 0 <= rotation < 4
                    && #[trigger] crate::slots::rotated_walls(old(self).wall_placement.walls(), rotation)
                        == final(self).wall_placement.walls()
                &&& final(self).wall_placement.walls_left == MAX_WALLS
                &&& final(self).wall_placement.current_wall == old(self).wall_placement.current_wall
                &&& *final(state) == GameState::InGame
            },
            !began ==> *final(self) == *old(self) && *final(state) == *old(state),
            old(self).wall_placement.walls_in_slots() && crate::board::fully_accessible(old(self).wall_placement.walls())
                ==> final(self).wall_placement.walls_in_slots()
                    && crate::board::fully_accessible(final(self).wall_placement.walls()),
            old(self).turn_ok() ==> final(self).turn_ok(),
            *old(state) == GameState::SetWalls ==> state_step(*old(state), *final(state)),
    {
        if self.set_state && walls_faded {
            self.wall_placement.randomize_board(rng);
            self.set_state = false;
            self.element_color_change = true;
            *state = GameState::InGame;
            self.wall_placement.walls_left = MAX_WALLS;
            true
        } else {
            false
        }
    }

    /// At the start of the game each player (at most four) gets a piece with
    /// a die roll of moves and no tokens.
    pub fn ensure_players_created(&mut self, rng: &mut ThreadRng) -> (created: bool)
        ensures
            created == (old(self).players_on_board@.len() < old(self).num_players),
            created ==> {
                let n = if old(self).num_players < 4 { old(self).num_players as int } else { 4 };
                &&& final(self).players_on_board@.len() == old(self).players_on_board@.len() + n
                &&& final(self).players_on_board@.subrange(0, old(self).players_on_board@.len() as int)
                    == old(self).players_on_board@
                &&& forall|p: int| 0 <= p < n ==> {
                    let player = #[trigger] final(self).players_on_board@[old(self).players_on_board@.len() + p];
                    &&& player.player_id == p
                    &&& player.tokens_collected == 0
                    &&& dice_sides().contains(player.num_moves)
                }
            },
            *final(self) == (GameData { players_on_board: final(self).players_on_board, ..*old(self) }),
            !created ==> final(self).players_on_board == old(self).players_on_board,
            old(self).turn_ok() ==> final(self).pieces_ok(),
    {
        if self.players_on_board.len() < self.num_players {
            let ghost start = self.players_on_board@;
            let count: usize = if self.num_players < 4 { self.num_players } else { 4 };
            let mut p: usize = 0;
            while p < count
                invariant
                    count == if old(self).num_players < 4 { old(self).num_players } else { 4 },
                    start == old(self).players_on_board@,
                    p <= count,
                    self.players_on_board@.len() == start.len() + p,
                    self.players_on_board@.subrange(0, start.len() as int) == start,
                    forall|q: int| 0 <= q < p ==> {
                        let player = #[trigger] self.players_on_board@[start.len() + q];
                        &&& player.player_id == q
                        &&& player.tokens_collected == 0
                        &&& dice_sides().contains(player.num_moves)
                    },
                    *self == (GameData { players_on_board: self.players_on_board, ..*old(self) }),
                decreases count - p,
            {
                let num_moves = roll_dice(rng);
                let ghost before = self.players_on_board@;
                self.players_on_board.push(PlayerStatus::new(p, num_moves));
                proof {
                    assert(self.players_on_board@.subrange(0, start.len() as int) =~= before.subrange(0, start.len() as int));
                    assert forall|q: int| 0 <= q < p + 1 implies {
                        let player = #[trigger] self.players_on_board@[start.len() + q];
                        &&& player.player_id == q
                        &&& player.tokens_collected == 0
                        &&& dice_sides().contains(player.num_moves)
                    } by {
                        if q < p {
                            assert(self.players_on_board@[start.len() + q] == before[start.len() + q]);
                        }
                    }
                }
                p = p + 1;
            }
            true
        } else {
            false
        }
    }

    /// While the current piece covers the token the token is taken; once it
    /// has faded out the player scores it and the turn's moves end.
    pub fn handle_token_collection(&mut self, overlapping: bool, faded_out: bool) -> (collected: bool)
        requires
            overlapping && faded_out ==> {
                &&& old(self).player_turn < old(self).players_on_board@.len()
                &&& old(self).players_on_board@[old(self).player_turn as int].tokens_collected < i32::MAX
            },
        ensures
            collected == (overlapping && faded_out),
            overlapping ==> final(self).token_taken,
            collected ==> {
                let turn = old(self).player_turn as int;
                let player = old(self).players_on_board@[turn];
                final(self).players_on_board@ == old(self).players_on_board@.update(turn,
                    PlayerStatus { tokens_collected: (player.tokens_collected + 1) as i32, num_moves: 0, ..player })
            },
            !collected ==> final(self).players_on_board == old(self).players_on_board,
            *final(self) == (GameData {
                players_on_board: final(self).players_on_board,
                token_taken: final(self).token_taken,
                ..*old(self)
            }),
            !overlapping ==> final(self).token_taken == old(self).token_taken,
            old(self).pieces_ok() ==> final(self).pieces_ok(),
    {
        if overlapping {
            self.token_taken = true;
            if faded_out {
                let turn = self.player_turn;
                let mut player = self.players_on_board[turn];
                player.tokens_collected += 1;
                player.num_moves = 0;
                self.players_on_board.set(turn, player);
                return true;
            }
        }
        false
    }

    /// When the current piece runs into a wall, it goes back to its start
    /// cell and its turn's moves end.
    pub fn handle_wall_collision(&mut self, hit_wall: bool)
        requires
            hit_wall ==> old(self).player_turn < old(self).players_on_board@.len() && old(self).player_turn < 4,
        ensures
            hit_wall ==> *final(self) == (GameData {
                color_to_transparent: true,
                wall_collision: true,
                target_pos: INITIAL_POS@[old(self).player_turn as int],
                players_on_board: final(self).players_on_board,
                ..*old(self)
            }),
            hit_wall ==> final(self).players_on_board@
                == with_moves(old(self).players_on_board@, old(self).player_turn as int, 0),
            !hit_wall ==> *final(self) == *old(self),
            old(self).pieces_ok() ==> final(self).pieces_ok(),
    {
        if hit_wall {
            self.color_to_transparent = true;
            self.wall_collision = true;
            self.target_pos = INITIAL_POS[self.player_turn];
            let turn = self.player_turn;
            let mut player = self.players_on_board[turn];
            player.num_moves = 0;
            self.players_on_board.set(turn, player);
        }
    }

    /// One frame of the wall-collision animation, after this frame's fade;
    /// `faded` tells whether that fade has finished. While the piece fades
    /// out, a piece gone from view is sent back to its start cell and starts
    /// to fade in again; while it fades in, a piece fully shown ends the
    /// collision. Returns whether the piece goes back to its start cell now.
    pub fn animate_wall_collision(&mut self, faded: bool) -> (sent_home: bool)
        ensures
            sent_home == (old(self).wall_collision && old(self).color_to_transparent && faded),
            *final(self) == if !(old(self).wall_collision && faded) {
                *old(self)
            } else if old(self).color_to_transparent {
                (GameData { color_to_transparent: false, ..*old(self) })
            } else {
                (GameData { wall_collision: false, ..*old(self) })
            },
            old(self).pieces_ok() ==> final(self).pieces_ok(),
    {
        if self.wall_collision && faded {
            if self.color_to_transparent {
                self.color_to_transparent = false;
                return true;
            }
            self.wall_collision = false;
        }
        false
    }

    /// The pieces are all in view unless, with no wall collision under way,
    /// one of them is still fading in; `shown[i]` tells whether piece `i` was
    /// fully shown at the start of the frame. Returns which pieces fade in
    /// this frame.
    pub fn update_player_visibility(&mut self, shown: &Vec<bool>) -> (fade: Vec<bool>)
        ensures
            fade@.len() == shown@.len(),
            forall|i: int| 0 <= i < shown@.len() ==> fade@[i] == (!old(self).wall_collision && !shown@[i]),
            *final(self) == (GameData {
                gamepieces_visible: !exists|i: int| 0 <= i < shown@.len() && #[trigger] fade@[i],
                ..*old(self)
            }),
            old(self).pieces_ok() ==> final(self).pieces_ok(),
    {
        self.gamepieces_visible = true;
        let mut fade: Vec<bool> = Vec::new();
        let mut i: usize = 0;
        while i < shown.len()
            invariant
                i <= shown@.len(),
                fade@.len() == i,
                forall|j: int| 0 <= j < i ==> fade@[j] == (!old(self).wall_collision && !shown@[j]),
                *self == (GameData {
                    gamepieces_visible: !exists|j: int| 0 <= j < i && #[trigger] fade@[j],
                    ..*old(self)
                }),
            decreases shown@.len() - i,
        {
            let f = !self.wall_collision && !shown[i];
            let ghost prev = fade@;
            fade.push(f);
            if f {
                self.gamepieces_visible = false;
            }
            proof {
                assert(forall|j: int| 0 <= j < i ==> fade@[j] == prev[j]);
                if !f {
                    assert((exists|j: int| 0 <= j < i + 1 && #[trigger] fade@[j])
                        == (exists|j: int| 0 <= j < i && #[trigger] prev[j]));
                } else {
                    assert(fade@[i as int]);
                }
            }
            i = i + 1;
        }
        fade
    }

    /// At the end of the game the pieces count as in view while any of them
    /// is still showing; `showing[i]` tells whether piece `i` is not yet
    /// fully faded out.
    pub fn update_end_game_player_fade(&mut self, showing: &Vec<bool>)
        ensures
            *final(self) == (GameData {
                gamepieces_visible: old(self).gamepieces_visible
                    || exists|i: int| 0 <= i < showing@.len() && #[trigger] showing@[i],
                ..*old(self)
            }),
            old(self).pieces_ok() ==> final(self).pieces_ok(),
    {
        let mut i: usize = 0;
        while i < showing.len()
            invariant
                i <= showing@.len(),
                *self == (GameData {
                    gamepieces_visible: old(self).gamepieces_visible
                        || exists|j: int| 0 <= j < i && #[trigger] showing@[j],
                    ..*old(self)
                }),
            decreases showing@.len() - i,
        {
            if showing[i] {
                self.gamepieces_visible = true;
                assert(showing@[i as int]);
            } else {
                assert forall|j: int| 0 <= j < i + 1 && #[trigger] showing@[j] implies 0 <= j < i && showing@[j] by {}
            }
            i = i + 1;
        }
    }

    /// With no token on the board, the next token comes off the draw order
    /// (see `next_token`); `blocked[i]` tells whether a piece covers the
    /// cell of `token_list[i]`.
    pub fn spawn_next_token(&mut self, no_token_on_board: bool, blocked: &Vec<bool>) -> (token: Option<TokenSlot>)
        requires
            !old(self).set_state && no_token_on_board && old(self).token_list@.len() > 0 ==> {
                &&& blocked@.len() == old(self).token_list@.len()
                &&& first_free(blocked@) is Some
            },
        ensures
            !old(self).set_state && no_token_on_board && old(self).token_list@.len() > 0 ==> {
                let k = first_free(blocked@)->0;
                &&& token == Some(old(self).token_list@[k])
                &&& final(self).token_list@ == old(self).token_list@.subrange(k + 1, old(self).token_list@.len() as int)
                    + old(self).token_list@.subrange(0, k)
                &&& *final(self) == (GameData { token_taken: false, token_list: final(self).token_list, ..*old(self) })
            },
            !(!old(self).set_state && no_token_on_board && old(self).token_list@.len() > 0) ==> {
                &&& token is None
                &&& *final(self) == *old(self)
            },
            old(self).pieces_ok() ==> final(self).pieces_ok(),
    {
        if !self.set_state && no_token_on_board && !self.token_list.is_empty() {
            self.token_taken = false;
            next_token(&mut self.token_list, blocked)
        } else {
            None
        }
    }

    /// Arrow keys move the current piece one cell while it has moves left and
    /// stands on its target: the key sets the direction, and unless another
    /// piece stands on the new cell, that cell becomes the target and a move
    /// is used. `positions[i]` is the cell on which player `i` stands, `None`
    /// while it is between cells.
    pub fn handle_player_input(&mut self, keys: KeyInput, positions: &Vec<Option<BoardCell>>)
        requires
            old(self).player_turn < old(self).players_on_board@.len(),
            positions@.len() == old(self).players_on_board@.len(),
        ensures
            match requested_move(*old(self), keys, positions@) {
                None => *final(self) == *old(self),
                Some((cell, direction)) => if occupied(positions@, cell, old(self).player_turn as int) {
                    *final(self) == (GameData { direction, ..*old(self) })
                } else {
                    &&& final(self).players_on_board@ == with_moves(old(self).players_on_board@,
                        old(self).player_turn as int,
                        (old(self).players_on_board@[old(self).player_turn as int].num_moves - 1) as i32)
                    &&& *final(self) == (GameData {
                        target_pos: cell,
                        direction,
                        players_on_board: final(self).players_on_board,
                        ..*old(self)
                    })
                },
            },
            // a piece stays on the board and never moves onto another piece
            cell_in_bounds(old(self).target_pos) ==> cell_in_bounds(final(self).target_pos),
            final(self).target_pos != old(self).target_pos
                ==> !occupied(positions@, final(self).target_pos, old(self).player_turn as int),
            final(self).players_on_board@.len() == old(self).players_on_board@.len(),
            old(self).players_on_board@[old(self).player_turn as int].num_moves >= 0
                ==> final(self).players_on_board@[old(self).player_turn as int].num_moves >= 0,
            old(self).pieces_ok() ==> final(self).pieces_ok(),
            // a move goes one cell the way of a pressed arrow key, onto a cell no other piece stands on
            final(self).target_pos != old(self).target_pos ==> {
                let from = old(self).target_pos;
                let to = final(self).target_pos;
                ||| final(self).direction == Direction::Up && keys.up && to.0 == from.0 - 1 && to.1 == from.1
                ||| final(self).direction == Direction::Down && keys.down && to.0 == from.0 + 1 && to.1 == from.1
                ||| final(self).direction == Direction::Left && keys.left && to.0 == from.0 && to.1 == from.1 - 1
                ||| final(self).direction == Direction::Right && keys.right && to.0 == from.0 && to.1 == from.1 + 1
            },
            final(self).target_pos != old(self).target_pos ==> forall|i: int|
                0 <= i < positions@.len() && i != old(self).player_turn ==> positions@[i] != Some(final(self).target_pos),
    {
        proof {
            lemma_arrow_keys_step_one_cell(keys, self.target_pos);
        }
        let turn = self.player_turn;
        let player_pos = positions[turn];
        let mut temp_target_pos = self.target_pos;
        if self.players_on_board[turn].num_moves > 0 && at_cell(player_pos, self.target_pos) && keys.any_key {
            let (row, col) = self.target_pos;
            let move_flag = if keys.left && col > 0 {
                temp_target_pos = (row, col - 1);
                self.direction = Direction::Left;
                true
            } else if keys.right && col < 5 {
                temp_target_pos = (row, col + 1);
                self.direction = Direction::Right;
                true
            } else if keys.up && row > 0 {
                temp_target_pos = (row - 1, col);
                self.direction = Direction::Up;
                true
            } else if keys.down && row < 5 {
                temp_target_pos = (row + 1, col);
                self.direction = Direction::Down;
                true
            } else {
                false
            };
            //move the piece and use a move if no other piece occupies the target cell
            if move_flag && !player_collision(positions.as_slice(), temp_target_pos, turn) {
                self.target_pos = temp_target_pos;
                let mut player = self.players_on_board[turn];
                player.num_moves -= 1;
                self.players_on_board.set(turn, player);
            }
        }
    }

    /// The current player wins when its tokens reach the number to win;
    /// then the game ends.
    pub fn check_win_condition(&mut self)
        requires
            old(self).player_turn < old(self).players_on_board@.len(),
            old(self).tokens_to_win <= i32::MAX,
        ensures
            *final(self) == (GameData {
                set_state: old(self).set_state
                    || old(self).players_on_board@[old(self).player_turn as int].tokens_collected == old(self).tokens_to_win,
                ..*old(self)
            }),
            old(self).pieces_ok() ==> final(self).pieces_ok(),
    {
        if self.players_on_board[self.player_turn].tokens_collected == self.tokens_to_win as i32 {
            self.set_state = true;
        }
    }

    /// The turn passes once the current player has no moves left and stands
    /// on its target, with no wall collision under way and the game not won:
    /// the next player (after the last comes the first) rolls the die for
    /// its moves, and its cell becomes the target.
    pub fn advance_turn_if_needed(&mut self, positions: &Vec<Option<BoardCell>>, rng: &mut ThreadRng) -> (advanced: bool)
        requires
            old(self).player_turn < old(self).players_on_board@.len(),
            positions@.len() == old(self).players_on_board@.len(),
            turn_over(*old(self), positions@) ==> {
                &&& 1 <= old(self).num_players <= old(self).players_on_board@.len()
                &&& positions@[next_turn(old(self).player_turn as int, old(self).num_players as int)] is Some
            },
        ensures
            advanced == turn_over(*old(self), positions@),
            advanced && old(self).player_turn < old(self).num_players
                ==> final(self).player_turn == (old(self).player_turn + 1) % (old(self).num_players as int),
            advanced ==> {
                let next = next_turn(old(self).player_turn as int, old(self).num_players as int);
                &&& final(self).player_turn == next
                &&& final(self).player_turn < final(self).num_players
                &&& dice_sides().contains(final(self).players_on_board@[next].num_moves)
                &&& final(self).players_on_board@ == with_moves(old(self).players_on_board@, next,
                    final(self).players_on_board@[next].num_moves)
                &&& *final(self) == (GameData {
                    player_turn: next as usize,
                    direction: Direction::Idle,
                    target_pos: positions@[next]->0,
                    players_on_board: final(self).players_on_board,
                    ..*old(self)
                })
            },
            !advanced ==> *final(self) == *old(self),
            old(self).pieces_ok() ==> final(self).pieces_ok(),
    {
        let turn = self.player_turn;
        if self.players_on_board[turn].num_moves == 0 && at_cell(positions[turn], self.target_pos)
            && !self.wall_collision && !self.set_state
        {
            proof {
                if self.player_turn < self.num_players {
                    lemma_next_turn_is_the_following_player(self.player_turn as int, self.num_players as int);
                }
            }
            //set player's character to idle
            self.direction = Direction::Idle;
            if self.player_turn < self.num_players - 1 {
                self.player_turn += 1;
            } else {
                self.player_turn = 0;
            }
            let next = self.player_turn;
            let moves = roll_dice(rng);
            let mut player = self.players_on_board[next];
            player.num_moves = moves;
            self.players_on_board.set(next, player);
            self.target_pos = match positions[next] {
                Some(cell) => cell,
                None => {
                    assert(false);
                    self.target_pos
                },
            };
            true
        } else {
            false
        }
    }

    /// The turn can pass without indexing past the players or the positions:
    /// when the turn is over there is at least one player, no more than
    /// pieces on the board, and the next piece stands on a cell.
    pub fn advance_in_range(&self, positions: &Vec<Option<BoardCell>>) -> (r: bool)
        requires
            self.player_turn < self.players_on_board@.len(),
            positions@.len() == self.players_on_board@.len(),
        ensures
            r == (turn_over(*self, positions@) ==> {
                &&& 1 <= self.num_players <= self.players_on_board@.len()
                &&& positions@[next_turn(self.player_turn as int, self.num_players as int)] is Some
            }),
    {
        let turn = self.player_turn;
        if self.players_on_board[turn].num_moves == 0 && at_cell(positions[turn], self.target_pos)
            && !self.wall_collision && !self.set_state
        {
            if self.num_players < 1 || self.num_players > self.players_on_board.len() {
                return false;
            }
            let next = if self.player_turn < self.num_players - 1 { self.player_turn + 1 } else { 0 };
            positions[next].is_some()
        } else {
            true
        }
    }

    /// Once the text has faded out after a win, the end screen comes.
    pub fn transition_to_end_game_if_ready(&mut self, text_faded: bool, state: &mut GameState) -> (ended: bool)
        ensures
            ended == (text_faded && old(self).set_state),
            ended ==> *final(self) == (GameData {
                set_state: false,
                gamepieces_visible: false,
                direction: Direction::Idle,
                ..*old(self)
            }) && *final(state) == GameState::EndGame,
            !ended ==> *final(self) == *old(self) && *final(state) == *old(state),
            old(self).pieces_ok() ==> final(self).pieces_ok(),
            *old(state) == GameState::InGame ==> state_step(*old(state), *final(state)),
    {
        if text_faded && self.set_state {
            self.set_state = false;
            self.gamepieces_visible = false;
            self.direction = Direction::Idle;
            *state = GameState::EndGame;
            true
        } else {
            false
        }
    }

    /// On "Play Again" a new game starts from the menu: a random first
    /// player, no walls and no pieces, and a fresh shuffle of the tokens.
    pub fn restart_game_if_requested(&mut self, state: &mut GameState, rng: &mut ThreadRng) -> (restarted: bool)
        requires
            old(self).wf(),
            old(self).post_game_choice == PostGameChoice::PlayAgain ==> 1 <= old(self).num_players <= 4,
        ensures
            final(self).wf(),
            restarted == (old(self).post_game_choice == PostGameChoice::PlayAgain),
            restarted ==> {
                &&& final(self).player_turn < old(self).num_players
                &&& final(self).target_pos == INITIAL_POS@[final(self).player_turn as int]
                &&& final(self).players_on_board@ == Seq::<PlayerStatus>::empty()
                &&& final(self).wall_placement.walls_on_board@ == Seq::<crate::wall::Wall>::empty()
                &&& final(self).wall_placement.walls_left == MAX_WALLS
                &&& final(self).wall_placement.current_wall is None
                &&& final(self).token_list@.to_multiset() == old(self).token_positions@.to_multiset()
                &&& *final(self) == (GameData {
                    player_turn: final(self).player_turn,
                    target_pos: final(self).target_pos,
                    players_on_board: final(self).players_on_board,
                    wall_placement: final(self).wall_placement,
                    token_list: final(self).token_list,
                    post_game_choice: PostGameChoice::Undecided,
                    ..*old(self)
                })
                &&& *final(state) == GameState::StartMenu
            },
            !restarted ==> *final(self) == *old(self) && *final(state) == *old(state),
            restarted ==> final(self).turn_ok() && final(self).wall_placement.walls_counted(),
            *old(state) == GameState::EndGame ==> state_step(*old(state), *final(state)),
    {
        if self.post_game_choice == PostGameChoice::PlayAgain {
            self.player_turn = random_below(rng, self.num_players);

            self.reset(INITIAL_POS);
            self.token_list = crate::game_data::copy_slots(&self.token_positions);
            *state = GameState::StartMenu;

            shuffle(&mut self.token_list, rng);
            self.post_game_choice = PostGameChoice::Undecided;
            true
        } else {
            false
        }
    }
}

} // verus!
