//! Wall placement, removal, hover preview, the board accessibility check,
//! and the hidden board rotation.

use vstd::prelude::*;
use std::collections::VecDeque;
use crate::config::{
    CELL_STRIDE_I32, GAMEBOARD_SIZE, MAX_WALLS, PADDING_I32, LAST_WALL_OFFSET_I32, SQUARE_SIZE_I32, WALL_ROW_COUNT,
    WALL_SLOT_COUNT,
};
use crate::random::random_below;
use rand::rngs::ThreadRng;
use crate::board::{
    can_step, cell_in_bounds, cell_index, wall_between_in_range, count_true, fully_accessible, is_walk, lemma_closed_set_holds_walk,
    lemma_count_true_bounds, lemma_count_true_set, lemma_count_true_zero, lemma_empty_board_accessible,
    lemma_fewer_walls_keep_access, lemma_rotation_injective, lemma_rotation_keeps_board_accessible,
    lemma_step_is_open_neighbor, lemma_walk_push, neighbor_candidates, open_neighbors_spec, reachable,
    start_cell, step_from, wall_between_spec, wall_blocks, BoardCell,
};
use crate::slots::{
    canonical_wall, horizontal_slot, lemma_rotated_walls_insert, lemma_slot_index_of, rotated_wall_spec, rotated_walls,
    vertical_slot,
    slot_index, slot_table, slot_wall, wall_at_spec,
};
use crate::wall::{Wall, WallOrientation};

verus! {

/// Whether `v` holds `wall`.
pub(crate) fn vec_contains_wall(v: &Vec<Wall>, wall: &Wall) -> (r: bool)
    ensures
        r == v@.contains(*wall),
{
    let mut i: usize = 0;
    while i < v.len()
        invariant
            i <= v@.len(),
            forall|j: int| 0 <= j < i ==> v@[j] != *wall,
        decreases v@.len() - i,
    {
        if v[i] == *wall {
            return true;
        }
        i = i + 1;
    }
    false
}

pub(crate) proof fn lemma_push_to_set<A>(s: Seq<A>, x: A)
    ensures
        s.push(x).to_set() == s.to_set().insert(x),
{
    let t = s.push(x);
    assert forall|y: A| t.to_set().contains(y) implies s.to_set().insert(x).contains(y) by {
        let j = choose|j: int| 0 <= j < t.len() && t[j] == y;
        if j < s.len() {
            assert(s[j] == y);
        }
    }
    assert forall|y: A| s.to_set().insert(x).contains(y) implies t.to_set().contains(y) by {
        if y == x {
            assert(t[s.len() as int] == y);
        } else {
            let j = choose|j: int| 0 <= j < s.len() && s[j] == y;
            assert(t[j] == y);
        }
    }
    assert(t.to_set() =~= s.to_set().insert(x));
}

// ---------------------------------------------------------------------------
// Placement rules
// ---------------------------------------------------------------------------

/// What one placement update does to the walls: with no wall under the
/// pointer nothing changes; a left click places the hovered wall as
/// `try_insert_wall` does; otherwise a right click takes it off the board and
/// gives it back to `walls_left`.
pub open spec fn placement_update_effect(
    old_state: WallPlacementState,
    new_state: WallPlacementState,
    pointer: PointerPosition,
    left_pressed: bool,
    right_pressed: bool,
) -> bool {
    match hovered_wall_spec(pointer) {
        None => new_state.walls() == old_state.walls() && new_state.walls_left == old_state.walls_left,
        Some(wall) => if left_pressed {
            if insert_accepted(old_state.walls_on_board@, wall) {
                &&& new_state.walls() == old_state.walls().insert(wall)
                &&& new_state.walls_left == old_state.walls_left - 1
            } else {
                &&& new_state.walls() == old_state.walls()
                &&& new_state.walls_left == old_state.walls_left
            }
        } else if right_pressed && old_state.walls().contains(wall) {
            &&& new_state.walls() == old_state.walls().remove(wall)
            &&& new_state.walls_left == old_state.walls_left + 1
        } else {
            &&& new_state.walls() == old_state.walls()
            &&& new_state.walls_left == old_state.walls_left
        },
    }
}

/// A wall is placed when fewer than `MAX_WALLS` walls are on the board, it is
/// not on the board yet, and with it every cell can still be reached.
pub open spec fn insert_accepted(walls: Seq<Wall>, wall: Wall) -> bool {
    &&& walls.len() < 24
    &&& !walls.contains(wall)
    &&& fully_accessible(walls.to_set().insert(wall))
}

/// The pointer position as whole pixels: `floor_*` and `ceil_*` are the
/// floor and the ceiling of the pointer's coordinate on that axis.
#[derive(Copy, Clone, Debug, PartialEq, Eq, Structural)]
pub struct PointerPosition {
    pub floor_x: i32,
    pub ceil_x: i32,
    pub floor_y: i32,
    pub ceil_y: i32,
}

/// The pointer lies strictly inside the `width` by `height` rectangle whose
/// top-left corner is `pos`.
pub open spec fn pointer_over(pointer: PointerPosition, pos: (i32, i32), width: int, height: int) -> bool {
    &&& pointer.ceil_x > pos.0
    &&& pointer.floor_x < pos.0 + width
    &&& pointer.ceil_y > pos.1
    &&& pointer.floor_y < pos.1 + height
}

/// The first slot from `k` on whose rectangle holds the pointer.
pub open spec fn first_hovered_from(
    table: Seq<(i32, i32)>,
    pointer: PointerPosition,
    width: int,
    height: int,
    k: int,
) -> Option<int>
    decreases table.len() - k,
{
    if k < 0 || k >= table.len() {
        None
    } else if pointer_over(pointer, table[k], width, height) {
        Some(k)
    } else {
        first_hovered_from(table, pointer, width, height, k + 1)
    }
}

/// The wall slot under the pointer: the first vertical slot that holds it,
/// else the first horizontal slot that holds it.
pub open spec fn hovered_wall_spec(pointer: PointerPosition) -> Option<Wall> {
    match first_hovered_from(slot_table(WallOrientation::Vertical), pointer, 20, 150, 0) {
        Some(k) => Some(wall_at_spec(WallOrientation::Vertical, k)),
        None => match first_hovered_from(slot_table(WallOrientation::Horizontal), pointer, 150, 20, 0) {
            Some(k) => Some(wall_at_spec(WallOrientation::Horizontal, k)),
            None => None,
        },
    }
}

/// What a placement update owes: with a wall under the pointer, a left click
/// that places it needs a wall left to place, and a right click that takes
/// it off needs `walls_left` below `usize::MAX`.
pub open spec fn placement_update_in_range(
    state: WallPlacementState,
    pointer: PointerPosition,
    left_pressed: bool,
    right_pressed: bool,
) -> bool {
    match hovered_wall_spec(pointer) {
        Some(wall) => {
            &&& left_pressed && insert_accepted(state.walls_on_board@, wall) ==> state.walls_left > 0
            &&& !left_pressed && right_pressed && state.walls().contains(wall) ==> state.walls_left < usize::MAX
        },
        None => true,
    }
}

/// While the counter counts the walls, every placement update is in range:
/// a wall can only be placed with fewer than `MAX_WALLS` on the board, so a
/// wall is left to place, and a wall taken off leaves the counter below
/// `MAX_WALLS`.
pub proof fn lemma_counted_placement_in_range(
    state: WallPlacementState,
    pointer: PointerPosition,
    left_pressed: bool,
    right_pressed: bool,
)
    requires
        state.walls_counted(),
    ensures
        placement_update_in_range(state, pointer, left_pressed, right_pressed),
        forall|wall: Wall| insert_accepted(state.walls_on_board@, wall) ==> state.walls_left > 0,
{
    if let Some(wall) = hovered_wall_spec(pointer) {
        if state.walls().contains(wall) {
            assert(state.walls_on_board@.contains(wall));
        }
    }
}

/// A right click on the wall that a left click has just placed takes it off
/// again: the walls and the wall counter are back to what they were.
pub proof fn lemma_right_click_undoes_placement(
    s0: WallPlacementState,
    s1: WallPlacementState,
    s2: WallPlacementState,
    pointer: PointerPosition,
)
    requires
        hovered_wall_spec(pointer) is Some,
        insert_accepted(s0.walls_on_board@, hovered_wall_spec(pointer)->0),
        placement_update_effect(s0, s1, pointer, true, false),
        placement_update_effect(s1, s2, pointer, false, true),
    ensures
        s2.walls() == s0.walls(),
        s2.walls_left == s0.walls_left,
{
    let w = hovered_wall_spec(pointer)->0;
    assert(!s0.walls().contains(w));
    assert(s1.walls().contains(w));
    assert(s0.walls().insert(w).remove(w) =~= s0.walls());
}

pub(crate) proof fn lemma_first_hovered_from_range(
    table: Seq<(i32, i32)>,
    pointer: PointerPosition,
    width: int,
    height: int,
    k: int,
)
    requires
        0 <= k,
    ensures
        (first_hovered_from(table, pointer, width, height, k) matches Some(i) ==> k <= i < table.len()
            && pointer_over(pointer, table[i], width, height)),
        first_hovered_from(table, pointer, width, height, k) is None ==> forall|j: int|
            k <= j < table.len() ==> !pointer_over(pointer, #[trigger] table[j], width, height),
    decreases table.len() - k,
{
    if k < table.len() && !pointer_over(pointer, table[k], width, height) {
        lemma_first_hovered_from_range(table, pointer, width, height, k + 1);
    }
}

/// The wall under the pointer, if any, is the wall of a slot.
pub(crate) proof fn lemma_hovered_is_slot_wall(pointer: PointerPosition)
    ensures
        (hovered_wall_spec(pointer) matches Some(w) ==> slot_wall(w)),
{
    let vt = slot_table(WallOrientation::Vertical);
    let ht = slot_table(WallOrientation::Horizontal);
    lemma_first_hovered_from_range(vt, pointer, 20, 150, 0);
    lemma_first_hovered_from_range(ht, pointer, 150, 20, 0);
    match first_hovered_from(vt, pointer, 20, 150, 0) {
        Some(k) => lemma_slot_index_of(WallOrientation::Vertical, k),
        None => match first_hovered_from(ht, pointer, 150, 20, 0) {
            Some(k) => lemma_slot_index_of(WallOrientation::Horizontal, k),
            None => {},
        },
    }
}

/// The pointer lies strictly inside the rectangle that `wall` covers on the
/// screen: `wall.w` wide and `wall.h` high, from its top-left corner.
pub open spec fn pointer_on_wall(pointer: PointerPosition, wall: Wall) -> bool {
    &&& pointer.ceil_x > wall.x
    &&& pointer.floor_x < wall.x + wall.w
    &&& pointer.ceil_y > wall.y
    &&& pointer.floor_y < wall.y + wall.h
}

/// A wall is hovered only while the pointer lies inside the wall's own
/// rectangle (a horizontal wall one square wide and one padding high, a
/// vertical wall the other way round), and a wall is hovered whenever the
/// pointer lies inside the rectangle of some slot's wall; elsewhere, such as
/// inside a cell, no wall is hovered.
pub proof fn lemma_hovered_wall_under_pointer(pointer: PointerPosition)
    ensures
        hovered_wall_spec(pointer) matches Some(w) ==> slot_wall(w) && pointer_on_wall(pointer, w),
        hovered_wall_spec(pointer) is None
            <==> !exists|w: Wall| slot_wall(w) && #[trigger] pointer_on_wall(pointer, w),
{
    let vt = slot_table(WallOrientation::Vertical);
    let ht = slot_table(WallOrientation::Horizontal);
    lemma_hovered_is_slot_wall(pointer);
    lemma_first_hovered_from_range(vt, pointer, 20, 150, 0);
    lemma_first_hovered_from_range(ht, pointer, 150, 20, 0);
    if hovered_wall_spec(pointer) is None {
        assert forall|w: Wall| slot_wall(w) implies !#[trigger] pointer_on_wall(pointer, w) by {
            let k = slot_index(w.orientation, (w.x, w.y))->0;
            assert(0 <= k < 30 && slot_table(w.orientation)[k] == (w.x, w.y));
            if w.orientation == WallOrientation::Vertical {
                assert(!pointer_over(pointer, vt[k], 20, 150));
            } else {
                assert(!pointer_over(pointer, ht[k], 150, 20));
            }
        }
    } else {
        let w = hovered_wall_spec(pointer)->0;
        assert(pointer_on_wall(pointer, w));
    }
}

pub(crate) proof fn lemma_remove_to_set<A>(s: Seq<A>, i: int)
    requires
        s.no_duplicates(),
        0 <= i < s.len(),
    ensures
        s.remove(i).to_set() == s.to_set().remove(s[i]),
        s.remove(i).no_duplicates(),
{
    let t = s.remove(i);
    assert forall|y: A| t.to_set().contains(y) implies s.to_set().remove(s[i]).contains(y) by {
        let j = choose|j: int| 0 <= j < t.len() && t[j] == y;
        if j < i {
            assert(s[j] == y);
        } else {
            assert(s[j + 1] == y);
        }
    }
    assert forall|y: A| s.to_set().remove(s[i]).contains(y) implies t.to_set().contains(y) by {
        let j = choose|j: int| 0 <= j < s.len() && s[j] == y;
        if j < i {
            assert(t[j] == y);
        } else {
            assert(t[j - 1] == y);
        }
    }
    assert(t.to_set() =~= s.to_set().remove(s[i]));
}

// ---------------------------------------------------------------------------
// The state
// ---------------------------------------------------------------------------

/// State used while players are placing walls before the hidden board rotation.
///
/// `walls_on_board` is a set of walls: it holds no wall twice.
pub struct WallPlacementState {
    pub walls_left: usize,
    pub walls_on_board: Vec<Wall>,
    pub current_wall: Option<Wall>,
    pub horizontal_wall_values: [(i32, i32); WALL_SLOT_COUNT],
    pub vertical_wall_values: [(i32, i32); WALL_SLOT_COUNT],
}

impl WallPlacementState {
    /// Well-formedness: the slot tables hold the board's wall slots, and no
    /// wall is on the board twice.
    pub open spec fn wf(&self) -> bool {
        &&& self.horizontal_wall_values@ == slot_table(WallOrientation::Horizontal)
        &&& self.vertical_wall_values@ == slot_table(WallOrientation::Vertical)
        &&& self.walls_on_board@.no_duplicates()
    }

    /// The walls on the board, as a set.
    pub open spec fn walls(&self) -> Set<Wall> {
        self.walls_on_board@.to_set()
    }

    /// Every wall on the board is the wall of one of the board's slots.
    pub open spec fn walls_in_slots(&self) -> bool {
        forall|w: Wall| self.walls().contains(w) ==> slot_wall(w)
    }

    /// Each wall on the board has taken one from the counter: the walls left
    /// and the walls on the board add up to `MAX_WALLS`.
    pub open spec fn walls_counted(&self) -> bool {
        self.walls_left + self.walls_on_board@.len() == MAX_WALLS
    }

    pub fn new(max_walls: usize) -> (state: Self)
        ensures
            state.wf(),
            state.walls_left == max_walls,
            state.walls_on_board@ == Seq::<Wall>::empty(),
            state.current_wall is None,
            state.walls_in_slots(),
            fully_accessible(state.walls()),
    {
        proof {
            lemma_empty_board_accessible();
            assert(Seq::<Wall>::empty().to_set() =~= Set::<Wall>::empty());
        }
        let mut horizontal_walls = [(0i32, 0i32); 30];
        let mut vertical_walls = [(0i32, 0i32); 30];

        let mut i: i32 = 0;
        while i < WALL_ROW_COUNT
            invariant
                0 <= i <= 5,
                forall|k: int| 0 <= k < i * 6 ==> horizontal_walls@[k] == horizontal_slot(k),
                forall|k: int| 0 <= k < i * 6 ==> vertical_walls@[k] == vertical_slot(k),
            decreases 5 - i,
        {
            let mut j: i32 = 0;
            while j < GAMEBOARD_SIZE
                invariant
                    0 <= i < 5,
                    0 <= j <= 6,
                    forall|k: int| 0 <= k < i * 6 + j ==> horizontal_walls@[k] == horizontal_slot(k),
                    forall|k: int| 0 <= k < i * 6 + j ==> vertical_walls@[k] == vertical_slot(k),
                decreases 6 - j,
            {
                let idx = (i * GAMEBOARD_SIZE + j) as usize;
                assert((i * 6 + j) / 6 == i && (i * 6 + j) % 6 == j) by (nonlinear_arith)
                    requires 0 <= j < 6, 0 <= i;
                horizontal_walls[idx] = (j * CELL_STRIDE_I32, SQUARE_SIZE_I32 + i * CELL_STRIDE_I32);
                vertical_walls[idx] = (LAST_WALL_OFFSET_I32 - (i * CELL_STRIDE_I32), j * CELL_STRIDE_I32);
                j = j + 1;
            }
            i = i + 1;
        }
        assert(horizontal_walls@ =~= slot_table(WallOrientation::Horizontal));
        assert(vertical_walls@ =~= slot_table(WallOrientation::Vertical));

        Self {
            walls_left: max_walls,
            walls_on_board: Vec::new(),
            current_wall: None,
            horizontal_wall_values: horizontal_walls,
            vertical_wall_values: vertical_walls,
        }
    }

    /// The index of `wall` in `walls_on_board`, if it is on the board.
    fn find_wall(&self, wall: &Wall) -> (r: Option<usize>)
        ensures
            match r {
                Some(i) => i < self.walls_on_board@.len() && self.walls_on_board@[i as int] == *wall,
                None => !self.walls_on_board@.contains(*wall),
            },
    {
        let mut i: usize = 0;
        while i < self.walls_on_board.len()
            invariant
                i <= self.walls_on_board@.len(),
                forall|j: int| 0 <= j < i ==> self.walls_on_board@[j] != *wall,
            decreases self.walls_on_board@.len() - i,
        {
            if self.walls_on_board[i] == *wall {
                return Some(i);
            }
            i = i + 1;
        }
        None
    }

    /// `wall` is on the board.
    pub fn contains_wall(&self, wall: &Wall) -> (r: bool)
        ensures
            r == self.walls().contains(*wall),
    {
        match self.find_wall(wall) {
            Some(_) => true,
            None => false,
        }
    }

    fn cell_in_bounds(cell: BoardCell) -> (r: bool)
        ensures
            r == cell_in_bounds(cell),
    {
        let (row, col) = cell;
        0 <= row && row < GAMEBOARD_SIZE && 0 <= col && col < GAMEBOARD_SIZE
    }

    fn wall_between(&self, from: BoardCell, to: BoardCell) -> (r: Option<Wall>)
        requires
            wall_between_in_range(from, to),
        ensures
            r == wall_between_spec(from, to),
    {
        let row_delta = from.0 - to.0;
        let col_delta = from.1 - to.1;
        let row_abs = if row_delta < 0 { -row_delta } else { row_delta };
        let col_abs = if col_delta < 0 { -col_delta } else { col_delta };

        if row_abs + col_abs != 1 {
            return None;
        }
        //convert movement between two adjacent cells into the wall slot that blocks it
        if row_delta != 0 {
            let upper_row = if from.0 <= to.0 { from.0 } else { to.0 };
            Some(Wall::new(
                from.1 * CELL_STRIDE_I32,
                SQUARE_SIZE_I32 + upper_row * CELL_STRIDE_I32,
                WallOrientation::Horizontal,
            ))
        } else {
            let left_col = if from.1 <= to.1 { from.1 } else { to.1 };
            Some(Wall::new(
                SQUARE_SIZE_I32 + left_col * CELL_STRIDE_I32,
                from.0 * CELL_STRIDE_I32,
                WallOrientation::Vertical,
            ))
        }
    }

    fn wall_blocks_between(&self, from: BoardCell, to: BoardCell) -> (r: bool)
        requires
            wall_between_in_range(from, to),
        ensures
            r == wall_blocks(self.walls(), from, to),
    {
        match self.wall_between(from, to) {
            Some(wall) => self.contains_wall(&wall),
            None => false,
        }
    }

    fn open_neighbors(&self, cell: BoardCell) -> (r: Vec<BoardCell>)
        requires
            cell_in_bounds(cell),
        ensures
            r@ == open_neighbors_spec(self.walls(), cell),
    {
        let (row, col) = cell;
        //candidate moves are the four neighboring cells on the grid
        let candidates: Vec<BoardCell> = vec![(row - 1, col), (row + 1, col), (row, col - 1), (row, col + 1)];
        let ghost pred = step_from(self.walls(), cell);
        assert(candidates@ =~= neighbor_candidates(cell));

        let mut result: Vec<BoardCell> = Vec::new();
        let mut i: usize = 0;
        while i < candidates.len()
            invariant
                cell_in_bounds(cell),
                pred == step_from(self.walls(), cell),
                candidates@ == neighbor_candidates(cell),
                i <= candidates@.len(),
                result@ == candidates@.take(i as int).filter(pred),
            decreases candidates@.len() - i,
        {
            let neighbor = candidates[i];
            let keep = Self::cell_in_bounds(neighbor) && !self.wall_blocks_between(cell, neighbor);
            assert(keep == pred(neighbor));
            assert(candidates@.take(i + 1) =~= candidates@.take(i as int).push(neighbor));
            proof {
                candidates@.take(i as int).lemma_filter_push(neighbor, pred);
            }
            if keep {
                result.push(neighbor);
            }
            i = i + 1;
        }
        assert(candidates@.take(4) =~= candidates@);
        result
    }

    /// Every cell of the board can be reached from the top-left cell with the
    /// walls now on the board.
    pub fn board_is_fully_accessible(&self) -> (r: bool)
        ensures
            r == fully_accessible(self.walls()),
    {
        let ghost walls = self.walls();
        let mut visited: Vec<bool> = Vec::new();
        let mut k: usize = 0;
        while k < 36
            invariant
                k <= 36,
                visited@.len() == k,
                forall|j: int| 0 <= j < k ==> !visited@[j],
            decreases 36 - k,
        {
            visited.push(false);
            k = k + 1;
        }
        proof {
            lemma_count_true_zero(visited@);
        }
        let mut queue: VecDeque<BoardCell> = VecDeque::new();
        let start: BoardCell = (0, 0);

        //BFS starts in the top-left cell and expands through unblocked neighbors
        proof {
            lemma_count_true_set(visited@, 0);
        }
        visited.set(0, true);
        let mut count: usize = 1;
        queue.push_back(start);
        let ghost mut paths: Map<BoardCell, Seq<BoardCell>> = Map::empty().insert(start, seq![start]);
        proof {
            let p = seq![start];
            assert(is_walk(walls, p));
            assert forall|c: BoardCell| cell_in_bounds(c) && #[trigger] visited@[cell_index(c)] implies
                paths.dom().contains(c) && is_walk(walls, paths[c]) && paths[c][0] == start_cell()
                    && paths[c].last() == c by {
                assert(c == start);
            }
        }

        loop
            invariant
                walls == self.walls(),
                visited@.len() == 36,
                count == count_true(visited@),
                visited@[0],
                forall|i: int| 0 <= i < queue@.len() ==>
                    cell_in_bounds(#[trigger] queue@[i]) && visited@[cell_index(queue@[i])],
                forall|c: BoardCell| cell_in_bounds(c) && #[trigger] visited@[cell_index(c)] ==>
                    paths.dom().contains(c) && is_walk(walls, paths[c]) && paths[c][0] == start_cell()
                        && paths[c].last() == c,
                forall|c: BoardCell, d: BoardCell|
                    cell_in_bounds(c) && #[trigger] visited@[cell_index(c)] && !queue@.contains(c)
                        && #[trigger] can_step(walls, c, d) ==> visited@[cell_index(d)],
            ensures
                queue@.len() == 0,
            decreases 2 * (36 - count) + queue@.len(),
        {
            proof {
                lemma_count_true_bounds(visited@);
            }
            let ghost queue_before = queue@;
            let cell = match queue.pop_front() {
                Some(cell) => cell,
                None => break,
            };
            proof {
                assert forall|c: BoardCell, d: BoardCell|
                    c != cell && cell_in_bounds(c) && #[trigger] visited@[cell_index(c)] && !queue@.contains(c)
                        && #[trigger] can_step(walls, c, d) implies visited@[cell_index(d)] by {
                    if queue_before.contains(c) {
                        let j = choose|j: int| 0 <= j < queue_before.len() && queue_before[j] == c;
                        if j > 0 {
                            assert(queue@[j - 1] == c);
                        }
                    }
                }
            }
            let neighbors = self.open_neighbors(cell);
            let ghost measure0 = 2 * (36 - count) + queue@.len();
            let mut i: usize = 0;
            while i < neighbors.len()
                invariant
                    walls == self.walls(),
                    cell_in_bounds(cell),
                    visited@[cell_index(cell)],
                    neighbors@ == open_neighbors_spec(walls, cell),
                    i <= neighbors@.len(),
                    visited@.len() == 36,
                    count == count_true(visited@),
                    visited@[0],
                    2 * (36 - count) + queue@.len() <= measure0,
                    forall|j: int| 0 <= j < i ==> visited@[cell_index(#[trigger] neighbors@[j])],
                    forall|j: int| 0 <= j < queue@.len() ==>
                        cell_in_bounds(#[trigger] queue@[j]) && visited@[cell_index(queue@[j])],
                    forall|c: BoardCell| cell_in_bounds(c) && #[trigger] visited@[cell_index(c)] ==>
                        paths.dom().contains(c) && is_walk(walls, paths[c]) && paths[c][0] == start_cell()
                        && paths[c].last() == c,
                    forall|c: BoardCell, d: BoardCell|
                        c != cell && cell_in_bounds(c) && #[trigger] visited@[cell_index(c)] && !queue@.contains(c)
                            && #[trigger] can_step(walls, c, d) ==> visited@[cell_index(d)],
                decreases neighbors@.len() - i,
            {
                let neighbor = neighbors[i];
                proof {
                    neighbor_candidates(cell).lemma_filter_pred(step_from(walls, cell), i as int);
                    lemma_count_true_bounds(visited@);
                }
                let idx = (neighbor.0 * GAMEBOARD_SIZE + neighbor.1) as usize;
                if !visited[idx] {
                    proof {
                        lemma_count_true_set(visited@, idx as int);
                        lemma_walk_push(walls, paths[cell], neighbor);
                    }
                    let ghost old_queue = queue@;
                    visited.set(idx, true);
                    count = count + 1;
                    queue.push_back(neighbor);
                    proof {
                        paths = paths.insert(neighbor, paths[cell].push(neighbor));
                        assert forall|c: BoardCell, d: BoardCell|
                            c != cell && cell_in_bounds(c) && #[trigger] visited@[cell_index(c)] && !queue@.contains(c)
                                && #[trigger] can_step(walls, c, d) implies visited@[cell_index(d)] by {
                            if c != neighbor {
                                assert(cell_index(c) != cell_index(neighbor));
                                assert(!old_queue.contains(c)) by {
                                    if old_queue.contains(c) {
                                        let j = choose|j: int| 0 <= j < old_queue.len() && old_queue[j] == c;
                                        assert(queue@[j] == c);
                                    }
                                }
                            } else {
                                assert(queue@[queue@.len() - 1] == neighbor);
                            }
                        }
                        assert forall|c: BoardCell| cell_in_bounds(c) && #[trigger] visited@[cell_index(c)] implies
                            paths.dom().contains(c) && is_walk(walls, paths[c]) && paths[c][0] == start_cell()
                                && paths[c].last() == c by {
                            if c != neighbor {
                                assert(cell_index(c) != cell_index(neighbor));
                            }
                        }
                    }
                }
                i = i + 1;
            }
            proof {
                assert forall|d: BoardCell| #[trigger] can_step(walls, cell, d) implies visited@[cell_index(d)] by {
                    lemma_step_is_open_neighbor(walls, cell, d);
                }
                lemma_count_true_bounds(visited@);
            }
        }

        proof {
            lemma_count_true_bounds(visited@);
            if count == 36 {
                assert forall|c: BoardCell| cell_in_bounds(c) implies #[trigger] reachable(walls, c) by {
                    assert(visited@[cell_index(c)]);
                    assert(is_walk(walls, paths[c]));
                }
            } else {
                let j = choose|j: int| 0 <= j < 36 && !visited@[j];
                let c: BoardCell = ((j / 6) as i32, (j % 6) as i32);
                assert(cell_index(c) == j);
                if fully_accessible(walls) {
                    assert(reachable(walls, c));
                    let p = choose|p: Seq<BoardCell>| #[trigger] is_walk(walls, p) && p[0] == start_cell() && p.last() == c;
                    assert(cell_index(p[0]) == 0);
                    lemma_closed_set_holds_walk(walls, visited@, p);
                }
            }
        }
        //if every cell was visited, the walls have not cut off any board area
        count == 36
    }

    pub fn reset(&mut self, max_walls: usize)
        requires
            old(self).wf(),
        ensures
            final(self).wf(),
            final(self).walls_on_board@ == Seq::<Wall>::empty(),
            final(self).walls_left == max_walls,
            final(self).current_wall is None,
            final(self).horizontal_wall_values == old(self).horizontal_wall_values,
            final(self).vertical_wall_values == old(self).vertical_wall_values,
            final(self).walls_in_slots(),
            fully_accessible(final(self).walls()),
    {
        proof {
            lemma_empty_board_accessible();
            assert(Seq::<Wall>::empty().to_set() =~= Set::<Wall>::empty());
        }
        self.walls_on_board.clear();
        self.walls_left = max_walls;
        self.current_wall = None;
    }

    fn wall_values(&self, orientation: WallOrientation) -> (r: &[(i32, i32); WALL_SLOT_COUNT])
        requires
            self.wf(),
        ensures
            r@ == slot_table(orientation),
    {
        match orientation {
            WallOrientation::Horizontal => &self.horizontal_wall_values,
            WallOrientation::Vertical => &self.vertical_wall_values,
        }
    }

    fn wall_slot_index(&self, wall: Wall) -> (r: Option<usize>)
        requires
            self.wf(),
        ensures
            match r {
                Some(i) => slot_index(wall.orientation, (wall.x, wall.y)) == Some(i as int),
                None => slot_index(wall.orientation, (wall.x, wall.y)) is None,
            },
    {
        let values = self.wall_values(wall.orientation);
        let ghost table = slot_table(wall.orientation);
        let mut i: usize = 0;
        while i < WALL_SLOT_COUNT
            invariant
                values@ == table,
                table == slot_table(wall.orientation),
                i <= 30,
                forall|j: int| 0 <= j < i ==> table[j] != (wall.x, wall.y),
            decreases 30 - i,
        {
            let (x, y) = values[i];
            if x == wall.x && y == wall.y {
                proof {
                    lemma_slot_index_of(wall.orientation, i as int);
                }
                return Some(i);
            }
            i = i + 1;
        }
        None
    }

    fn wall_at(&self, orientation: WallOrientation, index: usize) -> (r: Wall)
        requires
            self.wf(),
            index < 30,
        ensures
            r == wall_at_spec(orientation, index as int),
    {
        let (x, y) = self.wall_values(orientation)[index];
        Wall::new(x, y, orientation)
    }

    fn rotated_wall(&self, wall: Wall, rotation: usize) -> (r: Option<Wall>)
        requires
            self.wf(),
        ensures
            r == rotated_wall_spec(wall, rotation as int),
    {
        let index = match self.wall_slot_index(wall) {
            Some(index) => index,
            None => return None,
        };
        let reverse_index = WALL_SLOT_COUNT - index - 1;

        let rotated_wall = match (rotation, wall.orientation) {
            (0, _) => wall,
            (1, WallOrientation::Horizontal) => self.wall_at(WallOrientation::Vertical, index),
            (1, WallOrientation::Vertical) => {
                self.wall_at(WallOrientation::Horizontal, reverse_index)
            },
            (2, _) => self.wall_at(wall.orientation, reverse_index),
            (3, WallOrientation::Horizontal) => {
                self.wall_at(WallOrientation::Vertical, reverse_index)
            },
            (3, WallOrientation::Vertical) => self.wall_at(WallOrientation::Horizontal, index),
            _ => return None,
        };

        Some(rotated_wall)
    }

    /// Turns the walls on the board by `rotation` quarter turns.
    pub fn rotate_walls(&mut self, rotation: usize)
        requires
            old(self).wf(),
        ensures
            final(self).wf(),
            final(self).walls() == rotated_walls(old(self).walls(), rotation as int),
            final(self).walls_left == old(self).walls_left,
            final(self).current_wall == old(self).current_wall,
            rotation < 4 && (forall|w: Wall| old(self).walls().contains(w) ==> canonical_wall(w))
                && fully_accessible(old(self).walls()) ==> fully_accessible(final(self).walls()),
            old(self).walls_in_slots() ==> final(self).walls_in_slots(),
            // no wall in a slot is lost or merged by the turn
            rotation < 4 && old(self).walls_in_slots() ==> final(self).walls_on_board@.len() == old(self).walls_on_board@.len(),
    {
        let ghost ok = rotation < 4 && self.walls_in_slots();
        let mut rotated: Vec<Wall> = Vec::new();
        let mut i: usize = 0;
        proof {
            assert(self.walls_on_board@.take(0).to_set() =~= Set::<Wall>::empty());
            assert(rotated_walls(Set::<Wall>::empty(), rotation as int) =~= Set::<Wall>::empty());
            assert(rotated@.to_set() =~= Set::<Wall>::empty());
        }
        while i < self.walls_on_board.len()
            invariant
                self.wf(),
                i <= self.walls_on_board@.len(),
                rotated@.no_duplicates(),
                rotated@.to_set() == rotated_walls(self.walls_on_board@.take(i as int).to_set(), rotation as int),
                ok == (rotation < 4 && self.walls_in_slots()),
                ok ==> rotated@.len() == i,
                self.walls_on_board == old(self).walls_on_board,
            decreases self.walls_on_board@.len() - i,
        {
            let wall = self.walls_on_board[i];
            let ghost before = rotated@;
            proof {
                assert(self.walls_on_board@.take(i + 1) =~= self.walls_on_board@.take(i as int).push(wall));
                lemma_push_to_set(self.walls_on_board@.take(i as int), wall);
                lemma_rotated_walls_insert(self.walls_on_board@.take(i as int).to_set(), wall, rotation as int);
            }
            match self.rotated_wall(wall, rotation) {
                Some(image) => {
                    if !vec_contains_wall(&rotated, &image) {
                        rotated.push(image);
                        proof {
                            lemma_push_to_set(before, image);
                        }
                    } else {
                        proof {
                            if ok {
                                let prefix = self.walls_on_board@.take(i as int);
                                assert(before.to_set().contains(image));
                                let w = choose|w: Wall| prefix.to_set().contains(w)
                                    && #[trigger] rotated_wall_spec(w, rotation as int) == Some(image);
                                assert(self.walls().contains(wall));
                                let j = choose|j: int| 0 <= j < prefix.len() && prefix[j] == w;
                                assert(self.walls_on_board@[j] == w);
                                assert(self.walls().contains(w));
                                assert(slot_wall(w) && slot_wall(wall));
                                lemma_rotation_injective(w, wall, rotation as int);
                                assert(false);
                            }
                            assert(before.to_set().insert(image) =~= before.to_set());
                        }
                    }
                },
                None => {
                    proof {
                        if ok {
                            assert(self.walls().contains(wall));
                            assert(slot_wall(wall));
                        }
                    }
                },
            }
            i = i + 1;
        }
        proof {
            assert(self.walls_on_board@.take(self.walls_on_board@.len() as int) =~= self.walls_on_board@);
            if rotation < 4 && (forall|w: Wall| old(self).walls().contains(w) ==> canonical_wall(w))
                && fully_accessible(old(self).walls()) {
                lemma_rotation_keeps_board_accessible(old(self).walls(), rotation as int);
            }
            if old(self).walls_in_slots() {
                assert forall|w2: Wall| rotated_walls(old(self).walls(), rotation as int).contains(w2)
                    implies slot_wall(w2) by {
                    let w = choose|w: Wall| old(self).walls().contains(w) && #[trigger] rotated_wall_spec(w, rotation as int) == Some(w2);
                    assert(slot_wall(w));
                    if rotation != 0 {
                        let k = slot_index(w.orientation, (w.x, w.y))->0;
                        assert(0 <= k < 30 && 0 <= 29 - k < 30);
                        lemma_slot_index_of(w2.orientation, k);
                        lemma_slot_index_of(w2.orientation, 29 - k);
                    }
                }
            }
        }
        self.walls_on_board = rotated;
    }

    /// Turns the walls on the board by a random number of quarter turns.
    pub fn randomize_board(&mut self, rng: &mut ThreadRng)
        requires
            old(self).wf(),
        ensures
            final(self).wf(),
            exists|rotation: int| 0 <= rotation < 4
                && #[trigger] rotated_walls(old(self).walls(), rotation) == final(self).walls(),
            final(self).walls_left == old(self).walls_left,
            final(self).current_wall == old(self).current_wall,
            old(self).walls_in_slots() && fully_accessible(old(self).walls()) ==> fully_accessible(final(self).walls()),
            old(self).walls_in_slots() ==> final(self).walls_in_slots(),
            old(self).walls_in_slots() ==> final(self).walls_on_board@.len() == old(self).walls_on_board@.len(),
    {
        let rotation = random_below(rng, 4);
        proof {
            if old(self).walls_in_slots() {
                assert forall|w: Wall| old(self).walls().contains(w) implies canonical_wall(w) by {
                    assert(slot_wall(w));
                }
            }
        }
        self.rotate_walls(rotation);
        assert(rotated_walls(old(self).walls(), rotation as int) == self.walls());
    }

    /// Places `wall` on the board if that leaves every cell reachable: fewer
    /// than `MAX_WALLS` walls may be on the board, and the wall must not be
    /// there yet. A placed wall takes one from `walls_left`.
    pub fn try_insert_wall(&mut self, wall: Wall)
        requires
            old(self).wf(),
            insert_accepted(old(self).walls_on_board@, wall) ==> old(self).walls_left > 0,
        ensures
            final(self).wf(),
            final(self).walls() == if insert_accepted(old(self).walls_on_board@, wall) {
                old(self).walls().insert(wall)
            } else {
                old(self).walls()
            },
            final(self).walls_left == if insert_accepted(old(self).walls_on_board@, wall) {
                (old(self).walls_left - 1) as usize
            } else {
                old(self).walls_left
            },
            final(self).current_wall == old(self).current_wall,
            fully_accessible(old(self).walls()) ==> fully_accessible(final(self).walls()),
            old(self).walls_in_slots() && slot_wall(wall) ==> final(self).walls_in_slots(),
            final(self).walls_left + final(self).walls_on_board@.len() == old(self).walls_left + old(self).walls_on_board@.len(),
            old(self).walls_counted() ==> final(self).walls_counted(),
            // the placement rule: fewer than `MAX_WALLS` walls, a new wall, and every cell still reachable
            final(self).walls() == if old(self).walls_on_board@.len() < MAX_WALLS && !old(self).walls().contains(wall)
                && fully_accessible(old(self).walls().insert(wall)) {
                old(self).walls().insert(wall)
            } else {
                old(self).walls()
            },
    {
        if self.walls_on_board.len() >= MAX_WALLS {
            return;
        }
        //temporarily add the wall so the BFS can validate the board with it in place
        if !self.contains_wall(&wall) {
            let ghost before = self.walls_on_board@;
            self.walls_on_board.push(wall);
            proof {
                lemma_push_to_set(before, wall);
                assert(self.walls_on_board@.no_duplicates()) by {
                    assert forall|a: int, b: int|
                        0 <= a < self.walls_on_board@.len() && 0 <= b < self.walls_on_board@.len() && a != b
                        implies self.walls_on_board@[a] != self.walls_on_board@[b] by {
                        if a < before.len() && b < before.len() {
                            assert(before[a] != before[b]);
                        } else if a < before.len() {
                            assert(before.contains(before[a]));
                        } else {
                            assert(before.contains(before[b]));
                        }
                    }
                }
            }
            if self.board_is_fully_accessible() {
                self.walls_left -= 1;
            } else {
                self.walls_on_board.pop();
                proof {
                    assert(self.walls_on_board@ =~= before);
                }
            }
        }
    }

    /// Takes `wall` off the board; true when it was there.
    fn remove_wall(&mut self, wall: &Wall) -> (r: bool)
        requires
            old(self).wf(),
        ensures
            final(self).wf(),
            r == old(self).walls().contains(*wall),
            final(self).walls() == old(self).walls().remove(*wall),
            final(self).walls_left == old(self).walls_left,
            final(self).current_wall == old(self).current_wall,
            final(self).walls_on_board@.len() == old(self).walls_on_board@.len() - if r { 1int } else { 0int },
    {
        match self.find_wall(wall) {
            Some(i) => {
                proof {
                    lemma_remove_to_set(self.walls_on_board@, i as int);
                }
                self.walls_on_board.remove(i);
                true
            },
            None => {
                proof {
                    assert(old(self).walls().remove(*wall) =~= old(self).walls());
                }
                false
            },
        }
    }

    /// The wall slot under the pointer: the first vertical slot that holds
    /// it, else the first horizontal slot that holds it.
    pub fn hovered_wall(&self, pointer: PointerPosition) -> (r: Option<Wall>)
        requires
            self.wf(),
        ensures
            r == hovered_wall_spec(pointer),
            r matches Some(w) ==> slot_wall(w) && pointer_on_wall(pointer, w),
            r is None <==> !exists|w: Wall| slot_wall(w) && #[trigger] pointer_on_wall(pointer, w),
    {
        proof {
            lemma_hovered_wall_under_pointer(pointer);
        }
        let mut current: Option<Wall> = None;

        let ghost htable = slot_table(WallOrientation::Horizontal);
        let mut i: usize = 0;
        while i < WALL_SLOT_COUNT
            invariant_except_break
                current is None,
            invariant
                self.wf(),
                i <= 30,
                first_hovered_from(htable, pointer, 150, 20, 0) == first_hovered_from(htable, pointer, 150, 20, i as int),
                htable == slot_table(WallOrientation::Horizontal),
            ensures
                self.wf(),
                current == match first_hovered_from(htable, pointer, 150, 20, 0) {
                    Some(k) => Some(wall_at_spec(WallOrientation::Horizontal, k)),
                    None => None,
                },
            decreases 30 - i,
        {
            let (wall_x, wall_y) = self.horizontal_wall_values[i];
            if pointer.ceil_x > wall_x && pointer.floor_x < wall_x + SQUARE_SIZE_I32
                && pointer.ceil_y > wall_y && pointer.floor_y < wall_y + PADDING_I32
            {
                current = Some(Wall::new(wall_x, wall_y, WallOrientation::Horizontal));
                break;
            }
            i = i + 1;
        }
        let ghost horizontal_choice = current;
        let ghost vtable = slot_table(WallOrientation::Vertical);
        let mut i: usize = 0;
        while i < WALL_SLOT_COUNT
            invariant_except_break
                current == horizontal_choice,
            invariant
                self.wf(),
                i <= 30,
                first_hovered_from(vtable, pointer, 20, 150, 0) == first_hovered_from(vtable, pointer, 20, 150, i as int),
                vtable == slot_table(WallOrientation::Vertical),
            ensures
                self.wf(),
                current == match first_hovered_from(vtable, pointer, 20, 150, 0) {
                    Some(k) => Some(wall_at_spec(WallOrientation::Vertical, k)),
                    None => horizontal_choice,
                },
            decreases 30 - i,
        {
            let (wall_x, wall_y) = self.vertical_wall_values[i];
            if pointer.ceil_x > wall_x && pointer.floor_x < wall_x + PADDING_I32
                && pointer.ceil_y > wall_y && pointer.floor_y < wall_y + SQUARE_SIZE_I32
            {
                current = Some(Wall::new(wall_x, wall_y, WallOrientation::Vertical));
                break;
            }
            i = i + 1;
        }

        current
    }

    fn wall_set(&mut self, pointer: PointerPosition, left_pressed: bool, right_pressed: bool)
        requires
            old(self).wf(),
            placement_update_in_range(*old(self), pointer, left_pressed, right_pressed),
        ensures
            final(self).wf(),
            final(self).current_wall == hovered_wall_spec(pointer),
            placement_update_effect(*old(self), *final(self), pointer, left_pressed, right_pressed),
            final(self).walls_left + final(self).walls_on_board@.len() == old(self).walls_left + old(self).walls_on_board@.len(),
    {
        //if cursor hovering over any possible wall, set the current wall
        self.current_wall = self.hovered_wall(pointer);

        //a left click inserts the hovered wall; a right click deletes it if it is on the board
        if let Some(wall) = self.current_wall {
            if left_pressed {
                self.try_insert_wall(wall);
            } else if right_pressed {
                let ghost before = self.walls();
                if self.remove_wall(&wall) {
                    self.walls_left += 1;
                } else {
                    assert(before.remove(wall) =~= before);
                }
            }
        }
    }

    /// One frame of wall placement: finds the wall slot under the pointer and
    /// applies the clicks of this frame to it.
    pub fn update_placement(&mut self, pointer: PointerPosition, left_pressed: bool, right_pressed: bool)
        requires
            old(self).wf(),
            placement_update_in_range(*old(self), pointer, left_pressed, right_pressed),
        ensures
            final(self).wf(),
            final(self).current_wall == hovered_wall_spec(pointer),
            placement_update_effect(*old(self), *final(self), pointer, left_pressed, right_pressed),
            fully_accessible(old(self).walls()) ==> fully_accessible(final(self).walls()),
            old(self).walls_in_slots() ==> final(self).walls_in_slots(),
            final(self).walls_left + final(self).walls_on_board@.len() == old(self).walls_left + old(self).walls_on_board@.len(),
            old(self).walls_counted() ==> final(self).walls_counted(),
            final(self).current_wall matches Some(w) ==> slot_wall(w) && pointer_on_wall(pointer, w),
            final(self).current_wall is None ==> final(self).walls() == old(self).walls(),
    {
        proof {
            lemma_hovered_wall_under_pointer(pointer);
        }
        self.wall_set(pointer, left_pressed, right_pressed);
        proof {
            match hovered_wall_spec(pointer) {
                Some(wall) => {
                    lemma_hovered_is_slot_wall(pointer);
                    if old(self).walls_in_slots() {
                        assert forall|w: Wall| self.walls().contains(w) implies slot_wall(w) by {
                            if w != wall {
                                assert(old(self).walls().contains(w));
                            }
                        }
                    }
                },
                None => {},
            }
            if fully_accessible(old(self).walls()) {
                match hovered_wall_spec(pointer) {
                    Some(wall) => {
                        if !left_pressed && right_pressed {
                            lemma_fewer_walls_keep_access(self.walls(), old(self).walls());
                        }
                    },
                    None => {},
                }
            }
        }
    }

    /// `try_insert_wall(wall)` would place the wall.
    pub fn accepts_wall(&self, wall: Wall) -> (r: bool)
        requires
            self.wf(),
        ensures
            r == insert_accepted(self.walls_on_board@, wall),
    {
        if self.walls_on_board.len() >= MAX_WALLS || self.contains_wall(&wall) {
            return false;
        }
        let mut walls: Vec<Wall> = Vec::new();
        let mut i: usize = 0;
        while i < self.walls_on_board.len()
            invariant
                i <= self.walls_on_board@.len(),
                walls@ == self.walls_on_board@.take(i as int),
            decreases self.walls_on_board@.len() - i,
        {
            walls.push(self.walls_on_board[i]);
            proof {
                assert(walls@ =~= self.walls_on_board@.take(i + 1));
            }
            i = i + 1;
        }
        proof {
            assert(walls@ =~= self.walls_on_board@);
            lemma_push_to_set(walls@, wall);
        }
        walls.push(wall);
        let trial = WallPlacementState {
            walls_left: self.walls_left,
            walls_on_board: walls,
            current_wall: self.current_wall,
            horizontal_wall_values: self.horizontal_wall_values,
            vertical_wall_values: self.vertical_wall_values,
        };
        trial.board_is_fully_accessible()
    }

    /// The clicks of this frame can be applied without running the wall
    /// counter out of range (see `placement_update_in_range`).
    pub fn placement_in_range(&self, pointer: PointerPosition, left_pressed: bool, right_pressed: bool) -> (r: bool)
        requires
            self.wf(),
        ensures
            r == placement_update_in_range(*self, pointer, left_pressed, right_pressed),
    {
        match self.hovered_wall(pointer) {
            Some(wall) => {
                let insert_in_range = !(left_pressed && self.accepts_wall(wall)) || self.walls_left > 0;
                let remove_in_range = !(!left_pressed && right_pressed && self.contains_wall(&wall))
                    || self.walls_left < usize::MAX;
                insert_in_range && remove_in_range
            },
            None => true,
        }
    }
}

} // verus!
