//! Cells, moves between them, and the accessibility of the board: every
//! cell can be reached from the top-left cell. Taking walls off and turning
//! the board both keep a board accessible.

use vstd::prelude::*;
use crate::slots::{
    canonical_wall, lemma_slot_index_of, lemma_slot_tables_distinct, rotated_wall_spec, rotated_walls,
    slot_index, slot_table, wall_at_spec,
};
use crate::wall::{wall_spec, Wall, WallOrientation};
use crate::config::{CELL_STRIDE_I32, SQUARE_SIZE_I32};

verus! {

/// A board cell as (row, column).
pub type BoardCell = (i32, i32);

pub open spec fn cell_in_bounds(cell: BoardCell) -> bool {
    0 <= cell.0 < 6 && 0 <= cell.1 < 6
}

pub open spec fn int_abs(x: int) -> int {
    if x < 0 { -x } else { x }
}

pub open spec fn int_min(a: int, b: int) -> int {
    if a <= b { a } else { b }
}

/// The wall slot that separates two side-by-side cells; `None` when the
/// cells are not side by side.
pub open spec fn wall_between_spec(from: BoardCell, to: BoardCell) -> Option<Wall> {
    let row_delta = from.0 - to.0;
    let col_delta = from.1 - to.1;
    if int_abs(row_delta) + int_abs(col_delta) != 1 {
        None
    } else if row_delta != 0 {
        Some(wall_spec((from.1 * 170) as i32, (150 + int_min(from.0 as int, to.0 as int) * 170) as i32,
            WallOrientation::Horizontal))
    } else {
        Some(wall_spec((150 + int_min(from.1 as int, to.1 as int) * 170) as i32, (from.0 * 170) as i32,
            WallOrientation::Vertical))
    }
}

/// The wall between two side-by-side cells of the board fills the gap
/// between them on the screen, where cell (row, col) covers the square of
/// side `SQUARE_SIZE_I32` whose corner is `CELL_STRIDE_I32` times (col, row):
/// between a cell and the one below it the wall runs along the column, from
/// the bottom edge of the upper cell to the top edge of the lower one;
/// between a cell and the one beside it the wall runs along the row, from the
/// right edge of the left cell to the left edge of the right one.
pub proof fn lemma_wall_between_fills_the_gap(a: BoardCell, b: BoardCell)
    requires
        cell_in_bounds(a),
        cell_in_bounds(b),
        int_abs(a.0 - b.0) + int_abs(a.1 - b.1) == 1,
    ensures
        wall_between_spec(a, b) matches Some(w) && if a.1 == b.1 {
            let upper = int_min(a.0 as int, b.0 as int);
            &&& w.orientation == WallOrientation::Horizontal
            &&& w.x == a.1 * CELL_STRIDE_I32 && w.w == SQUARE_SIZE_I32
            &&& w.y == upper * CELL_STRIDE_I32 + SQUARE_SIZE_I32
            &&& w.y + w.h == (upper + 1) * CELL_STRIDE_I32
        } else {
            let left = int_min(a.1 as int, b.1 as int);
            &&& w.orientation == WallOrientation::Vertical
            &&& w.y == a.0 * CELL_STRIDE_I32 && w.h == SQUARE_SIZE_I32
            &&& w.x == left * CELL_STRIDE_I32 + SQUARE_SIZE_I32
            &&& w.x + w.w == (left + 1) * CELL_STRIDE_I32
        },
{
}

/// Finding the wall between `from` and `to` stays within `i32`: the
/// differences of the coordinates and the sum of their sizes, and, for
/// side-by-side cells, the slot's coordinates.
pub open spec fn wall_between_in_range(from: BoardCell, to: BoardCell) -> bool {
    let row_delta = from.0 - to.0;
    let col_delta = from.1 - to.1;
    let in_i32 = |x: int| i32::MIN <= x <= i32::MAX;
    &&& i32::MIN < row_delta <= i32::MAX
    &&& i32::MIN < col_delta <= i32::MAX
    &&& int_abs(row_delta) + int_abs(col_delta) <= i32::MAX
    &&& int_abs(row_delta) + int_abs(col_delta) == 1 ==> if row_delta != 0 {
        &&& in_i32(from.1 * 170)
        &&& in_i32(int_min(from.0 as int, to.0 as int) * 170)
        &&& in_i32(150 + int_min(from.0 as int, to.0 as int) * 170)
    } else {
        &&& in_i32(int_min(from.1 as int, to.1 as int) * 170)
        &&& in_i32(150 + int_min(from.1 as int, to.1 as int) * 170)
        &&& in_i32(from.0 * 170)
    }
}

/// A wall of `walls` stands between `from` and `to`.
pub open spec fn wall_blocks(walls: Set<Wall>, from: BoardCell, to: BoardCell) -> bool {
    match wall_between_spec(from, to) {
        Some(wall) => walls.contains(wall),
        None => false,
    }
}

/// A piece on `from` can move to the side-by-side cell `to`: both are on the
/// board and no wall of `walls` stands between them.
pub open spec fn can_step(walls: Set<Wall>, from: BoardCell, to: BoardCell) -> bool {
    &&& cell_in_bounds(from)
    &&& cell_in_bounds(to)
    &&& wall_between_spec(from, to) is Some
    &&& !wall_blocks(walls, from, to)
}

pub open spec fn step_from(walls: Set<Wall>, cell: BoardCell) -> spec_fn(BoardCell) -> bool {
    |n: BoardCell| can_step(walls, cell, n)
}

/// The four cells around `cell`, in the order up, down, left, right.
pub open spec fn neighbor_candidates(cell: BoardCell) -> Seq<BoardCell> {
    seq![
        ((cell.0 - 1) as i32, cell.1),
        ((cell.0 + 1) as i32, cell.1),
        (cell.0, (cell.1 - 1) as i32),
        (cell.0, (cell.1 + 1) as i32),
    ]
}

/// The cells a piece on `cell` can move to, in the order up, down, left, right.
pub open spec fn open_neighbors_spec(walls: Set<Wall>, cell: BoardCell) -> Seq<BoardCell> {
    neighbor_candidates(cell).filter(step_from(walls, cell))
}

pub open spec fn step_ok(walls: Set<Wall>, p: Seq<BoardCell>, i: int) -> bool {
    can_step(walls, p[i], p[i + 1])
}

/// `p` is a sequence of moves on the board, each to a side-by-side cell with
/// no wall between.
pub open spec fn is_walk(walls: Set<Wall>, p: Seq<BoardCell>) -> bool {
    &&& p.len() > 0
    &&& cell_in_bounds(p[0])
    &&& forall|i: int| 0 <= i < p.len() - 1 ==> #[trigger] step_ok(walls, p, i)
}

/// The start cell of the accessibility check, the top-left corner.
pub open spec fn start_cell() -> BoardCell {
    (0i32, 0i32)
}

/// `cell` can be reached from the top-left cell.
pub open spec fn reachable(walls: Set<Wall>, cell: BoardCell) -> bool {
    exists|p: Seq<BoardCell>| #[trigger] is_walk(walls, p) && p[0] == start_cell() && p.last() == cell
}

/// Every cell of the board can be reached from the top-left cell.
pub open spec fn fully_accessible(walls: Set<Wall>) -> bool {
    forall|cell: BoardCell| cell_in_bounds(cell) ==> #[trigger] reachable(walls, cell)
}

pub open spec fn cell_index(cell: BoardCell) -> int {
    cell.0 * 6 + cell.1
}

/// Number of `true` entries of `s`.
pub open spec fn count_true(s: Seq<bool>) -> nat
    decreases s.len(),
{
    if s.len() == 0 {
        0
    } else {
        count_true(s.drop_last()) + if s.last() { 1nat } else { 0nat }
    }
}

pub(crate) proof fn lemma_count_true_bounds(s: Seq<bool>)
    ensures
        count_true(s) <= s.len(),
        count_true(s) == s.len() <==> forall|i: int| 0 <= i < s.len() ==> s[i],
    decreases s.len(),
{
    if s.len() > 0 {
        lemma_count_true_bounds(s.drop_last());
        if count_true(s) == s.len() {
            assert forall|i: int| 0 <= i < s.len() implies s[i] by {
                if i < s.len() - 1 {
                    assert(s.drop_last()[i] == s[i]);
                }
            }
        }
        if forall|i: int| 0 <= i < s.len() ==> s[i] {
            assert forall|i: int| 0 <= i < s.drop_last().len() implies s.drop_last()[i] by {
                assert(s.drop_last()[i] == s[i]);
            }
        }
    }
}

pub(crate) proof fn lemma_count_true_set(s: Seq<bool>, i: int)
    requires
        0 <= i < s.len(),
        !s[i],
    ensures
        count_true(s.update(i, true)) == count_true(s) + 1,
    decreases s.len(),
{
    let t = s.update(i, true);
    if i == s.len() - 1 {
        assert(t.drop_last() =~= s.drop_last());
    } else {
        assert(t.drop_last() =~= s.drop_last().update(i, true));
        lemma_count_true_set(s.drop_last(), i);
    }
}

pub(crate) proof fn lemma_count_true_zero(s: Seq<bool>)
    requires
        forall|i: int| 0 <= i < s.len() ==> !s[i],
    ensures
        count_true(s) == 0,
    decreases s.len(),
{
    if s.len() > 0 {
        lemma_count_true_zero(s.drop_last());
    }
}

pub(crate) proof fn lemma_walk_push(walls: Set<Wall>, p: Seq<BoardCell>, n: BoardCell)
    requires
        is_walk(walls, p),
        can_step(walls, p.last(), n),
    ensures
        is_walk(walls, p.push(n)),
        p.push(n)[0] == p[0],
        p.push(n).last() == n,
{
    let q = p.push(n);
    assert forall|i: int| 0 <= i < q.len() - 1 implies #[trigger] step_ok(walls, q, i) by {
        if i < p.len() - 1 {
            assert(step_ok(walls, p, i));
        }
    }
}

pub(crate) proof fn lemma_walk_drop_last(walls: Set<Wall>, p: Seq<BoardCell>)
    requires
        is_walk(walls, p),
        p.len() > 1,
    ensures
        is_walk(walls, p.drop_last()),
        can_step(walls, p.drop_last().last(), p.last()),
{
    let q = p.drop_last();
    assert forall|i: int| 0 <= i < q.len() - 1 implies #[trigger] step_ok(walls, q, i) by {
        assert(step_ok(walls, p, i));
    }
    assert(step_ok(walls, p, p.len() - 2));
}

/// A set of cells that holds the first cell of a walk and is closed under
/// moves holds its last cell too.
pub(crate) proof fn lemma_closed_set_holds_walk(walls: Set<Wall>, visited: Seq<bool>, p: Seq<BoardCell>)
    requires
        visited.len() == 36,
        is_walk(walls, p),
        visited[cell_index(p[0])],
        forall|c: BoardCell, d: BoardCell|
            cell_in_bounds(c) && #[trigger] visited[cell_index(c)] && #[trigger] can_step(walls, c, d)
                ==> visited[cell_index(d)],
    ensures
        visited[cell_index(p.last())],
    decreases p.len(),
{
    if p.len() > 1 {
        lemma_walk_drop_last(walls, p);
        lemma_closed_set_holds_walk(walls, visited, p.drop_last());
        let c = p.drop_last().last();
        assert(visited[cell_index(c)]);
        assert(can_step(walls, c, p.last()));
    }
}

pub(crate) proof fn lemma_step_is_open_neighbor(walls: Set<Wall>, c: BoardCell, d: BoardCell)
    requires
        can_step(walls, c, d),
    ensures
        open_neighbors_spec(walls, c).contains(d),
{
    let cands = neighbor_candidates(c);
    let pred = step_from(walls, c);
    assert(pred(d));
    if d.0 < c.0 {
        assert(cands[0] == d);
        cands.lemma_filter_contains(pred, 0);
    } else if d.0 > c.0 {
        assert(cands[1] == d);
        cands.lemma_filter_contains(pred, 1);
    } else if d.1 < c.1 {
        assert(cands[2] == d);
        cands.lemma_filter_contains(pred, 2);
    } else {
        assert(cands[3] == d);
        cands.lemma_filter_contains(pred, 3);
    }
}

pub(crate) proof fn lemma_walk_with_fewer_walls(fewer: Set<Wall>, more: Set<Wall>, p: Seq<BoardCell>)
    requires
        fewer.subset_of(more),
        is_walk(more, p),
    ensures
        is_walk(fewer, p),
{
    assert forall|i: int| 0 <= i < p.len() - 1 implies #[trigger] step_ok(fewer, p, i) by {
        assert(step_ok(more, p, i));
    }
}

/// Taking walls off a fully accessible board leaves it fully accessible.
pub proof fn lemma_fewer_walls_keep_access(fewer: Set<Wall>, more: Set<Wall>)
    requires
        fewer.subset_of(more),
        fully_accessible(more),
    ensures
        fully_accessible(fewer),
{
    assert forall|cell: BoardCell| cell_in_bounds(cell) implies #[trigger] reachable(fewer, cell) by {
        assert(reachable(more, cell));
        let p = choose|p: Seq<BoardCell>| #[trigger] is_walk(more, p) && p[0] == start_cell() && p.last() == cell;
        lemma_walk_with_fewer_walls(fewer, more, p);
    }
}

/// The wall between two cells does not depend on the order of the cells.
pub proof fn lemma_wall_between_symmetric(a: BoardCell, b: BoardCell)
    ensures
        wall_between_spec(a, b) == wall_between_spec(b, a),
{
}

proof fn lemma_filter_no_duplicates<A>(s: Seq<A>, p: spec_fn(A) -> bool)
    requires
        s.no_duplicates(),
    ensures
        s.filter(p).no_duplicates(),
    decreases s.len(),
{
    if s.len() > 0 {
        let rest = s.drop_last();
        let x = s.last();
        assert(rest.no_duplicates()) by {
            assert forall|i: int, j: int| 0 <= i < rest.len() && 0 <= j < rest.len() && i != j
                implies rest[i] != rest[j] by {
                assert(s[i] != s[j]);
            }
        }
        lemma_filter_no_duplicates(rest, p);
        assert(s =~= rest.push(x));
        rest.lemma_filter_push(x, p);
        if p(x) {
            let f = rest.filter(p);
            if f.contains(x) {
                rest.lemma_filter_contains_rev(p, x);
                let i = choose|i: int| 0 <= i < rest.len() && rest[i] == x;
                assert(s[i] == s[s.len() - 1]);
            }
            assert forall|i: int, j: int| 0 <= i < f.push(x).len() && 0 <= j < f.push(x).len() && i != j
                implies f.push(x)[i] != f.push(x)[j] by {
                if i < f.len() && j < f.len() {
                    assert(f[i] != f[j]);
                } else if i < f.len() {
                    assert(f.contains(f[i]));
                } else {
                    assert(f.contains(f[j]));
                }
            }
        }
    }
}

/// The moves out of a cell: each goes to a side-by-side cell on the board
/// with no wall between; they come in the order up, down, left, right, none
/// twice, at most four.
pub proof fn lemma_open_neighbors_facts(walls: Set<Wall>, a: BoardCell)
    requires
        cell_in_bounds(a),
    ensures
        open_neighbors_spec(walls, a).len() <= 4,
        open_neighbors_spec(walls, a).no_duplicates(),
        forall|i: int| 0 <= i < open_neighbors_spec(walls, a).len() ==> {
            let n = #[trigger] open_neighbors_spec(walls, a)[i];
            &&& cell_in_bounds(n)
            &&& int_abs(a.0 - n.0) + int_abs(a.1 - n.1) == 1
            &&& !wall_blocks(walls, a, n)
        },
        forall|n: BoardCell| open_neighbors_spec(walls, a).contains(n) <==> #[trigger] can_step(walls, a, n),
{
    let cands = neighbor_candidates(a);
    let pred = step_from(walls, a);
    cands.lemma_filter_len(pred);
    assert(cands.no_duplicates());
    lemma_filter_no_duplicates(cands, pred);
    assert forall|i: int| 0 <= i < open_neighbors_spec(walls, a).len() implies {
        let n = #[trigger] open_neighbors_spec(walls, a)[i];
        &&& cell_in_bounds(n)
        &&& int_abs(a.0 - n.0) + int_abs(a.1 - n.1) == 1
        &&& !wall_blocks(walls, a, n)
    } by {
        cands.lemma_filter_pred(pred, i);
    }
    assert forall|n: BoardCell| open_neighbors_spec(walls, a).contains(n) <==> #[trigger] can_step(walls, a, n) by {
        if open_neighbors_spec(walls, a).contains(n) {
            let i = choose|i: int| 0 <= i < open_neighbors_spec(walls, a).len() && open_neighbors_spec(walls, a)[i] == n;
            cands.lemma_filter_pred(pred, i);
        }
        if can_step(walls, a, n) {
            lemma_step_is_open_neighbor(walls, a, n);
        }
    }
}

/// Moves go both ways: `b` is among the moves out of `a` exactly when `a` is
/// among the moves out of `b`.
pub proof fn lemma_open_neighbors_symmetric(walls: Set<Wall>, a: BoardCell, b: BoardCell)
    requires
        cell_in_bounds(a),
        cell_in_bounds(b),
    ensures
        open_neighbors_spec(walls, a).contains(b) <==> open_neighbors_spec(walls, b).contains(a),
{
    lemma_open_neighbors_facts(walls, a);
    lemma_open_neighbors_facts(walls, b);
    lemma_wall_between_symmetric(a, b);
    assert(can_step(walls, a, b) <==> can_step(walls, b, a));
}

// ---------------------------------------------------------------------------
// The hidden board rotation keeps the board accessible
// ---------------------------------------------------------------------------

/// Where `cell` goes when the board is turned `rotation` quarter turns, the
/// same turn that `rotated_wall_spec` gives the walls.
pub open spec fn rotate_cell(cell: BoardCell, rotation: int) -> BoardCell {
    if rotation == 1 {
        (cell.1, (5 - cell.0) as i32)
    } else if rotation == 2 {
        ((5 - cell.0) as i32, (5 - cell.1) as i32)
    } else if rotation == 3 {
        ((5 - cell.1) as i32, cell.0)
    } else {
        cell
    }
}

/// Turns of the board add up: turning a cell by `first` and then by `second`
/// quarter turns puts it where `(first + second) % 4` quarter turns put it.
pub proof fn lemma_cell_turns_compose(cell: BoardCell, first: int, second: int)
    requires
        cell_in_bounds(cell),
        0 <= first < 4,
        0 <= second < 4,
    ensures
        cell_in_bounds(rotate_cell(cell, first)),
        rotate_cell(rotate_cell(cell, first), second) == rotate_cell(cell, (first + second) % 4),
{
}

pub(crate) proof fn lemma_div_mod6(i: int, j: int)
    requires
        0 <= i,
        0 <= j < 6,
    ensures
        (i * 6 + j) / 6 == i,
        (i * 6 + j) % 6 == j,
{
    assert((i * 6 + j) / 6 == i && (i * 6 + j) % 6 == j) by (nonlinear_arith)
        requires 0 <= i, 0 <= j < 6;
}

/// The wall between two side-by-side cells stands in a slot: slot
/// `6 * upper_row + col` for a horizontal one, `6 * (4 - left_col) + row`
/// for a vertical one.
pub(crate) proof fn lemma_wall_between_slot(a: BoardCell, b: BoardCell)
    requires
        cell_in_bounds(a),
        cell_in_bounds(b),
        wall_between_spec(a, b) is Some,
    ensures
        ({
            let w = wall_between_spec(a, b)->0;
            let k = if w.orientation == WallOrientation::Horizontal {
                int_min(a.0 as int, b.0 as int) * 6 + a.1
            } else {
                (4 - int_min(a.1 as int, b.1 as int)) * 6 + a.0
            };
            &&& 0 <= k < 30
            &&& slot_index(w.orientation, (w.x, w.y)) == Some(k)
            &&& w == wall_at_spec(w.orientation, k)
            &&& canonical_wall(w)
        }),
{
    let w = wall_between_spec(a, b)->0;
    if a.0 != b.0 {
        let k = int_min(a.0 as int, b.0 as int) * 6 + a.1;
        lemma_div_mod6(int_min(a.0 as int, b.0 as int), a.1 as int);
        lemma_slot_index_of(WallOrientation::Horizontal, k);
    } else {
        let k = (4 - int_min(a.1 as int, b.1 as int)) * 6 + a.0;
        lemma_div_mod6(4 - int_min(a.1 as int, b.1 as int), a.0 as int);
        lemma_slot_index_of(WallOrientation::Vertical, k);
    }
}

/// Turning two side-by-side cells turns the wall between them.
pub proof fn lemma_rotate_wall_between(a: BoardCell, b: BoardCell, rotation: int)
    requires
        cell_in_bounds(a),
        cell_in_bounds(b),
        wall_between_spec(a, b) is Some,
        0 <= rotation < 4,
    ensures
        cell_in_bounds(rotate_cell(a, rotation)),
        cell_in_bounds(rotate_cell(b, rotation)),
        wall_between_spec(rotate_cell(a, rotation), rotate_cell(b, rotation)) is Some,
        rotated_wall_spec(wall_between_spec(a, b)->0, rotation)
            == wall_between_spec(rotate_cell(a, rotation), rotate_cell(b, rotation)),
{
    let ra = rotate_cell(a, rotation);
    let rb = rotate_cell(b, rotation);
    lemma_wall_between_slot(a, b);
    if rotation != 0 {
        lemma_wall_between_slot(ra, rb);
        if a.0 != b.0 {
            let u = int_min(a.0 as int, b.0 as int);
            lemma_div_mod6(u, a.1 as int);
            lemma_div_mod6(4 - u, 5 - a.1);
            lemma_div_mod6(4 - u, a.1 as int);
            lemma_div_mod6(u, 5 - a.1);
        } else {
            let l = int_min(a.1 as int, b.1 as int);
            lemma_div_mod6(4 - l, a.0 as int);
            lemma_div_mod6(l, 5 - a.0);
            lemma_div_mod6(l, a.0 as int);
            lemma_div_mod6(4 - l, 5 - a.0);
        }
    }
}

/// Two walls in slots that turn into the same wall are the same wall.
pub(crate) proof fn lemma_rotation_injective(w1: Wall, w2: Wall, rotation: int)
    requires
        canonical_wall(w1),
        canonical_wall(w2),
        0 <= rotation < 4,
        rotated_wall_spec(w1, rotation) is Some,
        rotated_wall_spec(w1, rotation) == rotated_wall_spec(w2, rotation),
    ensures
        w1 == w2,
{
    let k1 = slot_index(w1.orientation, (w1.x, w1.y))->0;
    let k2 = slot_index(w2.orientation, (w2.x, w2.y))->0;
    assert(0 <= k1 < 30 && slot_table(w1.orientation)[k1] == (w1.x, w1.y));
    assert(0 <= k2 < 30 && slot_table(w2.orientation)[k2] == (w2.x, w2.y));
    if rotation != 0 {
        let img = rotated_wall_spec(w1, rotation)->0;
        assert(w1.orientation == w2.orientation);
        let o = img.orientation;
        let i1 = if rotation == 2 || (rotation == 1 && w1.orientation == WallOrientation::Vertical)
            || (rotation == 3 && w1.orientation == WallOrientation::Horizontal) { 29 - k1 } else { k1 };
        let i2 = if rotation == 2 || (rotation == 1 && w2.orientation == WallOrientation::Vertical)
            || (rotation == 3 && w2.orientation == WallOrientation::Horizontal) { 29 - k2 } else { k2 };
        assert(img == wall_at_spec(o, i1));
        assert(img == wall_at_spec(o, i2));
        lemma_slot_tables_distinct(o, i1, i2);
    }
}

/// A move on the board turns into a move on the turned board.
pub(crate) proof fn lemma_rotate_step(walls: Set<Wall>, a: BoardCell, b: BoardCell, rotation: int)
    requires
        forall|w: Wall| walls.contains(w) ==> canonical_wall(w),
        0 <= rotation < 4,
        can_step(walls, a, b),
    ensures
        can_step(rotated_walls(walls, rotation), rotate_cell(a, rotation), rotate_cell(b, rotation)),
{
    let ra = rotate_cell(a, rotation);
    let rb = rotate_cell(b, rotation);
    let turned = rotated_walls(walls, rotation);
    lemma_rotate_wall_between(a, b, rotation);
    lemma_wall_between_slot(a, b);
    let wb = wall_between_spec(a, b)->0;
    let img = wall_between_spec(ra, rb)->0;
    if turned.contains(img) {
        let w = choose|w: Wall| walls.contains(w) && #[trigger] rotated_wall_spec(w, rotation) == Some(img);
        lemma_rotation_injective(w, wb, rotation);
    }
}

pub(crate) proof fn lemma_can_step_symmetric(walls: Set<Wall>, a: BoardCell, b: BoardCell)
    requires
        can_step(walls, a, b),
    ensures
        can_step(walls, b, a),
{
    assert(wall_between_spec(a, b) == wall_between_spec(b, a));
}

pub(crate) proof fn lemma_walk_reverse(walls: Set<Wall>, p: Seq<BoardCell>)
    requires
        is_walk(walls, p),
    ensures
        is_walk(walls, p.reverse()),
        p.reverse()[0] == p.last(),
        p.reverse().last() == p[0],
{
    let q = p.reverse();
    let n = p.len();
    assert forall|i: int| 0 <= i < q.len() - 1 implies #[trigger] step_ok(walls, q, i) by {
        assert(step_ok(walls, p, n - 2 - i));
        lemma_can_step_symmetric(walls, p[n - 2 - i], p[n - 1 - i]);
    }
    assert(cell_in_bounds(q[0])) by {
        if n > 1 {
            assert(step_ok(walls, p, n - 2));
        }
    }
}

pub(crate) proof fn lemma_walk_concat(walls: Set<Wall>, p: Seq<BoardCell>, q: Seq<BoardCell>)
    requires
        is_walk(walls, p),
        is_walk(walls, q),
        p.last() == q[0],
    ensures
        is_walk(walls, p + q.drop_first()),
        (p + q.drop_first())[0] == p[0],
        (p + q.drop_first()).last() == q.last(),
{
    let r = p + q.drop_first();
    let n = p.len();
    assert forall|i: int| 0 <= i < r.len() - 1 implies #[trigger] step_ok(walls, r, i) by {
        if i < n - 1 {
            assert(step_ok(walls, p, i));
        } else {
            assert(step_ok(walls, q, i - n + 1));
        }
    }
}

pub(crate) proof fn lemma_rotate_walk(walls: Set<Wall>, p: Seq<BoardCell>, rotation: int)
    requires
        forall|w: Wall| walls.contains(w) ==> canonical_wall(w),
        0 <= rotation < 4,
        is_walk(walls, p),
    ensures
        is_walk(rotated_walls(walls, rotation), p.map_values(|c: BoardCell| rotate_cell(c, rotation))),
{
    let q = p.map_values(|c: BoardCell| rotate_cell(c, rotation));
    let turned = rotated_walls(walls, rotation);
    assert forall|i: int| 0 <= i < q.len() - 1 implies #[trigger] step_ok(turned, q, i) by {
        assert(step_ok(walls, p, i));
        lemma_rotate_step(walls, p[i], p[i + 1], rotation);
    }
}

/// Turning the board keeps it fully accessible: if every cell can be reached
/// from the top-left cell before the walls are turned by `rotation` quarter
/// turns, every cell can be reached after. The walls are walls as
/// `Wall::new` builds them.
pub proof fn lemma_rotation_keeps_board_accessible(walls: Set<Wall>, rotation: int)
    requires
        forall|w: Wall| walls.contains(w) ==> canonical_wall(w),
        0 <= rotation < 4,
        fully_accessible(walls),
    ensures
        fully_accessible(rotated_walls(walls, rotation)),
{
    let turned = rotated_walls(walls, rotation);
    let back = if rotation == 0 { 0 } else { 4 - rotation };
    assert forall|target: BoardCell| cell_in_bounds(target) implies #[trigger] reachable(turned, target) by {
        let c = rotate_cell(target, back);
        let s = rotate_cell(start_cell(), back);
        assert(cell_in_bounds(c) && cell_in_bounds(s));
        assert(reachable(walls, s));
        assert(reachable(walls, c));
        let p1 = choose|p: Seq<BoardCell>| #[trigger] is_walk(walls, p) && p[0] == start_cell() && p.last() == s;
        let p2 = choose|p: Seq<BoardCell>| #[trigger] is_walk(walls, p) && p[0] == start_cell() && p.last() == c;
        lemma_walk_reverse(walls, p1);
        lemma_walk_concat(walls, p1.reverse(), p2);
        let q = p1.reverse() + p2.drop_first();
        lemma_rotate_walk(walls, q, rotation);
        let rq = q.map_values(|x: BoardCell| rotate_cell(x, rotation));
        assert(rq[0] == rotate_cell(s, rotation));
        assert(rq.last() == rotate_cell(c, rotation));
        assert(is_walk(turned, rq) && rq[0] == start_cell() && rq.last() == target);
    }
}

/// With no walls on the board every cell can be reached: along the top row
/// to the cell's column, then down the column.
pub proof fn lemma_empty_board_accessible()
    ensures
        fully_accessible(Set::<Wall>::empty()),
{
    let walls = Set::<Wall>::empty();
    assert forall|cell: BoardCell| cell_in_bounds(cell) implies #[trigger] reachable(walls, cell) by {
        let r = cell.0 as int;
        let c = cell.1 as int;
        let p = Seq::new((r + c + 1) as nat, |i: int| if i <= c { (0i32, i as i32) } else { ((i - c) as i32, c as i32) });
        assert forall|i: int| 0 <= i < p.len() - 1 implies #[trigger] step_ok(walls, p, i) by {
            if i < c {
                assert(p[i] == (0i32, i as i32) && p[i + 1] == (0i32, (i + 1) as i32));
            } else {
                assert(p[i + 1] == ((i + 1 - c) as i32, c as i32));
            }
        }
        assert(is_walk(walls, p));
        assert(p.last() == cell);
    }
}

} // verus!
