//! The board's wall slots and where the hidden board rotation sends each
//! wall.

use vstd::prelude::*;
use crate::wall::{wall_spec, Wall, WallOrientation};

verus! {

/// Position of horizontal wall slot `k`: slot `6 * i + j` lies below cell
/// (i, j), between rows `i` and `i + 1`.
pub open spec fn horizontal_slot(k: int) -> (i32, i32) {
    (((k % 6) * 170) as i32, (150 + (k / 6) * 170) as i32)
}

/// Position of vertical wall slot `k`: slot `6 * i + j` lies in row `j`,
/// between columns `4 - i` and `5 - i`.
pub open spec fn vertical_slot(k: int) -> (i32, i32) {
    ((830 - (k / 6) * 170) as i32, ((k % 6) * 170) as i32)
}

/// The 30 wall slot positions of one orientation, by slot index.
pub open spec fn slot_table(orientation: WallOrientation) -> Seq<(i32, i32)> {
    match orientation {
        WallOrientation::Horizontal => Seq::new(30, |k: int| horizontal_slot(k)),
        WallOrientation::Vertical => Seq::new(30, |k: int| vertical_slot(k)),
    }
}

/// The wall that stands in slot `index` of the given orientation.
pub open spec fn wall_at_spec(orientation: WallOrientation, index: int) -> Wall {
    wall_spec(slot_table(orientation)[index].0, slot_table(orientation)[index].1, orientation)
}

/// The slot index whose position is `pos`, if any.
pub open spec fn slot_index(orientation: WallOrientation, pos: (i32, i32)) -> Option<int> {
    if exists|k: int| 0 <= k < 30 && #[trigger] slot_table(orientation)[k] == pos {
        Some(choose|k: int| 0 <= k < 30 && #[trigger] slot_table(orientation)[k] == pos)
    } else {
        None
    }
}

/// Where `wall` goes when the board is turned `rotation` quarter turns; `None`
/// for a wall that stands in no slot, and for a rotation outside 0..4.
pub open spec fn rotated_wall_spec(wall: Wall, rotation: int) -> Option<Wall> {
    match slot_index(wall.orientation, (wall.x, wall.y)) {
        None => None,
        Some(index) => {
            let reverse_index = 29 - index;
            if rotation == 0 {
                Some(wall)
            } else if rotation == 1 {
                match wall.orientation {
                    WallOrientation::Horizontal => Some(wall_at_spec(WallOrientation::Vertical, index)),
                    WallOrientation::Vertical => Some(wall_at_spec(WallOrientation::Horizontal, reverse_index)),
                }
            } else if rotation == 2 {
                Some(wall_at_spec(wall.orientation, reverse_index))
            } else if rotation == 3 {
                match wall.orientation {
                    WallOrientation::Horizontal => Some(wall_at_spec(WallOrientation::Vertical, reverse_index)),
                    WallOrientation::Vertical => Some(wall_at_spec(WallOrientation::Horizontal, index)),
                }
            } else {
                None
            }
        },
    }
}

/// The walls of `walls` after turning the board: the image of each wall that
/// has one.
pub open spec fn rotated_walls(walls: Set<Wall>, rotation: int) -> Set<Wall> {
    Set::new(|w2: Wall| exists|w: Wall| walls.contains(w) && #[trigger] rotated_wall_spec(w, rotation) == Some(w2))
}

pub(crate) proof fn lemma_slot_tables_distinct(orientation: WallOrientation, k1: int, k2: int)
    requires
        0 <= k1 < 30,
        0 <= k2 < 30,
        slot_table(orientation)[k1] == slot_table(orientation)[k2],
    ensures
        k1 == k2,
{
    assert(k1 == (k1 / 6) * 6 + k1 % 6);
    assert(k2 == (k2 / 6) * 6 + k2 % 6);
}

pub(crate) proof fn lemma_slot_index_of(orientation: WallOrientation, k: int)
    requires
        0 <= k < 30,
    ensures
        slot_index(orientation, slot_table(orientation)[k]) == Some(k),
{
    let pos = slot_table(orientation)[k];
    assert(slot_table(orientation)[k] == pos);
    let c = choose|c: int| 0 <= c < 30 && #[trigger] slot_table(orientation)[c] == pos;
    lemma_slot_tables_distinct(orientation, c, k);
}

pub(crate) proof fn lemma_rotated_walls_insert(s: Set<Wall>, w: Wall, rotation: int)
    ensures
        rotated_walls(s.insert(w), rotation) == match rotated_wall_spec(w, rotation) {
            Some(image) => rotated_walls(s, rotation).insert(image),
            None => rotated_walls(s, rotation),
        },
{
    let lhs = rotated_walls(s.insert(w), rotation);
    let rhs = match rotated_wall_spec(w, rotation) {
        Some(image) => rotated_walls(s, rotation).insert(image),
        None => rotated_walls(s, rotation),
    };
    assert forall|w2: Wall| lhs.contains(w2) implies rhs.contains(w2) by {
        let w1 = choose|w1: Wall| s.insert(w).contains(w1) && #[trigger] rotated_wall_spec(w1, rotation) == Some(w2);
        if w1 != w {
            assert(s.contains(w1));
        }
    }
    assert forall|w2: Wall| rhs.contains(w2) implies lhs.contains(w2) by {
        if rotated_wall_spec(w, rotation) == Some(w2) {
            assert(s.insert(w).contains(w));
        } else {
            let w1 = choose|w1: Wall| s.contains(w1) && #[trigger] rotated_wall_spec(w1, rotation) == Some(w2);
            assert(s.insert(w).contains(w1));
        }
    }
    assert(lhs =~= rhs);
}

/// `wall` is a wall as `Wall::new` builds it.
pub open spec fn canonical_wall(wall: Wall) -> bool {
    wall == wall_spec(wall.x, wall.y, wall.orientation)
}

/// `wall` is the wall of one of the board's slots.
pub open spec fn slot_wall(wall: Wall) -> bool {
    canonical_wall(wall) && slot_index(wall.orientation, (wall.x, wall.y)) is Some
}

/// The turn that undoes a turn of `rotation` quarter turns.
pub open spec fn reverse_rotation(rotation: int) -> int {
    if rotation == 0 { 0 } else { 4 - rotation }
}

proof fn lemma_turn_back_wall(w: Wall, rotation: int)
    requires
        slot_wall(w),
        0 <= rotation < 4,
    ensures
        rotated_wall_spec(w, rotation) matches Some(w2) && slot_wall(w2)
            && rotated_wall_spec(w2, reverse_rotation(rotation)) == Some(w),
{
    let k = slot_index(w.orientation, (w.x, w.y))->0;
    assert(0 <= k < 30 && slot_table(w.orientation)[k] == (w.x, w.y));
    assert(w == wall_at_spec(w.orientation, k));
    lemma_slot_index_of(WallOrientation::Horizontal, k);
    lemma_slot_index_of(WallOrientation::Vertical, k);
    lemma_slot_index_of(WallOrientation::Horizontal, 29 - k);
    lemma_slot_index_of(WallOrientation::Vertical, 29 - k);
}

/// Turns add up: for a wall that stands in a slot, turning by `first` and
/// then by `second` quarter turns puts it where one turn of
/// `(first + second) % 4` quarter turns puts it, and every turn keeps it in
/// a slot.
pub proof fn lemma_turns_compose(w: Wall, first: int, second: int)
    requires
        slot_wall(w),
        0 <= first < 4,
        0 <= second < 4,
    ensures
        rotated_wall_spec(w, first) matches Some(w2) && slot_wall(w2)
            && rotated_wall_spec(w2, second) == rotated_wall_spec(w, (first + second) % 4),
{
    let k = slot_index(w.orientation, (w.x, w.y))->0;
    assert(0 <= k < 30 && slot_table(w.orientation)[k] == (w.x, w.y));
    assert(w == wall_at_spec(w.orientation, k));
    lemma_slot_index_of(WallOrientation::Horizontal, k);
    lemma_slot_index_of(WallOrientation::Vertical, k);
    lemma_slot_index_of(WallOrientation::Horizontal, 29 - k);
    lemma_slot_index_of(WallOrientation::Vertical, 29 - k);
}

/// Turning the board back undoes a turn: for walls that stand in slots,
/// turning by `rotation` and then by the reverse turn gives the same walls.
pub proof fn lemma_turning_back_restores_walls(walls: Set<Wall>, rotation: int)
    requires
        forall|w: Wall| walls.contains(w) ==> slot_wall(w),
        0 <= rotation < 4,
    ensures
        rotated_walls(rotated_walls(walls, rotation), reverse_rotation(rotation)) == walls,
{
    let turned = rotated_walls(walls, rotation);
    let back = rotated_walls(turned, reverse_rotation(rotation));
    assert forall|w: Wall| walls.contains(w) implies back.contains(w) by {
        lemma_turn_back_wall(w, rotation);
        let w2 = rotated_wall_spec(w, rotation)->0;
        assert(turned.contains(w2));
    }
    assert forall|x: Wall| back.contains(x) implies walls.contains(x) by {
        let w2 = choose|w2: Wall| turned.contains(w2) && #[trigger] rotated_wall_spec(w2, reverse_rotation(rotation)) == Some(x);
        let w = choose|w: Wall| walls.contains(w) && #[trigger] rotated_wall_spec(w, rotation) == Some(w2);
        lemma_turn_back_wall(w, rotation);
    }
    assert(back =~= walls);
}

} // verus!
