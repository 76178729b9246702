use hidden_keep::config::{MAX_WALLS, SQUARE_SIZE_I32};
use hidden_keep::wall::{Wall, WallOrientation};
use hidden_keep::wall_placement::{PointerPosition, WallPlacementState};

fn pointer_at(x: i32, y: i32) -> PointerPosition {
    // a pointer at (x + 0.5, y + 0.5)
    PointerPosition { floor_x: x, ceil_x: x + 1, floor_y: y, ceil_y: y + 1 }
}

#[test]
fn empty_board_is_fully_accessible() {
    let state = WallPlacementState::new(MAX_WALLS);

    assert!(state.board_is_fully_accessible());
}

#[test]
fn rejects_wall_that_would_trap_corner_cell() {
    let mut state = WallPlacementState::new(MAX_WALLS);
    let right_of_corner = Wall::new(SQUARE_SIZE_I32, 0, WallOrientation::Vertical);
    let below_corner = Wall::new(0, SQUARE_SIZE_I32, WallOrientation::Horizontal);

    state.try_insert_wall(right_of_corner);
    state.try_insert_wall(below_corner);

    assert!(state.walls_on_board.contains(&right_of_corner));
    assert!(!state.walls_on_board.contains(&below_corner));
    assert_eq!(state.walls_left, MAX_WALLS - 1);
}

#[test]
fn wall_new_sizes_follow_orientation() {
    let h = Wall::new(0, 150, WallOrientation::Horizontal);
    assert_eq!((h.w, h.h), (150, 20));
    let v = Wall::new(830, 0, WallOrientation::Vertical);
    assert_eq!((v.w, v.h), (20, 150));
}

#[test]
fn new_state_holds_the_wall_slots() {
    let state = WallPlacementState::new(7);
    assert_eq!(state.walls_left, 7);
    assert!(state.walls_on_board.is_empty());
    assert_eq!(state.current_wall, None);
    assert_eq!(state.horizontal_wall_values[0], (0, 150));
    assert_eq!(state.horizontal_wall_values[7], (170, 320));
    assert_eq!(state.horizontal_wall_values[29], (850, 830));
    assert_eq!(state.vertical_wall_values[0], (830, 0));
    assert_eq!(state.vertical_wall_values[7], (660, 170));
    assert_eq!(state.vertical_wall_values[29], (150, 850));
}

#[test]
fn walls_that_cut_off_a_corner_make_the_board_inaccessible() {
    let mut state = WallPlacementState::new(MAX_WALLS);
    state.walls_on_board.push(Wall::new(SQUARE_SIZE_I32, 0, WallOrientation::Vertical));
    assert!(state.board_is_fully_accessible());
    state.walls_on_board.push(Wall::new(0, SQUARE_SIZE_I32, WallOrientation::Horizontal));
    assert!(!state.board_is_fully_accessible());
}

#[test]
fn a_wall_cannot_be_placed_twice() {
    let mut state = WallPlacementState::new(MAX_WALLS);
    let wall = Wall::new(0, 150, WallOrientation::Horizontal);
    state.try_insert_wall(wall);
    state.try_insert_wall(wall);
    assert_eq!(state.walls_on_board.len(), 1);
    assert_eq!(state.walls_left, MAX_WALLS - 1);
}

#[test]
fn no_more_than_max_walls_are_placed() {
    let mut state = WallPlacementState::new(100);
    // all 30 horizontal slots: a full row of walls would cut the board, so
    // some are refused; after MAX_WALLS accepted walls no more are taken
    let mut placed = 0;
    for k in 0..30 {
        let (x, y) = state.horizontal_wall_values[k];
        state.try_insert_wall(Wall::new(x, y, WallOrientation::Horizontal));
        placed = state.walls_on_board.len();
    }
    for k in 0..30 {
        let (x, y) = state.vertical_wall_values[k];
        state.try_insert_wall(Wall::new(x, y, WallOrientation::Vertical));
        placed = state.walls_on_board.len();
    }
    assert!(placed <= MAX_WALLS);
    assert_eq!(state.walls_left + state.walls_on_board.len(), 100);
    assert!(state.board_is_fully_accessible());
}

#[test]
fn left_click_places_the_hovered_wall_and_right_click_takes_it_off() {
    let mut state = WallPlacementState::new(MAX_WALLS);
    // inside the horizontal slot below cell (0, 0): x in (0, 150), y in (150, 170)
    state.update_placement(pointer_at(40, 160), true, false);
    let wall = Wall::new(0, 150, WallOrientation::Horizontal);
    assert_eq!(state.current_wall, Some(wall));
    assert_eq!(state.walls_on_board, vec![wall]);
    assert_eq!(state.walls_left, MAX_WALLS - 1);

    state.update_placement(pointer_at(40, 160), false, true);
    assert!(state.walls_on_board.is_empty());
    assert_eq!(state.walls_left, MAX_WALLS);
}

#[test]
fn hover_finds_vertical_slots_and_nothing_inside_cells() {
    let mut state = WallPlacementState::new(MAX_WALLS);
    // inside the vertical slot right of cell (0, 0): x in (150, 170), y in (0, 150)
    state.update_placement(pointer_at(155, 60), false, false);
    assert_eq!(state.current_wall, Some(Wall::new(150, 0, WallOrientation::Vertical)));
    // inside cell (0, 0)
    state.update_placement(pointer_at(60, 60), true, false);
    assert_eq!(state.current_wall, None);
    assert!(state.walls_on_board.is_empty());
    // on the slot's edge the pointer is not inside it
    let edge = PointerPosition { floor_x: 150, ceil_x: 150, floor_y: 60, ceil_y: 61 };
    state.update_placement(edge, false, false);
    assert_eq!(state.current_wall, None);
}

#[test]
fn rotation_moves_walls_to_the_turned_slots() {
    let wall = Wall::new(0, 150, WallOrientation::Horizontal);
    let expected = [
        Wall::new(0, 150, WallOrientation::Horizontal),
        Wall::new(830, 0, WallOrientation::Vertical),
        Wall::new(850, 830, WallOrientation::Horizontal),
        Wall::new(150, 850, WallOrientation::Vertical),
    ];
    for rotation in 0..4 {
        let mut state = WallPlacementState::new(MAX_WALLS);
        state.try_insert_wall(wall);
        state.rotate_walls(rotation);
        assert_eq!(state.walls_on_board, vec![expected[rotation]]);
    }
    let mut state = WallPlacementState::new(MAX_WALLS);
    state.try_insert_wall(wall);
    state.rotate_walls(4);
    assert!(state.walls_on_board.is_empty());
}

#[test]
fn rotation_drops_walls_outside_the_slots() {
    let mut state = WallPlacementState::new(MAX_WALLS);
    state.walls_on_board.push(Wall::new(1, 2, WallOrientation::Horizontal));
    state.rotate_walls(0);
    assert!(state.walls_on_board.is_empty());
}

#[test]
fn random_rotation_keeps_the_board_accessible() {
    let mut rng = rand::thread_rng();
    let mut state = WallPlacementState::new(MAX_WALLS);
    state.try_insert_wall(Wall::new(SQUARE_SIZE_I32, 0, WallOrientation::Vertical));
    state.try_insert_wall(Wall::new(170, 150, WallOrientation::Horizontal));
    for _ in 0..8 {
        state.randomize_board(&mut rng);
        assert_eq!(state.walls_on_board.len(), 2);
        assert!(state.board_is_fully_accessible());
    }
}

#[test]
fn reset_clears_the_board() {
    let mut state = WallPlacementState::new(MAX_WALLS);
    state.try_insert_wall(Wall::new(0, 150, WallOrientation::Horizontal));
    state.update_placement(pointer_at(40, 160), false, false);
    state.reset(3);
    assert!(state.walls_on_board.is_empty());
    assert_eq!(state.walls_left, 3);
    assert_eq!(state.current_wall, None);
    assert!(state.contains_wall(&Wall::new(0, 150, WallOrientation::Horizontal)) == false);
}

#[test]
fn turning_back_restores_the_walls() {
    let walls = [
        Wall::new(0, 150, WallOrientation::Horizontal),
        Wall::new(170, 320, WallOrientation::Horizontal),
        Wall::new(490, 510, WallOrientation::Vertical),
    ];
    for rotation in 0..4 {
        let mut state = WallPlacementState::new(MAX_WALLS);
        for wall in walls {
            state.try_insert_wall(wall);
        }
        assert_eq!(state.walls_on_board.len(), 3);
        let mut before = state.walls_on_board.clone();
        state.rotate_walls(rotation);
        state.rotate_walls(if rotation == 0 { 0 } else { 4 - rotation });
        let mut after = state.walls_on_board.clone();
        before.sort_by_key(|w| (w.x, w.y));
        after.sort_by_key(|w| (w.x, w.y));
        assert_eq!(before, after);
    }
}

#[test]
fn accepts_wall_and_placement_range_match_the_rules() {
    let mut state = WallPlacementState::new(MAX_WALLS);
    let right_of_corner = Wall::new(SQUARE_SIZE_I32, 0, WallOrientation::Vertical);
    let below_corner = Wall::new(0, SQUARE_SIZE_I32, WallOrientation::Horizontal);
    assert!(state.accepts_wall(right_of_corner));
    state.try_insert_wall(right_of_corner);
    assert!(!state.accepts_wall(right_of_corner));
    assert!(!state.accepts_wall(below_corner));
    // with no walls left, a left click that would place a wall is out of range
    state.walls_left = 0;
    assert!(!state.placement_in_range(pointer_at(40, 330), true, false));
    assert!(state.placement_in_range(pointer_at(40, 160), true, false));
    assert!(state.placement_in_range(pointer_at(60, 60), true, false));
}

#[test]
fn quarter_turns_add_up() {
    let walls = [
        Wall::new(0, 150, WallOrientation::Horizontal),
        Wall::new(490, 510, WallOrientation::Vertical),
    ];
    for first in 0..4 {
        for second in 0..4 {
            let mut twice = WallPlacementState::new(MAX_WALLS);
            let mut once = WallPlacementState::new(MAX_WALLS);
            for wall in walls {
                twice.try_insert_wall(wall);
                once.try_insert_wall(wall);
            }
            twice.rotate_walls(first);
            twice.rotate_walls(second);
            once.rotate_walls((first + second) % 4);
            let mut a = twice.walls_on_board.clone();
            let mut b = once.walls_on_board.clone();
            a.sort_by_key(|w| (w.x, w.y));
            b.sort_by_key(|w| (w.x, w.y));
            assert_eq!(a, b);
        }
    }
}

#[test]
fn counted_walls_keep_every_click_in_range() {
    let mut state = WallPlacementState::new(MAX_WALLS);
    let clicks = [
        (pointer_at(40, 160), true, false),
        (pointer_at(40, 330), true, false),
        (pointer_at(40, 160), false, true),
        (pointer_at(40, 160), false, true),
        (pointer_at(160, 40), true, false),
    ];
    for (pointer, left, right) in clicks {
        assert_eq!(state.walls_left + state.walls_on_board.len(), MAX_WALLS);
        assert!(state.placement_in_range(pointer, left, right));
        state.update_placement(pointer, left, right);
    }
    assert_eq!(state.walls_left + state.walls_on_board.len(), MAX_WALLS);
}
