use hidden_keep::colors::ColorField;
use hidden_keep::config::{INITIAL_POS, MAX_WALLS, SKIP_POS};
use hidden_keep::game_data::{GameData, PostGameChoice};
use hidden_keep::game_state::{GameState, KeyInput};
use hidden_keep::player::{animate, player_collision, Direction, PlayerStatus};
use hidden_keep::token::next_token;

fn keys(left: bool, right: bool, up: bool, down: bool) -> KeyInput {
    KeyInput { any_key: true, left, right, up, down }
}

fn two_players(data: &mut GameData) {
    data.players_on_board = vec![PlayerStatus::new(0, 2), PlayerStatus::new(1, 3)];
}

#[test]
fn new_game_data_starts_in_the_menu_defaults() {
    let data = GameData::new(INITIAL_POS, MAX_WALLS);
    assert_eq!(data.num_players, 2);
    assert_eq!(data.tokens_to_win, 5);
    assert_eq!(data.target_pos, (0, 0));
    assert_eq!(data.post_game_choice, PostGameChoice::Undecided);
    assert_eq!(data.direction, Direction::Idle);
    assert_eq!(data.wall_placement.walls_left, MAX_WALLS);
}

#[test]
fn tokens_are_dealt_to_the_cells_not_skipped() {
    let mut rng = rand::thread_rng();
    let mut data = GameData::new(INITIAL_POS, MAX_WALLS);
    data.init_tokens(24, &SKIP_POS, &mut rng);
    assert_eq!(data.token_positions.len(), 24);
    assert_eq!(data.token_positions[0], ((0, 2), 0));
    assert_eq!(data.token_positions[1], ((0, 3), 1));
    assert_eq!(data.token_positions[2], ((1, 1), 2));
    assert_eq!(data.token_positions[23], ((5, 3), 23));
    for (cell, _) in &data.token_positions {
        assert!(!SKIP_POS.contains(&(cell.0 * 6 + cell.1)));
    }
    let mut shuffled = data.token_list.clone();
    shuffled.sort();
    assert_eq!(shuffled, data.token_positions);
    assert_eq!(data.static_token_list, data.token_list);
}

#[test]
fn next_token_skips_covered_cells_and_sends_them_to_the_back() {
    let mut list = vec![10, 20, 30, 40];
    let taken = next_token(&mut list, &vec![true, true, false, true]);
    assert_eq!(taken, Some(30));
    assert_eq!(list, vec![40, 10, 20]);

    let mut list = vec![10, 20];
    assert_eq!(next_token(&mut list, &vec![false, true]), Some(10));
    assert_eq!(list, vec![20]);
}

#[test]
fn player_collision_ignores_the_current_player() {
    let positions = vec![Some((0, 0)), Some((1, 0)), None];
    assert!(player_collision(&positions, (1, 0), 0));
    assert!(!player_collision(&positions, (1, 0), 1));
    assert!(!player_collision(&positions, (2, 2), 0));
}

#[test]
fn animation_follows_direction_and_player() {
    assert_eq!(animate(0, Direction::Idle), 0);
    assert_eq!(animate(1, Direction::Left), 1);
    assert_eq!(animate(2, Direction::Right), 2);
    assert_eq!(animate(0, Direction::Up), 2);
    assert_eq!(animate(3, Direction::Down), 2);
    assert_eq!(animate(1, Direction::Up), 1);
    assert_eq!(animate(2, Direction::Down), 1);
}

#[test]
fn arrow_keys_move_the_target_and_use_a_move() {
    let mut data = GameData::new(INITIAL_POS, MAX_WALLS);
    two_players(&mut data);
    let positions = vec![Some((0, 0)), Some((5, 5))];
    // left is off the board, so right is taken
    data.handle_player_input(keys(true, true, false, false), &positions);
    assert_eq!(data.target_pos, (0, 1));
    assert_eq!(data.direction, Direction::Right);
    assert_eq!(data.players_on_board[0].num_moves, 1);
    // the piece is not on its target yet: nothing happens
    data.handle_player_input(keys(false, false, false, true), &positions);
    assert_eq!(data.target_pos, (0, 1));
    assert_eq!(data.players_on_board[0].num_moves, 1);
}

#[test]
fn a_piece_does_not_move_onto_another_piece() {
    let mut data = GameData::new(INITIAL_POS, MAX_WALLS);
    two_players(&mut data);
    let positions = vec![Some((0, 0)), Some((1, 0))];
    data.handle_player_input(keys(false, false, false, true), &positions);
    assert_eq!(data.target_pos, (0, 0));
    assert_eq!(data.direction, Direction::Down);
    assert_eq!(data.players_on_board[0].num_moves, 2);
}

#[test]
fn no_moves_left_means_no_input() {
    let mut data = GameData::new(INITIAL_POS, MAX_WALLS);
    data.players_on_board = vec![PlayerStatus::new(0, 0), PlayerStatus::new(1, 3)];
    let positions = vec![Some((0, 0)), Some((5, 5))];
    data.handle_player_input(keys(false, true, false, false), &positions);
    assert_eq!(data.target_pos, (0, 0));
    assert_eq!(data.direction, Direction::Idle);
}

#[test]
fn the_turn_passes_to_the_next_player_and_wraps() {
    let mut rng = rand::thread_rng();
    let mut data = GameData::new(INITIAL_POS, MAX_WALLS);
    data.players_on_board = vec![PlayerStatus::new(0, 0), PlayerStatus::new(1, 0)];
    let positions = vec![Some((0, 0)), Some((5, 5))];
    assert!(data.advance_turn_if_needed(&positions, &mut rng));
    assert_eq!(data.player_turn, 1);
    assert_eq!(data.target_pos, (5, 5));
    assert!([1, 2, 3, 4].contains(&data.players_on_board[1].num_moves));

    data.players_on_board[1].num_moves = 0;
    assert!(data.advance_turn_if_needed(&positions, &mut rng));
    assert_eq!(data.player_turn, 0);
    assert_eq!(data.target_pos, (0, 0));
}

#[test]
fn the_turn_waits_for_moves_and_wall_collisions() {
    let mut rng = rand::thread_rng();
    let mut data = GameData::new(INITIAL_POS, MAX_WALLS);
    data.players_on_board = vec![PlayerStatus::new(0, 1), PlayerStatus::new(1, 0)];
    let positions = vec![Some((0, 0)), Some((5, 5))];
    assert!(!data.advance_turn_if_needed(&positions, &mut rng));
    data.players_on_board[0].num_moves = 0;
    data.wall_collision = true;
    assert!(!data.advance_turn_if_needed(&positions, &mut rng));
    assert_eq!(data.player_turn, 0);
}

#[test]
fn wall_collision_sends_the_piece_home() {
    let mut data = GameData::new(INITIAL_POS, MAX_WALLS);
    two_players(&mut data);
    data.player_turn = 1;
    data.target_pos = (2, 3);
    data.handle_wall_collision(true);
    assert!(data.wall_collision && data.color_to_transparent);
    assert_eq!(data.target_pos, (5, 5));
    assert_eq!(data.players_on_board[1].num_moves, 0);
}

#[test]
fn collecting_tokens_wins_the_game() {
    let mut data = GameData::new(INITIAL_POS, MAX_WALLS);
    two_players(&mut data);
    data.tokens_to_win = 1;
    assert!(!data.handle_token_collection(true, false));
    assert!(data.token_taken);
    data.check_win_condition();
    assert!(!data.set_state);
    assert!(data.handle_token_collection(true, true));
    assert_eq!(data.players_on_board[0].tokens_collected, 1);
    assert_eq!(data.players_on_board[0].num_moves, 0);
    data.check_win_condition();
    assert!(data.set_state);
}

#[test]
fn spawning_takes_the_first_free_token() {
    let mut data = GameData::new(INITIAL_POS, MAX_WALLS);
    data.token_list = vec![((0, 2), 0), ((0, 3), 1)];
    data.token_taken = true;
    let token = data.spawn_next_token(true, &vec![true, false]);
    assert_eq!(token, Some(((0, 3), 1)));
    assert!(!data.token_taken);
    assert_eq!(data.token_list, vec![((0, 2), 0)]);
    assert_eq!(data.spawn_next_token(false, &vec![false]), None);
}

#[test]
fn the_game_moves_through_its_states() {
    let mut rng = rand::thread_rng();
    let mut data = GameData::new(INITIAL_POS, MAX_WALLS);
    let mut state = GameState::StartMenu;
    assert!(!data.update_start_menu_state(&mut state, &mut rng));
    data.set_state = true;
    assert!(data.update_start_menu_state(&mut state, &mut rng));
    assert_eq!(state, GameState::SetWalls);
    assert!(data.player_turn < 2);
    assert_eq!(data.target_pos, INITIAL_POS[data.player_turn]);

    data.set_state = true;
    assert!(!data.transition_to_in_game_if_ready(false, &mut state, &mut rng));
    assert!(data.transition_to_in_game_if_ready(true, &mut state, &mut rng));
    assert_eq!(state, GameState::InGame);
    assert_eq!(data.wall_placement.walls_left, MAX_WALLS);

    assert!(data.ensure_players_created(&mut rng));
    assert_eq!(data.players_on_board.len(), 2);
    assert!(!data.ensure_players_created(&mut rng));

    data.set_state = true;
    assert!(data.transition_to_end_game_if_ready(true, &mut state));
    assert_eq!(state, GameState::EndGame);
    assert!(!data.set_state);

    data.init_tokens(24, &SKIP_POS, &mut rng);
    data.post_game_choice = PostGameChoice::PlayAgain;
    assert!(data.restart_game_if_requested(&mut state, &mut rng));
    assert_eq!(state, GameState::StartMenu);
    assert!(data.players_on_board.is_empty());
    assert_eq!(data.post_game_choice, PostGameChoice::Undecided);
    assert_eq!(data.token_list.len(), 24);
}

#[test]
fn color_fields_compare_by_value() {
    assert_eq!(ColorField::PlayerText(2), ColorField::PlayerText(2));
    assert_ne!(ColorField::PlayerText(1), ColorField::Text);
}

#[test]
fn token_count_counts_the_cells_left() {
    assert_eq!(hidden_keep::game_data::token_count(&SKIP_POS), 24);
    assert_eq!(hidden_keep::game_data::token_count(&[0, 0, 0, 0, 0, 0, 0, 0, 0, 0, 0, 40]), 35);
}

#[test]
fn advance_range_needs_the_next_piece_on_a_cell() {
    let mut data = GameData::new(INITIAL_POS, MAX_WALLS);
    data.players_on_board = vec![PlayerStatus::new(0, 0), PlayerStatus::new(1, 0)];
    assert!(data.advance_in_range(&vec![Some((0, 0)), Some((5, 5))]));
    assert!(!data.advance_in_range(&vec![Some((0, 0)), None]));
    // the turn is not over while the piece is between cells
    assert!(data.advance_in_range(&vec![None, None]));
}

#[test]
fn three_players_each_get_a_piece_and_take_turns_in_order() {
    let mut rng = rand::thread_rng();
    let mut data = GameData::new(INITIAL_POS, MAX_WALLS);
    let mut state = GameState::StartMenu;
    data.num_players = 3;
    data.set_state = true;
    assert!(data.update_start_menu_state(&mut state, &mut rng));
    assert!(data.player_turn < 3);
    assert!(data.ensure_players_created(&mut rng));
    assert_eq!(data.players_on_board.len(), 3);
    let positions = vec![Some((0, 0)), Some((5, 5)), Some((0, 5))];
    for _ in 0..6 {
        let before = data.player_turn;
        data.target_pos = positions[before].unwrap();
        data.players_on_board[before].num_moves = 0;
        assert!(data.advance_turn_if_needed(&positions, &mut rng));
        assert_eq!(data.player_turn, (before + 1) % 3);
        assert!(data.player_turn < data.num_players);
        assert!(data.num_players <= data.players_on_board.len());
    }
}

#[test]
fn a_new_or_restarted_game_counts_its_walls() {
    let mut rng = rand::thread_rng();
    let mut data = GameData::new(INITIAL_POS, MAX_WALLS);
    assert_eq!(data.wall_placement.walls_left + data.wall_placement.walls_on_board.len(), MAX_WALLS);
    let mut state = GameState::EndGame;
    data.wall_placement.walls_left = 0;
    data.post_game_choice = PostGameChoice::PlayAgain;
    assert!(data.restart_game_if_requested(&mut state, &mut rng));
    assert_eq!(state, GameState::StartMenu);
    assert_eq!(data.wall_placement.walls_left + data.wall_placement.walls_on_board.len(), MAX_WALLS);
    assert!(data.player_turn < data.num_players);
}

#[test]
fn a_wall_collision_fades_out_goes_home_and_fades_back_in() {
    let mut data = GameData::new(INITIAL_POS, MAX_WALLS);
    two_players(&mut data);
    assert!(!data.animate_wall_collision(true));
    data.handle_wall_collision(true);
    assert!(data.wall_collision && data.color_to_transparent);
    assert!(!data.animate_wall_collision(false));
    assert!(data.color_to_transparent);
    assert!(data.animate_wall_collision(true));
    assert!(data.wall_collision && !data.color_to_transparent);
    assert!(!data.animate_wall_collision(false));
    assert!(data.wall_collision);
    assert!(!data.animate_wall_collision(true));
    assert!(!data.wall_collision);
}

#[test]
fn pieces_are_visible_once_all_have_faded_in() {
    let mut data = GameData::new(INITIAL_POS, MAX_WALLS);
    let fade = data.update_player_visibility(&vec![true, false]);
    assert_eq!(fade, vec![false, true]);
    assert!(!data.gamepieces_visible);
    let fade = data.update_player_visibility(&vec![true, true]);
    assert_eq!(fade, vec![false, false]);
    assert!(data.gamepieces_visible);
    data.wall_collision = true;
    let fade = data.update_player_visibility(&vec![false, false]);
    assert_eq!(fade, vec![false, false]);
    assert!(data.gamepieces_visible);
}

#[test]
fn end_game_pieces_count_as_visible_while_one_shows() {
    let mut data = GameData::new(INITIAL_POS, MAX_WALLS);
    data.update_end_game_player_fade(&vec![false, false]);
    assert!(!data.gamepieces_visible);
    data.update_end_game_player_fade(&vec![false, true]);
    assert!(data.gamepieces_visible);
    data.update_end_game_player_fade(&vec![false, false]);
    assert!(data.gamepieces_visible);
}
