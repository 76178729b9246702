# hidden_keep

Hidden Keep is a board game for two to four players on a 6x6 board. Before
play, walls are set between cells; the board is then turned a random number
of quarter turns, hidden, and players roll a die to move their pieces and
collect tokens. A piece that runs into a hidden wall goes back to its corner.

## Layout

- `src/` — the verified library (Verus):
  - `wall.rs`, `slots.rs`: walls, the 60 wall slots, and where a turn of the
    board sends each wall;
  - `board.rs`: cells, moves, walks, and the accessibility of the board, with
    the proofs that taking walls off and turning the board keep every cell
    reachable;
  - `wall_placement.rs`: placing and removing walls, the breadth-first
    accessibility check, the hover test, and the hidden rotation;
  - `player.rs`, `token.rs`, `game_data.rs`, `game_state.rs`: turn order,
    movement input, token dealing and selection, collisions, winning;
  - `random.rs`: the calls into `rand`.
- `app/` — the macroquad program: windows, input, drawing, assets, and the
  floating-point fades and movement, calling the library for every rule.
- `tests/` — tests of the library.
