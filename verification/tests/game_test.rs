use wasm_game_of_life::game::Cell;
use wasm_game_of_life::game::Game;
use wasm_game_of_life::game::GameError;

#[test]
fn init_game() {
    assert_eq!(
        Ok(Game::new()),
        Game::new_board(vec![1, 0, 0, 0, 1, 0, 0, 0, 1, 0, 0, 0, 0, 0, 0, 0])
    );
}

#[test]
fn get_live_neighbor_count() {
    let game = Game::new();
    let n_count = game.get_alive_neighbor_count(5);
    assert_eq!(n_count, 3);
}

#[test]
fn one_tick() {
    let mut game: Game = Game::new();
    game.on_tick();
    assert_eq!(
        Ok(game),
        Game::new_board(vec![0, 0, 0, 0, 1, 1, 0, 0, 0, 0, 0, 0, 0, 0, 0, 0])
    );
}

#[test]
fn two_ticks() {
    let mut game: Game = Game::new();
    game.on_tick();
    game.on_tick();
    assert_eq!(
        Ok(game),
        Game::new_board(vec![0, 0, 0, 0, 0, 0, 0, 0, 0, 0, 0, 0, 0, 0, 0, 0])
    );
}

#[test]
fn construction_rejects_bad_length() {
    let cells: Vec<u8> = vec![0; 15];
    assert_eq!(Game::new_board(cells), Err(GameError::InvalidLength));
}

#[test]
fn from_cells_rejects_bad_length() {
    let cells: Vec<Cell> = vec![Cell::Dead; 15];
    assert_eq!(
        Game::from_cells(cells, 4).err(),
        Some(GameError::InvalidLength)
    );
}

#[test]
fn from_cells_rejects_empty() {
    assert_eq!(
        Game::from_cells(Vec::new(), 4).err(),
        Some(GameError::InvalidLength)
    );
}

#[test]
fn from_cells_rejects_zero_row_size() {
    let cells: Vec<Cell> = vec![Cell::Dead; 8];
    assert_eq!(
        Game::from_cells(cells, 0).err(),
        Some(GameError::InvalidLength)
    );
}

#[test]
fn from_cells_accepts_exact_multiple() {
    let cells: Vec<Cell> = vec![Cell::Dead; 12];
    let game = Game::from_cells(cells, 4).unwrap();
    assert_eq!(game.row_size(), 4);
    assert_eq!(game.board().len(), 12);
}

#[test]
fn default_pattern_equals_explicit_pattern() {
    let mut cells: Vec<Cell> = vec![Cell::Dead; 16];
    cells[0] = Cell::Alive;
    cells[4] = Cell::Alive;
    cells[8] = Cell::Alive;
    let explicit = Game::from_cells(cells, 4).unwrap();
    assert_eq!(Game::default_board(4, 4), explicit);
}

#[test]
fn neighbor_count_at_corner() {
    let game = Game::new();
    assert_eq!(game.get_alive_neighbor_count(0), 1);
}

#[test]
fn neighbor_count_is_at_most_eight() {
    let game = Game::from_cells(vec![Cell::Alive; 36], 6).unwrap();
    for index in 0..36 {
        assert!(game.get_alive_neighbor_count(index) <= 8);
    }
}

#[test]
fn full_board_center_has_eight_neighbors() {
    let game = Game::from_cells(vec![Cell::Alive; 9], 3).unwrap();
    assert_eq!(game.get_alive_neighbor_count(4), 8);
}

#[test]
fn no_wraparound_at_left_edge() {
    // A lone live cell in the rightmost column contributes nothing to
    // a left-edge cell's count: column -1 never aliases to column 3.
    let mut cells: Vec<u8> = vec![0; 16];
    cells[7] = 1;
    let game = Game::new_board(cells).unwrap();
    assert_eq!(game.get_alive_neighbor_count(4), 0);
}

#[test]
fn stepping_is_deterministic() {
    let mut first = Game::new();
    let mut second = Game::new();
    first.on_tick();
    second.on_tick();
    assert_eq!(first, second);
}

#[test]
fn index_coordinates_roundtrip() {
    for index in 0..16 {
        let (row, col) = wasm_game_of_life::grid::get_xy(index, 4);
        assert_eq!(wasm_game_of_life::grid::get_index(4, row, col), index);
    }
    assert_eq!(wasm_game_of_life::grid::get_xy(5, 4), (1, 1));
    assert_eq!(wasm_game_of_life::grid::get_index(4, 1, 1), 5);
}

#[test]
fn render_marks_rows() {
    let mut game = Game::new();
    assert_eq!(game.render(), "1000<br/>1000<br/>1000<br/>0000");
}

#[test]
fn render_leaves_board_unchanged() {
    let mut game = Game::new();
    let before = game.render();
    let after = game.render();
    assert_eq!(before, after);
    assert_eq!(game, Game::default_board(4, 4));
}

#[test]
fn from_draws_seeds_each_cell_from_its_draw() {
    let draws = vec![
        true, false, false, false, true, false, false, false, true, false, false, false, false,
        false, false, false,
    ];
    let game = Game::from_draws(draws, 4).unwrap();
    assert_eq!(game, Game::default_board(4, 4));
}

#[test]
fn from_draws_rejects_bad_length() {
    let draws: Vec<bool> = vec![false; 15];
    assert_eq!(
        Game::from_draws(draws, 4).err(),
        Some(GameError::InvalidLength)
    );
}

#[test]
fn random_board_has_requested_dimensions() {
    let game = Game::random(6, 5);
    assert_eq!(game.row_size(), 6);
    assert_eq!(game.board().len(), 30);
}

#[test]
fn board_view_is_row_major() {
    let game = Game::new();
    let board = game.board();
    assert_eq!(board.len(), 16);
    assert_eq!(board[0], Cell::Alive);
    assert_eq!(board[4], Cell::Alive);
    assert_eq!(board[8], Cell::Alive);
    assert_eq!(board[1], Cell::Dead);
    assert_eq!(board[15], Cell::Dead);
}

#[test]
fn new_board_reads_any_nonzero_byte_as_alive() {
    let game = Game::new_board(vec![2, 0, 0, 0, 0, 0, 0, 0]).unwrap();
    assert_eq!(game.board()[0], Cell::Alive);
    assert_eq!(game.board()[1], Cell::Dead);
}

#[test]
fn greeting_builds_message() {
    assert_eq!(wasm_game_of_life::greeting("World"), "Hello, World");
}

#[test]
fn blinker_oscillates() {
    // A vertical blinker centered on a 5-wide grid flips to horizontal
    // and back: the standard two-period oscillator under B3/S23.
    let mut cells: Vec<u8> = vec![0; 25];
    cells[7] = 1;
    cells[12] = 1;
    cells[17] = 1;
    let start = Game::from_cells(
        cells.iter().map(|&b| if b == 0 { Cell::Dead } else { Cell::Alive }).collect(),
        5,
    )
    .unwrap();
    let mut game = Game::from_cells(
        cells.iter().map(|&b| if b == 0 { Cell::Dead } else { Cell::Alive }).collect(),
        5,
    )
    .unwrap();
    game.on_tick();
    let mut horizontal: Vec<u8> = vec![0; 25];
    horizontal[11] = 1;
    horizontal[12] = 1;
    horizontal[13] = 1;
    let expected = Game::from_cells(
        horizontal.iter().map(|&b| if b == 0 { Cell::Dead } else { Cell::Alive }).collect(),
        5,
    )
    .unwrap();
    assert_eq!(game, expected);
    game.on_tick();
    assert_eq!(game, start);
}
