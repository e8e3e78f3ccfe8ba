use std::sync::{Arc, Mutex};
use tetris::board::{Board, MoveNotAllowedError, BOARD_COLS, BOARD_ROWS, EMPTY_CELL};
use tetris::game::Game;
use tetris::notify::{Notification, NumberChannel, PieceChannel};
use tetris::tetromino::{Tetromino, TetrominoShape, TetrominoShapeGenerator};

fn shape(name: char) -> TetrominoShape {
    TetrominoShapeGenerator::make(name).ok().expect("catalog shape")
}

fn empty_board() -> Board {
    [[EMPTY_CELL; BOARD_COLS]; BOARD_ROWS]
}

/// An upright I occupying column `col`, rows `row` to `row + 3`.
fn upright_i(row: i32, col: i32) -> Tetromino {
    let mut s = shape('I');
    s.rotate_clockwise();
    Tetromino::new((row, col - 1), s)
}

fn game_with(board: Board, current: Tetromino, level: u16, lines: u32, score: u64) -> Game {
    Game::from_parts(board, current, level, lines, score).expect("a legal position")
}

/// A game over an empty board with an O at its origin, for collision checks.
fn plain_game(board: Board) -> Game {
    game_with(board, Tetromino::new((10, 0), shape('O')), 0, 0, 0)
}

fn count_game_over(notes: &[Notification]) -> usize {
    notes.iter().filter(|n| matches!(n, Notification::GameOver)).count()
}

#[test]
fn collision_left_overflow_wins_over_overlap() {
    let mut board = empty_board();
    board[2][0] = 'Z';
    board[2][1] = 'Z';
    let game = plain_game(board);
    // Horizontal I in row 2, two columns past the left edge, and over filled cells.
    let piece = Tetromino::new((0, -2), shape('I'));
    assert_eq!(piece.get_occupied_positions(), &vec![(2, -2), (2, -1), (2, 0), (2, 1)]);
    assert_eq!(game.check_move(&piece, &(0, 0)), Err(MoveNotAllowedError::TooFarLeft(-2)));
    // The same overflow reached by a step.
    let piece = Tetromino::new((0, 0), shape('I'));
    assert_eq!(game.check_move(&piece, &(0, -2)), Err(MoveNotAllowedError::TooFarLeft(-2)));
}

#[test]
fn collision_right_overflow() {
    let game = plain_game(empty_board());
    let piece = Tetromino::new((0, 8), shape('I'));
    assert_eq!(game.check_move(&piece, &(0, 0)), Err(MoveNotAllowedError::TooFarRight(2)));
    assert_eq!(game.check_move(&piece, &(25, 0)), Err(MoveNotAllowedError::TooFarRight(2)));
}

#[test]
fn collision_bottom_and_overlap() {
    // Upright I in column 4, rows 17..20: one step down puts a cell below the board.
    let game = plain_game(empty_board());
    let piece = upright_i(17, 4);
    assert_eq!(game.check_move(&piece, &(1, 0)), Err(MoveNotAllowedError::TooFarDown));
    assert_eq!(game.check_move(&piece, &(0, 0)), Ok(()));
    let mut board = empty_board();
    board[20][4] = 'Z';
    let game = plain_game(board);
    let piece = upright_i(16, 4);
    assert_eq!(game.check_move(&piece, &(1, 0)), Err(MoveNotAllowedError::OverlapsWithOccupied));
    assert_eq!(game.check_move(&piece, &(0, 1)), Ok(()));
    // Below the board wins over a filled cell, wherever each lies in the piece.
    let piece = upright_i(17, 4);
    assert_eq!(game.check_move(&piece, &(1, 0)), Err(MoveNotAllowedError::TooFarDown));
    let piece = Tetromino::new((19, 3), shape('O'));
    assert_eq!(piece.get_occupied_positions(), &vec![(20, 4), (20, 5), (21, 4), (21, 5)]);
    assert_eq!(game.check_move(&piece, &(0, 0)), Err(MoveNotAllowedError::TooFarDown));
}

#[test]
fn from_parts_refuses_illegal_positions() {
    let mut board = empty_board();
    board[5][5] = 'T';
    assert!(Game::from_parts(board, upright_i(3, 5), 0, 0, 0).is_none());
    assert!(Game::from_parts(board, upright_i(0, 10), 0, 0, 0).is_none());
    assert!(Game::from_parts(board, upright_i(0, 5), 0, 0, 0).is_some());
    board[10][0] = 'X';
    assert!(Game::from_parts(board, upright_i(0, 5), 0, 0, 0).is_none());
}

#[test]
fn lock_and_spawn_on_empty_board() {
    let mut game = Game::new();
    let mut steps = 0;
    let mut last_cells = game.current_tetromino().get_occupied_positions().clone();
    let mut name = game.current_tetromino().get_shape_name();
    let next_name = game.next_tetromino().get_shape_name();
    while game.proces_arrow_key("ArrowDown") {
        steps += 1;
        last_cells = game.current_tetromino().get_occupied_positions().clone();
        name = game.current_tetromino().get_shape_name();
        assert!(steps < BOARD_ROWS);
    }
    // The piece rests on the bottom row and is now part of the board.
    assert_eq!(last_cells.iter().map(|c| c.0).max(), Some(20));
    let board = game.get_board();
    for (r, c) in &last_cells {
        assert_eq!(board[*r as usize][*c as usize], name);
    }
    let filled = board.iter().flatten().filter(|c| **c != EMPTY_CELL).count();
    assert_eq!(filled, 4);
    // The next piece took its place at the spawn position.
    assert_eq!(game.current_tetromino().get_position(), (0, 3));
    assert_eq!(game.current_tetromino().get_shape_name(), next_name);
    assert_eq!(game.next_tetromino().get_position(), (0, 0));
    assert!(!game.get_game_over());
    // The tick that follows only counts down.
    assert!(game.tick());
    assert_eq!(game.current_tetromino().get_position(), (0, 3));
}

#[test]
fn hard_drop_clears_one_row() {
    let mut board = empty_board();
    for c in 1..BOARD_COLS {
        board[20][c] = 'Z';
    }
    let mut game = game_with(board, upright_i(0, 0), 1, 10, 500);
    game.process_hard_drop();
    let after = game.get_board();
    let mut expected = empty_board();
    for r in 18..21 {
        expected[r][0] = 'I';
    }
    assert_eq!(after, expected);
    assert_eq!(after[0], [EMPTY_CELL; BOARD_COLS]);
    assert_eq!(game.get_score(), 500 + 100 * 2);
    assert_eq!(game.get_total_lines_cleared(), 11);
    assert_eq!(game.get_level(), 1);
    let notes = game.take_notifications();
    let numbers: Vec<(NumberChannel, u64)> = notes
        .iter()
        .filter_map(|n| match n {
            Notification::Number { kind, value } => Some((*kind, *value)),
            _ => None,
        })
        .collect();
    assert_eq!(numbers, vec![(NumberChannel::Score, 700), (NumberChannel::ScoreIncrease, 200)]);
    assert!(game.take_notifications().is_empty());
}

#[test]
fn clear_cascades_over_two_rows() {
    let mut board = empty_board();
    for c in 1..BOARD_COLS {
        board[19][c] = 'S';
        board[20][c] = 'Z';
    }
    board[18][5] = 'T';
    let mut game = game_with(board, upright_i(0, 0), 0, 0, 0);
    game.process_hard_drop();
    let mut expected = empty_board();
    expected[19][0] = 'I';
    expected[20][0] = 'I';
    expected[20][5] = 'T';
    assert_eq!(game.get_board(), expected);
    assert_eq!(game.get_score(), 300);
    assert_eq!(game.get_total_lines_cleared(), 2);
}

#[test]
fn level_rises_at_threshold() {
    let mut board = empty_board();
    for c in 1..BOARD_COLS {
        board[20][c] = 'Z';
    }
    let mut game = game_with(board, upright_i(0, 0), 0, 9, 0);
    game.process_hard_drop();
    assert_eq!(game.get_total_lines_cleared(), 10);
    assert_eq!(game.get_level(), 1);
    assert_eq!(game.get_score(), 100);
    let levels: Vec<u64> = game
        .take_notifications()
        .iter()
        .filter_map(|n| match n {
            Notification::Number { kind: NumberChannel::Level, value } => Some(*value),
            _ => None,
        })
        .collect();
    assert_eq!(levels, vec![1]);
}

#[test]
fn level_rises_once_per_clear() {
    let mut board = empty_board();
    for c in 1..BOARD_COLS {
        board[20][c] = 'Z';
    }
    let mut game = game_with(board, upright_i(0, 0), 0, 100, 0);
    game.process_hard_drop();
    assert_eq!(game.get_total_lines_cleared(), 101);
    assert_eq!(game.get_level(), 1);
}

#[test]
fn no_level_below_threshold() {
    let mut board = empty_board();
    for c in 1..BOARD_COLS {
        board[20][c] = 'Z';
    }
    let mut game = game_with(board, upright_i(0, 0), 0, 8, 0);
    game.process_hard_drop();
    assert_eq!(game.get_total_lines_cleared(), 9);
    assert_eq!(game.get_level(), 0);
}

#[test]
fn game_over_when_spawn_is_blocked() {
    let mut board = empty_board();
    for r in 0..4 {
        for c in 3..7 {
            board[r][c] = 'Z';
        }
    }
    let mut game = game_with(board, upright_i(0, 0), 0, 0, 0);
    game.process_hard_drop();
    assert!(game.get_game_over());
    let notes = game.take_notifications();
    assert_eq!(count_game_over(&notes), 1);
    assert!(matches!(notes.last(), Some(Notification::GameOver)));
    // Everything is refused until a reset.
    let board_before = game.get_board();
    let cells_before = game.current_tetromino().get_occupied_positions().clone();
    assert!(!game.proces_arrow_key("ArrowDown"));
    assert!(!game.proces_arrow_key("ArrowLeft"));
    assert!(!game.process_rotation("clockwise"));
    game.process_hard_drop();
    assert!(!game.tick());
    assert!(!game.tick());
    assert_eq!(game.get_board(), board_before);
    assert_eq!(game.current_tetromino().get_occupied_positions(), &cells_before);
    assert!(game.take_notifications().is_empty());
    game.reset();
    assert!(!game.get_game_over());
    assert_eq!(game.get_board(), empty_board());
    assert!(game.tick());
}

#[test]
fn arrow_keys_move_and_announce() {
    let mut game = game_with(empty_board(), Tetromino::new((0, 3), shape('O')), 0, 0, 0);
    assert!(game.proces_arrow_key("ArrowLeft"));
    assert!(game.proces_arrow_key("ArrowDown"));
    assert!(game.proces_arrow_key("ArrowRight"));
    assert!(game.proces_arrow_key("ArrowRight"));
    assert_eq!(game.current_tetromino().get_position(), (1, 4));
    let notes = game.take_notifications();
    assert_eq!(notes.len(), 4);
    match &notes[3] {
        Notification::Piece { channel, name, cells } => {
            assert_eq!(*channel, PieceChannel::Current);
            assert_eq!(*name, 'O');
            assert_eq!(cells, &vec![(2, 5), (2, 6), (3, 5), (3, 6)]);
        },
        _ => panic!("expected a piece notification"),
    }
    assert_eq!(notes[3].channel_name(), "current_tetromino");
}

#[test]
fn arrow_blocked_by_wall_changes_nothing() {
    // O occupies columns 0 and 1 when its corner is at column -1.
    let mut game = game_with(empty_board(), Tetromino::new((0, -1), shape('O')), 0, 0, 0);
    assert!(!game.proces_arrow_key("ArrowLeft"));
    assert_eq!(game.current_tetromino().get_position(), (0, -1));
    assert!(game.take_notifications().is_empty());
}

#[test]
fn unknown_key_changes_nothing() {
    let mut game = game_with(empty_board(), Tetromino::new((4, 3), shape('T')), 0, 0, 0);
    assert!(!game.proces_arrow_key("Space"));
    assert_eq!(game.current_tetromino().get_position(), (4, 3));
    assert!(game.take_notifications().is_empty());
}

#[test]
fn unknown_rotation_word_keeps_shape() {
    let mut game = game_with(empty_board(), Tetromino::new((4, 3), shape('T')), 0, 0, 0);
    let before = game.current_tetromino().get_occupied_positions().clone();
    assert!(game.process_rotation("sideways"));
    assert_eq!(game.current_tetromino().get_occupied_positions(), &before);
    let notes = game.take_notifications();
    assert_eq!(notes.len(), 1);
    match &notes[0] {
        Notification::Piece { channel, cells, .. } => {
            assert_eq!(*channel, PieceChannel::Current);
            assert_eq!(cells, &before);
        },
        _ => panic!("expected a piece notification"),
    }
}

#[test]
fn rotation_in_open_space() {
    let mut game = game_with(empty_board(), Tetromino::new((5, 3), shape('I')), 0, 0, 0);
    assert!(game.process_rotation("clockwise"));
    assert_eq!(game.current_tetromino().get_occupied_positions(), &vec![(5, 4), (6, 4), (7, 4), (8, 4)]);
}

#[test]
fn rotation_wall_kick_from_right_edge() {
    // Upright I in column 9; turning it lays it across columns 8..11, two past the edge.
    let mut game = game_with(empty_board(), upright_i(5, 9), 0, 0, 0);
    assert!(game.process_rotation("clockwise"));
    assert_eq!(game.current_tetromino().get_occupied_positions(), &vec![(6, 6), (6, 7), (6, 8), (6, 9)]);
}

#[test]
fn rotation_wall_kick_from_left_edge() {
    // Upright I in column 0; turning it counter-clockwise lays it across
    // columns -1..2 of row 7, one past the edge.
    let mut game = game_with(empty_board(), upright_i(5, 0), 0, 0, 0);
    assert!(game.process_rotation("counter-clockwise"));
    assert_eq!(game.current_tetromino().get_occupied_positions(), &vec![(7, 0), (7, 1), (7, 2), (7, 3)]);
}

#[test]
fn rotation_refused_when_kick_lands_on_blocks() {
    let mut board = empty_board();
    board[6][6] = 'Z';
    let mut game = game_with(board, upright_i(5, 9), 0, 0, 0);
    let before = game.current_tetromino().get_occupied_positions().clone();
    assert!(!game.process_rotation("clockwise"));
    assert_eq!(game.current_tetromino().get_occupied_positions(), &before);
}

#[test]
fn rotation_refused_on_overlap() {
    // Horizontal I in row 7, columns 3..6; counter-clockwise it would stand in
    // column 5, clockwise in column 4.
    let mut board = empty_board();
    board[6][5] = 'Z';
    let mut game = game_with(board, Tetromino::new((5, 3), shape('I')), 0, 0, 0);
    let before = game.current_tetromino().get_occupied_positions().clone();
    assert!(!game.process_rotation("counter-clockwise"));
    assert_eq!(game.current_tetromino().get_occupied_positions(), &before);
    assert!(game.process_rotation("clockwise"));
    assert_eq!(game.current_tetromino().get_occupied_positions(), &vec![(5, 4), (6, 4), (7, 4), (8, 4)]);
}

#[test]
fn tick_counts_down_then_steps() {
    let mut game = game_with(empty_board(), Tetromino::new((0, 3), shape('T')), 0, 0, 0);
    assert_eq!(game.get_wait_ticks_remaining(), 48);
    for _ in 0..48 {
        assert!(game.tick());
        assert_eq!(game.current_tetromino().get_position(), (0, 3));
    }
    assert_eq!(game.get_wait_ticks_remaining(), 0);
    assert!(game.tick());
    assert_eq!(game.current_tetromino().get_position(), (1, 3));
    assert_eq!(game.get_wait_ticks_remaining(), 48);
}

#[test]
fn tick_speed_follows_level() {
    let game = game_with(empty_board(), Tetromino::new((0, 3), shape('T')), 9, 0, 0);
    assert_eq!(game.get_wait_ticks_remaining(), 6);
}

#[test]
fn new_game_is_fresh() {
    let game = Game::new();
    assert_eq!(game.get_board(), empty_board());
    assert_eq!(game.current_tetromino().get_position(), (0, 3));
    assert_eq!(game.next_tetromino().get_position(), (0, 0));
    assert_eq!(game.get_score(), 0);
    assert_eq!(game.get_level(), 0);
    assert_eq!(game.get_total_lines_cleared(), 0);
    assert_eq!(game.get_wait_ticks_remaining(), 48);
    assert!(!game.get_game_over());
}

#[test]
fn reset_announces_full_state() {
    let mut game = Game::new();
    game.process_hard_drop();
    let _ = game.take_notifications();
    game.reset();
    let notes = game.take_notifications();
    let channels: Vec<&str> = notes.iter().map(|n| n.channel_name()).collect();
    assert_eq!(channels, vec!["current_tetromino", "next_tetromino", "score", "level", "board"]);
    assert_eq!(game.get_board(), empty_board());
}

#[test]
fn emit_all_snapshot() {
    let mut game = Game::new();
    game.emit_all();
    let notes = game.take_notifications();
    assert_eq!(notes.len(), 5);
    assert!(matches!(notes[1], Notification::Piece { channel: PieceChannel::Next, .. }));
    assert!(matches!(notes[4], Notification::Board { .. }));
}

#[test]
fn lock_announces_board_and_both_pieces() {
    let mut game = game_with(empty_board(), Tetromino::new((18, 3), shape('O')), 0, 0, 0);
    assert!(!game.proces_arrow_key("ArrowDown"));
    let notes = game.take_notifications();
    let channels: Vec<&str> = notes.iter().map(|n| n.channel_name()).collect();
    assert_eq!(channels, vec!["board", "current_tetromino", "next_tetromino"]);
    let board = game.get_board();
    assert_eq!(board[19][4], 'O');
    assert_eq!(board[20][5], 'O');
}

fn overlaps(game: &Game) -> bool {
    let board = game.get_board();
    game.current_tetromino()
        .get_occupied_positions()
        .iter()
        .any(|(r, c)| board[*r as usize][*c as usize] != EMPTY_CELL)
}

#[test]
fn interleaved_commands_keep_piece_off_locked_cells() {
    // Bursts of player commands between gravity ticks, each taken under the
    // same lock, in a fixed pseudo-random schedule.
    let game = Arc::new(Mutex::new(Game::new()));
    let keys = ["ArrowLeft", "ArrowRight", "ArrowDown", "ArrowLeft"];
    let mut seed: u32 = 12345;
    for _ in 0..4000 {
        seed = seed.wrapping_mul(1103515245).wrapping_add(12345);
        let burst = (seed >> 16) % 4;
        for b in 0..burst {
            let mut g = game.lock().unwrap();
            let pick = ((seed >> 8) + b) % 11;
            if pick == 0 {
                g.process_rotation("clockwise");
            } else if pick == 1 {
                g.process_rotation("counter-clockwise");
            } else if pick == 2 && (seed >> 20) % 5 == 0 {
                g.process_hard_drop();
            } else {
                g.proces_arrow_key(keys[(pick % 4) as usize]);
            }
            assert!(g.get_game_over() || !overlaps(&g));
        }
        let mut g = game.lock().unwrap();
        if !g.tick() {
            break;
        }
        assert!(!overlaps(&g));
    }
    let g = game.lock().unwrap();
    assert!(g.get_game_over() || !overlaps(&g));
}

#[test]
fn counters_saturate_at_their_maximum() {
    let mut board = empty_board();
    for c in 1..BOARD_COLS {
        board[20][c] = 'Z';
    }
    let mut game = game_with(board, upright_i(0, 0), 3, u32::MAX, u64::MAX - 50);
    game.process_hard_drop();
    assert_eq!(game.get_score(), u64::MAX);
    assert_eq!(game.get_total_lines_cleared(), u32::MAX);
    assert_eq!(game.get_level(), 4);
}
