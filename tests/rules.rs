use checkers::ai::calculate_ai_move;
use checkers::board::{count_pieces, decode_board, encode_board, get_piece, set_piece, STARTING_BOARD};
use checkers::game::CheckersGame;
use checkers::play::{make_move, resign, GameError};
use checkers::rating::{next_rating, Outcome, PlayerStats};
use checkers::rules::{check_game_over, has_capture_available, validate_and_execute_move, MoveError};
use checkers::types::{GameResult, GameStatus, Piece, PlayerType, TimeControl, Turn};

fn empty_cells() -> Vec<Piece> {
    vec![Piece::Empty; 64]
}

fn board_with(pieces: &[(usize, usize, Piece)]) -> String {
    let mut cells = empty_cells();
    for (r, c, p) in pieces {
        cells[r * 8 + c] = *p;
    }
    encode_board(&cells)
}

fn game_on(board: String, turn: Turn) -> CheckersGame {
    let mut game = CheckersGame::new("g".to_string(), Some("red".to_string()), PlayerType::Human);
    game.black_player = Some("black".to_string());
    game.status = GameStatus::Active;
    game.board_state = board;
    game.current_turn = turn;
    game
}

#[test]
fn encode_decode_round_trip() {
    let mut cells = empty_cells();
    cells[1] = Piece::Red;
    cells[10] = Piece::RedKing;
    cells[63] = Piece::BlackKing;
    cells[40] = Piece::Black;
    let text = encode_board(&cells);
    assert_eq!(text.len(), 71);
    assert_eq!(decode_board(&text), cells);
}

#[test]
fn starting_board_decodes_to_twelve_each() {
    let cells = decode_board(STARTING_BOARD);
    assert_eq!(cells.iter().filter(|p| p.is_red()).count(), 12);
    assert_eq!(cells.iter().filter(|p| p.is_black()).count(), 12);
    assert_eq!(encode_board(&cells).replace('.', " "), STARTING_BOARD);
}

#[test]
fn set_piece_writes_dot_on_dark_empty_square() {
    let board = set_piece(STARTING_BOARD, 0, 1, Piece::Empty);
    assert_eq!(&board[0..2], " .");
    let same = set_piece(STARTING_BOARD, 9, 9, Piece::Red);
    assert_eq!(same, STARTING_BOARD);
}

#[test]
fn simple_move_passes_turn_and_keeps_counts() {
    let mut game = game_on(STARTING_BOARD.to_string(), Turn::Red);
    let m = validate_and_execute_move(&mut game, 2, 1, 3, 0).unwrap();
    assert!(m.captured_row.is_none());
    assert_eq!(game.current_turn, Turn::Black);
    assert_eq!(get_piece(&game.board_state, 3, 0), Piece::Red);
    assert_eq!(get_piece(&game.board_state, 2, 1), Piece::Empty);
    assert_eq!(count_pieces(&game.board_state), (12, 12));
}

#[test]
fn refused_moves_change_nothing() {
    let mut game = game_on(STARTING_BOARD.to_string(), Turn::Red);
    let before = game.board_state.clone();
    assert_eq!(validate_and_execute_move(&mut game, 0, 0, 1, 1).unwrap_err(), MoveError::InvalidSquare);
    assert_eq!(validate_and_execute_move(&mut game, 5, 0, 4, 1).unwrap_err(), MoveError::NotYourPiece);
    assert_eq!(validate_and_execute_move(&mut game, 1, 0, 2, 1).unwrap_err(), MoveError::DestinationOccupied);
    assert_eq!(validate_and_execute_move(&mut game, 2, 1, 2, 2).unwrap_err(), MoveError::InvalidSquare);
    assert_eq!(validate_and_execute_move(&mut game, 2, 1, 4, 1).unwrap_err(), MoveError::MustMoveDiagonally);
    assert_eq!(validate_and_execute_move(&mut game, 2, 1, 3, 4).unwrap_err(), MoveError::MustMoveDiagonally);
    assert_eq!(validate_and_execute_move(&mut game, 2, 1, 4, 3).unwrap_err(), MoveError::NoPieceToCapture);
    assert_eq!(game.board_state, before);
    assert_eq!(game.current_turn, Turn::Red);
    let mut lone = game_on(board_with(&[(0, 1, Piece::Red)]), Turn::Red);
    assert_eq!(validate_and_execute_move(&mut lone, 0, 1, 3, 4).unwrap_err(), MoveError::InvalidMoveDistance);
}

#[test]
fn men_never_move_backward() {
    let board = board_with(&[(4, 3, Piece::Red), (3, 4, Piece::Black), (6, 1, Piece::Black)]);
    let mut game = game_on(board.clone(), Turn::Red);
    assert_eq!(validate_and_execute_move(&mut game, 4, 3, 3, 2).unwrap_err(), MoveError::InvalidDirection);
    assert_eq!(validate_and_execute_move(&mut game, 4, 3, 2, 5).unwrap_err(), MoveError::InvalidCaptureDirection);
    let mut game = game_on(board, Turn::Black);
    assert_eq!(validate_and_execute_move(&mut game, 6, 1, 7, 0).unwrap_err(), MoveError::InvalidDirection);
}

#[test]
fn kings_move_backward() {
    let board = board_with(&[(4, 3, Piece::RedKing), (0, 7, Piece::Black)]);
    let mut game = game_on(board, Turn::Red);
    assert!(validate_and_execute_move(&mut game, 4, 3, 3, 2).is_ok());
    assert_eq!(get_piece(&game.board_state, 3, 2), Piece::RedKing);
}

#[test]
fn capture_is_forced() {
    let board = board_with(&[(2, 1, Piece::Red), (3, 2, Piece::Black), (2, 5, Piece::Red)]);
    let mut game = game_on(board, Turn::Red);
    assert!(has_capture_available(&game.board_state, Turn::Red));
    assert_eq!(validate_and_execute_move(&mut game, 2, 5, 3, 6).unwrap_err(), MoveError::MustCapture);
    let m = validate_and_execute_move(&mut game, 2, 1, 4, 3).unwrap();
    assert_eq!(m.captured_row, Some(3));
    assert_eq!(m.captured_col, Some(2));
    assert_eq!(count_pieces(&game.board_state), (2, 0));
}

#[test]
fn chain_jump_keeps_the_turn() {
    let board = board_with(&[(2, 1, Piece::Red), (3, 2, Piece::Black), (5, 4, Piece::Black)]);
    let mut game = game_on(board, Turn::Red);
    validate_and_execute_move(&mut game, 2, 1, 4, 3).unwrap();
    assert_eq!(game.current_turn, Turn::Red);
    validate_and_execute_move(&mut game, 4, 3, 6, 5).unwrap();
    assert_eq!(game.current_turn, Turn::Black);
    assert_eq!(count_pieces(&game.board_state), (1, 0));
}

#[test]
fn promoting_capture_ends_the_turn() {
    let board = board_with(&[(5, 2, Piece::Red), (6, 3, Piece::Black), (6, 5, Piece::Black)]);
    let mut game = game_on(board, Turn::Red);
    let m = validate_and_execute_move(&mut game, 5, 2, 7, 4).unwrap();
    assert!(m.promoted);
    assert_eq!(get_piece(&game.board_state, 7, 4), Piece::RedKing);
    assert_eq!(game.current_turn, Turn::Black);
}

#[test]
fn game_over_when_a_side_has_no_pieces_or_moves() {
    let mut game = game_on(board_with(&[(2, 1, Piece::Red)]), Turn::Black);
    assert!(check_game_over(&mut game));
    assert_eq!(game.result, Some(GameResult::RedWins));
    assert_eq!(game.status, GameStatus::Finished);
    let blocked = board_with(&[(0, 1, Piece::Black), (7, 0, Piece::Red)]);
    let mut game = game_on(blocked, Turn::Black);
    assert!(check_game_over(&mut game));
    assert_eq!(game.result, Some(GameResult::RedWins));
    let mut game = game_on(STARTING_BOARD.to_string(), Turn::Red);
    assert!(!check_game_over(&mut game));
}

#[test]
fn make_move_checks_turn_and_records() {
    let mut game = game_on(STARTING_BOARD.to_string(), Turn::Red);
    assert_eq!(make_move(&mut game, "black", 5, 0, 4, 1, 1000), Err(GameError::NotYourTurn));
    assert_eq!(make_move(&mut game, "red", 2, 1, 3, 0, 5000), Ok(false));
    assert_eq!(game.move_count, 1);
    assert_eq!(game.moves.len(), 1);
    assert_eq!(game.updated_at, 5000);
    assert_eq!(game.current_turn, Turn::Black);
}

#[test]
fn make_move_after_time_runs_out_ends_game() {
    let mut game = CheckersGame::new_timed("g".to_string(), Some("red".to_string()), PlayerType::Human, TimeControl::Bullet1_0);
    game.black_player = Some("black".to_string());
    game.status = GameStatus::Active;
    game.clock.as_mut().unwrap().start(0);
    assert_eq!(make_move(&mut game, "red", 2, 1, 3, 0, 70_000_000), Err(GameError::TimeExpired));
    assert_eq!(game.status, GameStatus::Finished);
    assert_eq!(game.result, Some(GameResult::BlackWins));
}

#[test]
fn resign_gives_the_other_side_the_win() {
    let mut game = game_on(STARTING_BOARD.to_string(), Turn::Red);
    assert_eq!(resign(&mut game, "nobody", 1), Err(GameError::NotInThisGame));
    assert!(resign(&mut game, "black", 1).is_ok());
    assert_eq!(game.result, Some(GameResult::RedWins));
}

#[test]
fn ai_prefers_a_capture() {
    let board = board_with(&[(2, 1, Piece::Red), (3, 2, Piece::Black), (2, 5, Piece::Red)]);
    let game = game_on(board, Turn::Red);
    assert_eq!(calculate_ai_move(&game), Some((2, 1, 4, 3)));
    let none = game_on(board_with(&[(7, 0, Piece::Black)]), Turn::Red);
    assert_eq!(calculate_ai_move(&none), None);
}

#[test]
fn elo_round_trip_from_1200() {
    assert_eq!(next_rating(1200, 1200, 0, Outcome::Win), 1216);
    assert_eq!(next_rating(1200, 1200, 0, Outcome::Loss), 1184);
    assert_eq!(next_rating(1184, 1216, 1, Outcome::Win), 1201);
    assert_eq!(next_rating(1216, 1184, 1, Outcome::Loss), 1199);
}

#[test]
fn elo_exact_values() {
    assert_eq!(next_rating(1200, 1400, 0, Outcome::Win), 1224);
    assert_eq!(next_rating(1200, 1000, 0, Outcome::Win), 1208);
    assert_eq!(next_rating(1200, 1200, 0, Outcome::Draw), 1200);
    assert_eq!(next_rating(1200, 1200, 30, Outcome::Win), 1208);
    assert_eq!(next_rating(1500, 1200, 30, Outcome::Draw), 1494);
}

#[test]
fn ratings_clamp_at_both_ends() {
    let mut stats = PlayerStats::default();
    for _ in 0..200 {
        let own = stats.rapid_rating;
        stats.update_rating(own, Outcome::Loss, &TimeControl::Rapid10_0);
    }
    assert_eq!(stats.rapid_rating, 100);
    for _ in 0..400 {
        let own = stats.rapid_rating;
        stats.update_rating(own, Outcome::Win, &TimeControl::Rapid10_0);
    }
    assert_eq!(stats.rapid_rating, 3000);
    stats.update_rating(100, Outcome::Win, &TimeControl::Rapid10_0);
    assert_eq!(stats.rapid_rating, 3000);
}
