//! The rules of a move: legality, forced capture, chain jumps, promotion, and
//! the end-of-game test.
use vstd::prelude::*;
use crate::board::{
    black_bit, black_count, board_at, char_of_piece, count_pieces, dark_square, get_piece,
    is_valid_square, lemma_board_after_put, lemma_piece_char_round_trip, lemma_put_counts,
    put_piece, red_bit, red_count, rows_of, set_piece, well_formed,
};
use crate::game::CheckersGame;
use crate::types::{CheckersMove, GameResult, GameStatus, Piece, Turn};

verus! {

/// Why a move was refused.
#[derive(Debug, Clone, Copy, PartialEq, Eq, Structural)]
pub enum MoveError {
    InvalidSquare,
    NotYourPiece,
    DestinationOccupied,
    MustMoveDiagonally,
    InvalidDirection,
    MustCapture,
    NoPieceToCapture,
    InvalidCaptureDirection,
    InvalidMoveDistance,
}

impl MoveError {
    /// The text shown to a player.
    pub fn message(&self) -> (r: String) {
        match self {
            MoveError::InvalidSquare => String::from_str("Invalid square"),
            MoveError::NotYourPiece => String::from_str("Not your piece"),
            MoveError::DestinationOccupied => String::from_str("Destination not empty"),
            MoveError::MustMoveDiagonally => String::from_str("Must move diagonally"),
            MoveError::InvalidDirection => String::from_str("Invalid direction"),
            MoveError::MustCapture => String::from_str("Must capture"),
            MoveError::NoPieceToCapture => String::from_str("No piece to capture"),
            MoveError::InvalidCaptureDirection => String::from_str("Invalid capture direction"),
            MoveError::InvalidMoveDistance => String::from_str("Invalid move distance"),
        }
    }
}

pub open spec fn on_board(r: int, c: int) -> bool {
    0 <= r < 8 && 0 <= c < 8
}

/// `p` may travel in row direction `dr` when `t` is to move: kings both ways,
/// Red down the rows, Black up.
pub open spec fn may_go(t: Turn, p: Piece, dr: int) -> bool {
    p.king() || (t == Turn::Red && dr == 1) || (t == Turn::Black && dr == -1)
}

/// From (`r`, `c`), the square `(dr, dc)` away holds an opponent of `t` and the
/// square beyond it is on the board and empty.
pub open spec fn jump_open(s: Seq<char>, t: Turn, r: int, c: int, dr: int, dc: int) -> bool {
    &&& on_board(r + 2 * dr, c + 2 * dc)
    &&& t.other().owns(board_at(s, r + dr, c + dc))
    &&& board_at(s, r + 2 * dr, c + 2 * dc) == Piece::Empty
}

pub open spec fn step_open(s: Seq<char>, r: int, c: int, dr: int, dc: int) -> bool {
    on_board(r + dr, c + dc) && board_at(s, r + dr, c + dc) == Piece::Empty
}

/// Piece `p` on (`r`, `c`) can capture when `t` is to move.
pub open spec fn can_capture_from(s: Seq<char>, t: Turn, r: int, c: int, p: Piece) -> bool {
    ||| may_go(t, p, 1) && (jump_open(s, t, r, c, 1, -1) || jump_open(s, t, r, c, 1, 1))
    ||| may_go(t, p, -1) && (jump_open(s, t, r, c, -1, -1) || jump_open(s, t, r, c, -1, 1))
}

/// Piece `p` on (`r`, `c`) has a one-square move when `t` is to move.
pub open spec fn can_step_from(s: Seq<char>, t: Turn, r: int, c: int, p: Piece) -> bool {
    ||| may_go(t, p, 1) && (step_open(s, r, c, 1, -1) || step_open(s, r, c, 1, 1))
    ||| may_go(t, p, -1) && (step_open(s, r, c, -1, -1) || step_open(s, r, c, -1, 1))
}

/// Some piece of the side to move can capture.
pub open spec fn capture_available(s: Seq<char>, t: Turn) -> bool {
    exists|r: int, c: int|
        on_board(r, c) && t.owns(board_at(s, r, c)) && #[trigger] can_capture_from(
            s,
            t,
            r,
            c,
            board_at(s, r, c),
        )
}

/// Some piece of the side to move can capture or step.
pub open spec fn any_move(s: Seq<char>, t: Turn) -> bool {
    exists|r: int, c: int|
        on_board(r, c) && t.owns(board_at(s, r, c)) && (#[trigger] can_capture_from(
            s,
            t,
            r,
            c,
            board_at(s, r, c),
        ) || can_step_from(s, t, r, c, board_at(s, r, c)))
}

pub open spec fn abs(x: int) -> int {
    if x < 0 {
        -x
    } else {
        x
    }
}

/// Toward the opponent's back rank.
pub open spec fn forward(t: Turn, from_row: int, to_row: int) -> bool {
    match t {
        Turn::Red => to_row > from_row,
        Turn::Black => to_row < from_row,
    }
}

pub open spec fn promotes(p: Piece, to_row: int) -> bool {
    (p == Piece::Red && to_row == 7) || (p == Piece::Black && to_row == 0)
}

pub open spec fn landed(p: Piece, to_row: int) -> Piece {
    if promotes(p, to_row) {
        p.kinged()
    } else {
        p
    }
}

/// The first rule that the move (`fr`, `fc`) to (`tr`, `tc`) breaks, if any.
pub open spec fn move_error(s: Seq<char>, t: Turn, fr: int, fc: int, tr: int, tc: int) -> Option<
    MoveError,
> {
    let p = board_at(s, fr, fc);
    let dist = abs(tr - fr);
    if !(dark_square(fr, fc) && dark_square(tr, tc)) {
        Some(MoveError::InvalidSquare)
    } else if !t.owns(p) {
        Some(MoveError::NotYourPiece)
    } else if board_at(s, tr, tc) != Piece::Empty {
        Some(MoveError::DestinationOccupied)
    } else if dist != abs(tc - fc) {
        Some(MoveError::MustMoveDiagonally)
    } else if dist == 1 {
        if !p.king() && !forward(t, fr, tr) {
            Some(MoveError::InvalidDirection)
        } else if capture_available(s, t) {
            Some(MoveError::MustCapture)
        } else {
            None
        }
    } else if dist == 2 {
        if !t.other().owns(board_at(s, (fr + tr) / 2, (fc + tc) / 2)) {
            Some(MoveError::NoPieceToCapture)
        } else if !p.king() && !forward(t, fr, tr) {
            Some(MoveError::InvalidCaptureDirection)
        } else {
            None
        }
    } else {
        Some(MoveError::InvalidMoveDistance)
    }
}

/// The board after a legal move.
pub open spec fn board_after(s: Seq<char>, fr: int, fc: int, tr: int, tc: int) -> Seq<char> {
    let p = board_at(s, fr, fc);
    let cleared = put_piece(s, fr, fc, Piece::Empty);
    if abs(tr - fr) == 2 {
        put_piece(put_piece(cleared, (fr + tr) / 2, (fc + tc) / 2, Piece::Empty), tr, tc, landed(p, tr))
    } else {
        put_piece(cleared, tr, tc, landed(p, tr))
    }
}

/// The side to move after a legal move: a capture that does not promote and
/// leaves the piece another capture keeps the turn.
pub open spec fn turn_after(s: Seq<char>, t: Turn, fr: int, fc: int, tr: int, tc: int) -> Turn {
    let p = board_at(s, fr, fc);
    if abs(tr - fr) == 2 && !promotes(p, tr) && can_capture_from(
        board_after(s, fr, fc, tr, tc),
        t,
        tr,
        tc,
        landed(p, tr),
    ) {
        t
    } else {
        t.other()
    }
}

/// `after` is `before` with only the board and the turn changed.
pub open spec fn only_position_changed(before: CheckersGame, after: CheckersGame) -> bool {
    &&& after.id == before.id
    &&& after.red_player == before.red_player
    &&& after.black_player == before.black_player
    &&& after.red_player_type == before.red_player_type
    &&& after.black_player_type == before.black_player_type
    &&& after.moves == before.moves
    &&& after.move_count == before.move_count
    &&& after.status == before.status
    &&& after.result == before.result
    &&& after.created_at == before.created_at
    &&& after.updated_at == before.updated_at
    &&& after.clock == before.clock
    &&& after.draw_offer == before.draw_offer
    &&& after.is_rated == before.is_rated
    &&& after.color_preference == before.color_preference
    &&& after.creator_wants_random == before.creator_wants_random
    &&& after.tournament_id == before.tournament_id
    &&& after.tournament_match_id == before.tournament_match_id
}

fn step_target(row: u8, col: u8, dr: i8, dc: i8) -> (r: Option<(u8, u8)>)
    requires
        row < 8,
        col < 8,
        -2 <= dr <= 2,
        -2 <= dc <= 2,
    ensures
        r == if on_board(row + dr, col + dc) {
            Some(((row + dr) as u8, (col + dc) as u8))
        } else {
            None::<(u8, u8)>
        },
{
    let r = row as i8 + dr;
    let c = col as i8 + dc;
    if r >= 0 && r < 8 && c >= 0 && c < 8 {
        Some((r as u8, c as u8))
    } else {
        None
    }
}

fn owned_by(turn: Turn, piece: Piece) -> (r: bool)
    ensures
        r == turn.owns(piece),
{
    match turn {
        Turn::Red => piece.is_red(),
        Turn::Black => piece.is_black(),
    }
}

fn jump_is_open(board: &str, turn: Turn, row: u8, col: u8, dr: i8, dc: i8) -> (r: bool)
    requires
        row < 8,
        col < 8,
        dr == 1 || dr == -1,
        dc == 1 || dc == -1,
    ensures
        r == jump_open(board@, turn, row as int, col as int, dr as int, dc as int),
{
    match step_target(row, col, 2 * dr, 2 * dc) {
        Some((to_r, to_c)) => {
            let mid_r = (row as i8 + dr) as u8;
            let mid_c = (col as i8 + dc) as u8;
            let mid_piece = get_piece(board, mid_r, mid_c);
            let to_piece = get_piece(board, to_r, to_c);
            owned_by(turn.opposite(), mid_piece) && to_piece.is_empty()
        },
        None => false,
    }
}

fn step_is_open(board: &str, row: u8, col: u8, dr: i8, dc: i8) -> (r: bool)
    requires
        row < 8,
        col < 8,
        dr == 1 || dr == -1,
        dc == 1 || dc == -1,
    ensures
        r == step_open(board@, row as int, col as int, dr as int, dc as int),
{
    match step_target(row, col, dr, dc) {
        Some((to_r, to_c)) => get_piece(board, to_r, to_c).is_empty(),
        None => false,
    }
}

fn goes(turn: Turn, piece: Piece, dr: i8) -> (r: bool)
    requires
        dr == 1 || dr == -1,
    ensures
        r == may_go(turn, piece, dr as int),
{
    piece.is_king() || (turn == Turn::Red && dr == 1) || (turn == Turn::Black && dr == -1)
}

/// Whether `piece`, standing on (`row`, `col`), can capture with `turn` to move.
pub fn piece_has_capture(board: &str, turn: Turn, row: u8, col: u8, piece: Piece) -> (r: bool)
    requires
        row < 8,
        col < 8,
    ensures
        r == can_capture_from(board@, turn, row as int, col as int, piece),
{
    (goes(turn, piece, 1) && (jump_is_open(board, turn, row, col, 1, -1) || jump_is_open(
        board,
        turn,
        row,
        col,
        1,
        1,
    ))) || (goes(turn, piece, -1) && (jump_is_open(board, turn, row, col, -1, -1)
        || jump_is_open(board, turn, row, col, -1, 1)))
}

/// Whether `piece`, standing on (`row`, `col`), has a one-square move.
pub fn piece_has_simple_move(board: &str, turn: Turn, row: u8, col: u8, piece: Piece) -> (r: bool)
    requires
        row < 8,
        col < 8,
    ensures
        r == can_step_from(board@, turn, row as int, col as int, piece),
{
    (goes(turn, piece, 1) && (step_is_open(board, row, col, 1, -1) || step_is_open(
        board,
        row,
        col,
        1,
        1,
    ))) || (goes(turn, piece, -1) && (step_is_open(board, row, col, -1, -1) || step_is_open(
        board,
        row,
        col,
        -1,
        1,
    )))
}

/// Whether any piece of the side to move can capture, anywhere on the board.
pub fn has_capture_available(board: &str, turn: Turn) -> (r: bool)
    ensures
        r == capture_available(board@, turn),
{
    let mut i: u8 = 0;
    while i < 64
        invariant
            i <= 64,
            forall|j: int|
                0 <= j < i ==> !(turn.owns(board_at(board@, j / 8, j % 8)) && #[trigger] can_capture_from(
                    board@,
                    turn,
                    j / 8,
                    j % 8,
                    board_at(board@, j / 8, j % 8),
                )),
        decreases 64 - i,
    {
        let row = i / 8;
        let col = i % 8;
        let piece = get_piece(board, row, col);
        if owned_by(turn, piece) && piece_has_capture(board, turn, row, col, piece) {
            assert(on_board(row as int, col as int));
            return true;
        }
        i = i + 1;
    }
    assert forall|r: int, c: int| on_board(r, c) implies !(turn.owns(board_at(board@, r, c))
        && #[trigger] can_capture_from(board@, turn, r, c, board_at(board@, r, c))) by {
        let j = 8 * r + c;
        assert(j / 8 == r && j % 8 == c);
        assert(0 <= j < 64);
    }
    false
}

/// Whether the side to move has any capture or one-square move.
pub fn has_any_valid_move(board: &str, turn: Turn) -> (r: bool)
    ensures
        r == any_move(board@, turn),
{
    let mut i: u8 = 0;
    while i < 64
        invariant
            i <= 64,
            forall|j: int|
                0 <= j < i ==> !(turn.owns(board_at(board@, j / 8, j % 8)) && (
                #[trigger] can_capture_from(
                    board@,
                    turn,
                    j / 8,
                    j % 8,
                    board_at(board@, j / 8, j % 8),
                ) || can_step_from(board@, turn, j / 8, j % 8, board_at(board@, j / 8, j % 8)))),
        decreases 64 - i,
    {
        let row = i / 8;
        let col = i % 8;
        let piece = get_piece(board, row, col);
        if owned_by(turn, piece) {
            if piece_has_capture(board, turn, row, col, piece) {
                assert(on_board(row as int, col as int));
                return true;
            }
            if piece_has_simple_move(board, turn, row, col, piece) {
                assert(on_board(row as int, col as int));
                assert(can_step_from(board@, turn, row as int, col as int, board_at(board@, row as int, col as int)));
                return true;
            }
        }
        i = i + 1;
    }
    assert forall|r: int, c: int| on_board(r, c) implies !(turn.owns(board_at(board@, r, c)) && (
    #[trigger] can_capture_from(board@, turn, r, c, board_at(board@, r, c)) || can_step_from(
        board@,
        turn,
        r,
        c,
        board_at(board@, r, c),
    ))) by {
        let j = 8 * r + c;
        assert(j / 8 == r && j % 8 == c);
        assert(0 <= j < 64);
        assert(!(turn.owns(board_at(board@, j / 8, j % 8)) && (can_capture_from(
            board@,
            turn,
            j / 8,
            j % 8,
            board_at(board@, j / 8, j % 8),
        ) || can_step_from(board@, turn, j / 8, j % 8, board_at(board@, j / 8, j % 8)))));
    }
    false
}

/// Whether `piece` becomes a king on reaching `to_row`.
pub fn check_promotion(piece: Piece, to_row: u8) -> (r: bool)
    ensures
        r == promotes(piece, to_row as int),
{
    match piece {
        Piece::Red => to_row == 7,
        Piece::Black => to_row == 0,
        _ => false,
    }
}

/// The history record of a legal move made at time `ts`.
pub open spec fn move_record(s: Seq<char>, fr: u8, fc: u8, tr: u8, tc: u8, ts: u64) -> CheckersMove {
    let p = board_at(s, fr as int, fc as int);
    let capture = abs(tr - fr) == 2;
    CheckersMove {
        from_row: fr,
        from_col: fc,
        to_row: tr,
        to_col: tc,
        captured_row: if capture {
            Some(((fr + tr) / 2) as u8)
        } else {
            None
        },
        captured_col: if capture {
            Some(((fc + tc) / 2) as u8)
        } else {
            None
        },
        promoted: promotes(p, tr as int),
        timestamp: ts,
    }
}

/// Checks the move (`from_row`, `from_col`) to (`to_row`, `to_col`) for the side
/// to move and, when it is legal, plays it: the piece moves, a jumped piece is
/// removed, a man reaching the far row is crowned, and the turn passes unless
/// the same piece must go on jumping. A refused move changes nothing.
pub fn validate_and_execute_move(
    game: &mut CheckersGame,
    from_row: u8,
    from_col: u8,
    to_row: u8,
    to_col: u8,
) -> (r: Result<CheckersMove, MoveError>)
    ensures
        match r {
            Err(e) => move_error(
                old(game).board_state@,
                old(game).current_turn,
                from_row as int,
                from_col as int,
                to_row as int,
                to_col as int,
            ) == Some(e) && *final(game) == *old(game),
            Ok(m) => {
                &&& move_error(
                    old(game).board_state@,
                    old(game).current_turn,
                    from_row as int,
                    from_col as int,
                    to_row as int,
                    to_col as int,
                ) == None::<MoveError>
                &&& final(game).board_state@ == board_after(
                    old(game).board_state@,
                    from_row as int,
                    from_col as int,
                    to_row as int,
                    to_col as int,
                )
                &&& final(game).current_turn == turn_after(
                    old(game).board_state@,
                    old(game).current_turn,
                    from_row as int,
                    from_col as int,
                    to_row as int,
                    to_col as int,
                )
                &&& only_position_changed(*old(game), *final(game))
                &&& m == move_record(
                    old(game).board_state@,
                    from_row,
                    from_col,
                    to_row,
                    to_col,
                    old(game).updated_at,
                )
            },
        },
{
    if !is_valid_square(from_row, from_col) || !is_valid_square(to_row, to_col) {
        return Err(MoveError::InvalidSquare);
    }
    let turn = game.current_turn;
    let piece = get_piece(&game.board_state, from_row, from_col);
    if !owned_by(turn, piece) {
        return Err(MoveError::NotYourPiece);
    }
    if !get_piece(&game.board_state, to_row, to_col).is_empty() {
        return Err(MoveError::DestinationOccupied);
    }
    let row_diff: u8 = if to_row > from_row {
        to_row - from_row
    } else {
        from_row - to_row
    };
    let col_diff: u8 = if to_col > from_col {
        to_col - from_col
    } else {
        from_col - to_col
    };
    if row_diff != col_diff {
        return Err(MoveError::MustMoveDiagonally);
    }
    let mut checkers_move = CheckersMove::new(from_row, from_col, to_row, to_col);
    checkers_move.timestamp = game.updated_at;
    let forward_move = match turn {
        Turn::Red => to_row > from_row,
        Turn::Black => to_row < from_row,
    };
    if row_diff == 1 {
        if !piece.is_king() && !forward_move {
            return Err(MoveError::InvalidDirection);
        }
        if has_capture_available(&game.board_state, turn) {
            return Err(MoveError::MustCapture);
        }
        let cleared = set_piece(&game.board_state, from_row, from_col, Piece::Empty);
        let promoted = check_promotion(piece, to_row);
        let final_piece = if promoted {
            piece.to_king()
        } else {
            piece
        };
        game.board_state = set_piece(&cleared, to_row, to_col, final_piece);
        if promoted {
            checkers_move = checkers_move.with_promotion();
        }
        game.current_turn = turn.opposite();
        return Ok(checkers_move);
    }
    if row_diff == 2 {
        let mid_row = (from_row + to_row) / 2;
        let mid_col = (from_col + to_col) / 2;
        let captured = get_piece(&game.board_state, mid_row, mid_col);
        if !owned_by(turn.opposite(), captured) {
            return Err(MoveError::NoPieceToCapture);
        }
        if !piece.is_king() && !forward_move {
            return Err(MoveError::InvalidCaptureDirection);
        }
        let cleared = set_piece(&game.board_state, from_row, from_col, Piece::Empty);
        let jumped = set_piece(&cleared, mid_row, mid_col, Piece::Empty);
        let promoted = check_promotion(piece, to_row);
        let final_piece = if promoted {
            piece.to_king()
        } else {
            piece
        };
        game.board_state = set_piece(&jumped, to_row, to_col, final_piece);
        checkers_move = checkers_move.with_capture(mid_row, mid_col);
        if promoted {
            checkers_move = checkers_move.with_promotion();
        }
        let can_continue_jumping = !promoted && piece_has_capture(
            &game.board_state,
            turn,
            to_row,
            to_col,
            final_piece,
        );
        if !can_continue_jumping {
            game.current_turn = turn.opposite();
        }
        return Ok(checkers_move);
    }
    Err(MoveError::InvalidMoveDistance)
}

/// How the position ends the game, if it does: a side without pieces loses,
/// and so does a side to move without a legal move.
pub open spec fn position_result(s: Seq<char>, t: Turn) -> Option<GameResult> {
    if red_count(s) == 0 {
        Some(GameResult::BlackWins)
    } else if black_count(s) == 0 {
        Some(GameResult::RedWins)
    } else if !any_move(s, t) {
        Some(
            match t {
                Turn::Red => GameResult::BlackWins,
                Turn::Black => GameResult::RedWins,
            },
        )
    } else {
        None
    }
}

/// Ends the game when its position decides it; returns whether it did.
pub fn check_game_over(game: &mut CheckersGame) -> (over: bool)
    requires
        red_count(old(game).board_state@) <= 255,
        black_count(old(game).board_state@) <= 255,
    ensures
        over == position_result(old(game).board_state@, old(game).current_turn).is_some(),
        *final(game) == match position_result(old(game).board_state@, old(game).current_turn) {
            Some(res) => old(game).ended_as(res),
            None => *old(game),
        },
{
    let (red, black) = count_pieces(&game.board_state);
    if red == 0 {
        game.status = GameStatus::Finished;
        game.result = Some(GameResult::BlackWins);
        return true;
    }
    if black == 0 {
        game.status = GameStatus::Finished;
        game.result = Some(GameResult::RedWins);
        return true;
    }
    if !has_any_valid_move(&game.board_state, game.current_turn) {
        game.status = GameStatus::Finished;
        game.result = Some(
            match game.current_turn {
                Turn::Red => GameResult::BlackWins,
                Turn::Black => GameResult::RedWins,
            },
        );
        return true;
    }
    false
}

/// On a board of eight rows of eight, a legal one-square move leaves both
/// piece counts as they were, and a legal jump takes exactly one piece from
/// the side not moving.
pub proof fn law_move_counts(s: Seq<char>, t: Turn, fr: int, fc: int, tr: int, tc: int)
    requires
        well_formed(s),
        move_error(s, t, fr, fc, tr, tc) == None::<MoveError>,
    ensures
        abs(tr - fr) == 1 ==> red_count(board_after(s, fr, fc, tr, tc)) == red_count(s)
            && black_count(board_after(s, fr, fc, tr, tc)) == black_count(s),
        abs(tr - fr) == 2 && t == Turn::Red ==> red_count(board_after(s, fr, fc, tr, tc))
            == red_count(s) && black_count(board_after(s, fr, fc, tr, tc)) == black_count(s) - 1,
        abs(tr - fr) == 2 && t == Turn::Black ==> black_count(board_after(s, fr, fc, tr, tc))
            == black_count(s) && red_count(board_after(s, fr, fc, tr, tc)) == red_count(s) - 1,
{
    let p = board_at(s, fr, fc);
    let q = landed(p, tr);
    let s1 = put_piece(s, fr, fc, Piece::Empty);
    assert(rows_of(s)[fr].len() == 8);
    assert(rows_of(s)[tr].len() == 8);
    lemma_piece_char_round_trip(Piece::Empty, fr, fc);
    lemma_put_counts(s, fr, fc, char_of_piece(Piece::Empty, fr, fc));
    lemma_board_after_put(s, fr, fc, Piece::Empty);
    assert(red_bit(q) == red_bit(p) && black_bit(q) == black_bit(p));
    if abs(tr - fr) == 2 {
        let mr = (fr + tr) / 2;
        let mc = (fc + tc) / 2;
        assert(rows_of(s1)[mr].len() == 8);
        let s2 = put_piece(s1, mr, mc, Piece::Empty);
        lemma_piece_char_round_trip(Piece::Empty, mr, mc);
        lemma_put_counts(s1, mr, mc, char_of_piece(Piece::Empty, mr, mc));
        lemma_board_after_put(s1, mr, mc, Piece::Empty);
        assert(rows_of(s2)[tr].len() == 8);
        lemma_piece_char_round_trip(q, tr, tc);
        lemma_put_counts(s2, tr, tc, char_of_piece(q, tr, tc));
    } else {
        assert(rows_of(s1)[tr].len() == 8);
        lemma_piece_char_round_trip(q, tr, tc);
        lemma_put_counts(s1, tr, tc, char_of_piece(q, tr, tc));
    }
}

/// While some piece of the side to move can capture, every one-square move
/// is refused, and one that breaks no earlier rule is refused as `MustCapture`.
pub proof fn law_capture_is_forced(s: Seq<char>, t: Turn, fr: int, fc: int, tr: int, tc: int)
    requires
        capture_available(s, t),
        abs(tr - fr) == 1,
    ensures
        move_error(s, t, fr, fc, tr, tc).is_some(),
        dark_square(fr, fc) && dark_square(tr, tc) && t.owns(board_at(s, fr, fc)) && board_at(
            s,
            tr,
            tc,
        ) == Piece::Empty && abs(tc - fc) == 1 && (board_at(s, fr, fc).king() || forward(
            t,
            fr,
            tr,
        )) ==> move_error(s, t, fr, fc, tr, tc) == Some(MoveError::MustCapture),
{
}

/// A man never moves or jumps backward: any such move is refused.
pub proof fn law_men_never_retreat(s: Seq<char>, t: Turn, fr: int, fc: int, tr: int, tc: int)
    requires
        !board_at(s, fr, fc).king(),
        !forward(t, fr, tr),
    ensures
        move_error(s, t, fr, fc, tr, tc).is_some(),
{
}

/// Chain jumps: after a legal capture that does not crown the piece, the
/// same side moves again exactly when the landed piece can capture again;
/// after a crowning capture, and after every one-square move, the turn passes.
pub proof fn law_chain_jump(s: Seq<char>, t: Turn, fr: int, fc: int, tr: int, tc: int)
    requires
        move_error(s, t, fr, fc, tr, tc) == None::<MoveError>,
    ensures
        abs(tr - fr) == 2 && !promotes(board_at(s, fr, fc), tr) ==> (turn_after(s, t, fr, fc, tr, tc)
            == t <==> can_capture_from(
            board_after(s, fr, fc, tr, tc),
            t,
            tr,
            tc,
            landed(board_at(s, fr, fc), tr),
        )),
        abs(tr - fr) == 2 && promotes(board_at(s, fr, fc), tr) ==> turn_after(s, t, fr, fc, tr, tc)
            == t.other(),
        abs(tr - fr) == 1 ==> turn_after(s, t, fr, fc, tr, tc) == t.other(),
{
}

} // verus!
