//! The game operations a player performs: moving, resigning, draw offers,
//! and claiming a win on time. Each takes the game as loaded and the time of
//! the request, and changes the game only when it succeeds (a move made after
//! the mover's time ran out ends the game instead).
use vstd::prelude::*;
use crate::board::{
    black_count, char_of_piece, lemma_piece_char_round_trip, lemma_put_rows, put_piece, red_count,
};
use crate::clock::Clock;
use crate::game::{opt_text, CheckersGame};
use crate::rules::{
    board_after, check_game_over, move_error, move_record, position_result, turn_after,
    validate_and_execute_move, MoveError,
};
use crate::ai::{ai_candidate, ai_choice, calculate_ai_move, lemma_candidate_legal, piece_moves, pieces_on_dark};
use crate::board::board_at;
use crate::board::STARTING_BOARD;
use crate::types::{CheckersMove, ColorPreference, DrawOfferState, GameResult, GameStatus, Piece, PlayerType, TimeControl, Turn};

verus! {

/// Why a game operation was refused.
#[derive(Debug, Clone, Copy, PartialEq, Eq, Structural)]
pub enum GameError {
    GameNotActive,
    NotYourTurn,
    NotInThisGame,
    TimeExpired,
    IllegalMove(MoveError),
    DrawsNotAllowedInTournament,
    DrawAlreadyOffered,
    NoDrawOfferToAccept,
    NoDrawOfferToDecline,
    NotATimedGame,
    YouTimedOut,
    OpponentNotTimedOut,
    NotAiTurn,
    GameNotAvailable,
    CannotJoinOwnGame,
}

/// The result when `side` runs out of time or resigns.
pub open spec fn loss_for(side: Turn) -> GameResult {
    match side {
        Turn::Red => GameResult::BlackWins,
        Turn::Black => GameResult::RedWins,
    }
}

fn loss_of(side: Turn) -> (r: GameResult)
    ensures
        r == loss_for(side),
{
    match side {
        Turn::Red => GameResult::BlackWins,
        Turn::Black => GameResult::RedWins,
    }
}

/// The seat of `player`: Red if it holds the red seat, else Black if the black.
pub open spec fn seat_of(g: CheckersGame, player: Seq<char>) -> Option<Turn> {
    if opt_text(g.red_player) == Some(player) {
        Some(Turn::Red)
    } else if opt_text(g.black_player) == Some(player) {
        Some(Turn::Black)
    } else {
        None
    }
}

fn seat(game: &CheckersGame, player: &str) -> (r: Option<Turn>)
    ensures
        r == seat_of(*game, player@),
{
    let who = String::from_str(player);
    let is_red = match &game.red_player {
        Some(p) => *p == who,
        None => false,
    };
    if is_red {
        return Some(Turn::Red);
    }
    let is_black = match &game.black_player {
        Some(p) => *p == who,
        None => false,
    };
    if is_black {
        Some(Turn::Black)
    } else {
        None
    }
}

pub open spec fn clock_fits(c: Option<Clock>) -> bool {
    match c {
        Some(k) => k.red_time_ms + k.increment_ms <= u64::MAX && k.black_time_ms + k.increment_ms
            <= u64::MAX,
        None => true,
    }
}

/// A game that a move can be played on: its counters and clock have room.
pub open spec fn playable(g: CheckersGame) -> bool {
    &&& g.move_count < u32::MAX
    &&& g.board_state@.len() <= 255
    &&& clock_fits(g.clock)
}

proof fn lemma_counts_le_len(s: Seq<char>)
    ensures
        red_count(s) <= s.len(),
        black_count(s) <= s.len(),
    decreases s.len(),
{
    if s.len() > 0 {
        lemma_counts_le_len(s.drop_last());
    }
}

proof fn lemma_put_len(s: Seq<char>, r: int, c: int, p: Piece)
    ensures
        put_piece(s, r, c, p).len() == s.len(),
{
    lemma_piece_char_round_trip(p, r, c);
    lemma_put_rows(s, r, c, char_of_piece(p, r, c));
}

proof fn lemma_board_after_len(s: Seq<char>, fr: int, fc: int, tr: int, tc: int)
    ensures
        board_after(s, fr, fc, tr, tc).len() == s.len(),
{
    let p = crate::board::board_at(s, fr, fc);
    let s1 = put_piece(s, fr, fc, Piece::Empty);
    lemma_put_len(s, fr, fc, Piece::Empty);
    let s2 = put_piece(s1, (fr + tr) / 2, (fc + tc) / 2, Piece::Empty);
    lemma_put_len(s1, (fr + tr) / 2, (fc + tc) / 2, Piece::Empty);
    lemma_put_len(s2, tr, tc, crate::rules::landed(p, tr));
    lemma_put_len(s1, tr, tc, crate::rules::landed(p, tr));
}

/// The clock after a move at `now` is charged to it.
pub open spec fn clock_charged(c: Clock, now: u64) -> Clock {
    match c.active_player {
        Some(side) => if c.elapsed(now) >= c.time_of(side) {
            match side {
                Turn::Red => Clock { red_time_ms: 0, ..c },
                Turn::Black => Clock { black_time_ms: 0, ..c },
            }
        } else {
            c.after_move(side, now)
        },
        None => c,
    }
}

/// The time of a request in milliseconds, from microseconds.
pub open spec fn millis(now: u64) -> u64 {
    (now / 1000) as u64
}

/// `player` moves (`from_row`, `from_col`) to (`to_row`, `to_col`) at `now`
/// (microseconds). The game must be active and the player to move. If the
/// mover's time has already run out, the game ends as a loss on time and
/// `TimeExpired` is returned. Otherwise the move is checked; a legal move is
/// played and recorded, the clock charged, any draw offer withdrawn, and the
/// end of the game detected. Returns whether the game is over.
pub fn make_move(
    game: &mut CheckersGame,
    player: &str,
    from_row: u8,
    from_col: u8,
    to_row: u8,
    to_col: u8,
    now: u64,
) -> (r: Result<bool, GameError>)
    requires
        playable(*old(game)),
    ensures
        old(game).status != GameStatus::Active ==> r == Err::<bool, GameError>(GameError::GameNotActive),
        old(game).status == GameStatus::Active && !old(game).can_move(player@) ==> r == Err::<
            bool,
            GameError,
        >(GameError::NotYourTurn),
        r == Err::<bool, GameError>(GameError::TimeExpired) <==> old(game).status == GameStatus::Active
            && old(game).can_move(player@) && old(game).clock.is_some()
            && old(game).clock.unwrap().flag_fallen(millis(now)).is_some(),
        r == Err::<bool, GameError>(GameError::TimeExpired) ==> *final(game) == (CheckersGame {
            status: GameStatus::Finished,
            result: Some(loss_for(old(game).clock.unwrap().flag_fallen(millis(now)).unwrap())),
            updated_at: now,
            ..*old(game)
        }),
        old(game).status == GameStatus::Active && old(game).can_move(player@) && !(
        old(game).clock.is_some() && old(game).clock.unwrap().flag_fallen(millis(now)).is_some())
            ==> match move_error(
            old(game).board_state@,
            old(game).current_turn,
            from_row as int,
            from_col as int,
            to_row as int,
            to_col as int,
        ) {
            Some(e) => r == Err::<bool, GameError>(GameError::IllegalMove(e)),
            None => r.is_ok(),
        },
        r.is_err() && r != Err::<bool, GameError>(GameError::TimeExpired) ==> *final(game) == *old(
            game,
        ),
        r.is_ok() ==> {
            &&& move_error(
                old(game).board_state@,
                old(game).current_turn,
                from_row as int,
                from_col as int,
                to_row as int,
                to_col as int,
            ) == None::<MoveError>
            &&& final(game).board_state@ == board_after(
                old(game).board_state@,
                from_row as int,
                from_col as int,
                to_row as int,
                to_col as int,
            )
            &&& final(game).current_turn == turn_after(
                old(game).board_state@,
                old(game).current_turn,
                from_row as int,
                from_col as int,
                to_row as int,
                to_col as int,
            )
            &&& final(game).moves@ == old(game).moves@.push(
                move_record(
                    old(game).board_state@,
                    from_row,
                    from_col,
                    to_row,
                    to_col,
                    old(game).updated_at,
                ),
            )
            &&& final(game).move_count == old(game).move_count + 1
            &&& final(game).updated_at == now
            &&& final(game).draw_offer == DrawOfferState::NoOffer
            &&& r == Ok::<bool, GameError>(final(game).status == GameStatus::Finished)
            &&& final(game).clock == match old(game).clock {
                Some(c) => Some(clock_charged(c, millis(now))),
                None => None,
            }
            &&& match position_result(final(game).board_state@, final(game).current_turn) {
                Some(res) => final(game).status == GameStatus::Finished && final(game).result == Some(
                    res,
                ),
                None => final(game).status == old(game).status && final(game).result == old(game).result,
            }
            &&& old(game).result.is_none() ==> (final(game).status == GameStatus::Finished
                <==> final(game).result.is_some())
        },
{
    if game.status != GameStatus::Active {
        return Err(GameError::GameNotActive);
    }
    if !game.can_player_move(player) {
        return Err(GameError::NotYourTurn);
    }
    let now_ms = now / 1000;
    match &game.clock {
        Some(clock) => match clock.timed_out(now_ms) {
            Some(side) => {
                game.status = GameStatus::Finished;
                game.result = Some(loss_of(side));
                game.updated_at = now;
                return Err(GameError::TimeExpired);
            },
            None => {},
        },
        None => {},
    }
    let ghost before = *game;
    let checkers_move = match validate_and_execute_move(game, from_row, from_col, to_row, to_col) {
        Ok(m) => m,
        Err(e) => {
            return Err(GameError::IllegalMove(e));
        },
    };
    game.moves.push(checkers_move);
    game.move_count = game.move_count + 1;
    game.updated_at = now;
    let mut flag_fell: Option<Turn> = None;
    match &mut game.clock {
        Some(clock) => {
            let running = clock.active_player;
            if !clock.make_move(now_ms) {
                flag_fell = running;
            }
        },
        None => {},
    }
    match flag_fell {
        Some(side) => {
            game.status = GameStatus::Finished;
            game.result = Some(loss_of(side));
        },
        None => {},
    }
    game.draw_offer = DrawOfferState::NoOffer;
    proof {
        lemma_board_after_len(before.board_state@, from_row as int, from_col as int, to_row as int, to_col as int);
        lemma_counts_le_len(game.board_state@);
    }
    check_game_over(game);
    Ok(game.status == GameStatus::Finished)
}

/// `player` resigns at `now`: the game ends as a loss for their seat.
pub fn resign(game: &mut CheckersGame, player: &str, now: u64) -> (r: Result<(), GameError>)
    ensures
        r == if old(game).status != GameStatus::Active {
            Err(GameError::GameNotActive)
        } else if seat_of(*old(game), player@).is_none() {
            Err(GameError::NotInThisGame)
        } else {
            Ok(())
        },
        r.is_ok() ==> *final(game) == (CheckersGame {
            status: GameStatus::Finished,
            result: Some(loss_for(seat_of(*old(game), player@).unwrap())),
            updated_at: now,
            ..*old(game)
        }),
        r.is_err() ==> *final(game) == *old(game),
{
    if game.status != GameStatus::Active {
        return Err(GameError::GameNotActive);
    }
    let side = match seat(game, player) {
        Some(s) => s,
        None => {
            return Err(GameError::NotInThisGame);
        },
    };
    game.status = GameStatus::Finished;
    game.result = Some(loss_of(side));
    game.updated_at = now;
    Ok(())
}

/// The offer a seat makes.
pub open spec fn offer_by(side: Turn) -> DrawOfferState {
    match side {
        Turn::Red => DrawOfferState::OfferedByRed,
        Turn::Black => DrawOfferState::OfferedByBlack,
    }
}

/// The offer standing is one that `side` may answer: the other seat made it.
pub open spec fn offered_to(offer: DrawOfferState, side: Turn) -> bool {
    offer == offer_by(side.other())
}

/// `player` offers a draw at `now`; not in tournament games, and not while
/// an offer stands.
pub fn offer_draw(game: &mut CheckersGame, player: &str, now: u64) -> (r: Result<(), GameError>)
    ensures
        r == if old(game).status != GameStatus::Active {
            Err(GameError::GameNotActive)
        } else if old(game).tournament_id.is_some() {
            Err(GameError::DrawsNotAllowedInTournament)
        } else if seat_of(*old(game), player@).is_none() {
            Err(GameError::NotInThisGame)
        } else if old(game).draw_offer != DrawOfferState::NoOffer {
            Err(GameError::DrawAlreadyOffered)
        } else {
            Ok(())
        },
        r.is_ok() ==> *final(game) == (CheckersGame {
            draw_offer: offer_by(seat_of(*old(game), player@).unwrap()),
            updated_at: now,
            ..*old(game)
        }),
        r.is_err() ==> *final(game) == *old(game),
{
    if game.status != GameStatus::Active {
        return Err(GameError::GameNotActive);
    }
    if game.tournament_id.is_some() {
        return Err(GameError::DrawsNotAllowedInTournament);
    }
    let side = match seat(game, player) {
        Some(s) => s,
        None => {
            return Err(GameError::NotInThisGame);
        },
    };
    if game.draw_offer != DrawOfferState::NoOffer {
        return Err(GameError::DrawAlreadyOffered);
    }
    game.draw_offer = match side {
        Turn::Red => DrawOfferState::OfferedByRed,
        Turn::Black => DrawOfferState::OfferedByBlack,
    };
    game.updated_at = now;
    Ok(())
}

fn may_answer(offer: DrawOfferState, side: Turn) -> (r: bool)
    ensures
        r == offered_to(offer, side),
{
    match (offer, side) {
        (DrawOfferState::OfferedByRed, Turn::Black) => true,
        (DrawOfferState::OfferedByBlack, Turn::Red) => true,
        _ => false,
    }
}

/// `player` accepts the opponent's draw offer at `now`: the game ends drawn.
pub fn accept_draw(game: &mut CheckersGame, player: &str, now: u64) -> (r: Result<(), GameError>)
    ensures
        r == if old(game).status != GameStatus::Active {
            Err(GameError::GameNotActive)
        } else if old(game).tournament_id.is_some() {
            Err(GameError::DrawsNotAllowedInTournament)
        } else if seat_of(*old(game), player@).is_none() {
            Err(GameError::NotInThisGame)
        } else if !offered_to(old(game).draw_offer, seat_of(*old(game), player@).unwrap()) {
            Err(GameError::NoDrawOfferToAccept)
        } else {
            Ok(())
        },
        r.is_ok() ==> *final(game) == (CheckersGame {
            status: GameStatus::Finished,
            result: Some(GameResult::Draw),
            draw_offer: DrawOfferState::NoOffer,
            updated_at: now,
            ..*old(game)
        }),
        r.is_err() ==> *final(game) == *old(game),
{
    if game.status != GameStatus::Active {
        return Err(GameError::GameNotActive);
    }
    if game.tournament_id.is_some() {
        return Err(GameError::DrawsNotAllowedInTournament);
    }
    let side = match seat(game, player) {
        Some(s) => s,
        None => {
            return Err(GameError::NotInThisGame);
        },
    };
    if !may_answer(game.draw_offer, side) {
        return Err(GameError::NoDrawOfferToAccept);
    }
    game.status = GameStatus::Finished;
    game.result = Some(GameResult::Draw);
    game.draw_offer = DrawOfferState::NoOffer;
    game.updated_at = now;
    Ok(())
}

/// `player` declines the opponent's draw offer at `now`.
pub fn decline_draw(game: &mut CheckersGame, player: &str, now: u64) -> (r: Result<(), GameError>)
    ensures
        r == if old(game).status != GameStatus::Active {
            Err(GameError::GameNotActive)
        } else if seat_of(*old(game), player@).is_none() {
            Err(GameError::NotInThisGame)
        } else if !offered_to(old(game).draw_offer, seat_of(*old(game), player@).unwrap()) {
            Err(GameError::NoDrawOfferToDecline)
        } else {
            Ok(())
        },
        r.is_ok() ==> *final(game) == (CheckersGame {
            draw_offer: DrawOfferState::NoOffer,
            updated_at: now,
            ..*old(game)
        }),
        r.is_err() ==> *final(game) == *old(game),
{
    if game.status != GameStatus::Active {
        return Err(GameError::GameNotActive);
    }
    let side = match seat(game, player) {
        Some(s) => s,
        None => {
            return Err(GameError::NotInThisGame);
        },
    };
    if !may_answer(game.draw_offer, side) {
        return Err(GameError::NoDrawOfferToDecline);
    }
    game.draw_offer = DrawOfferState::NoOffer;
    game.updated_at = now;
    Ok(())
}

/// `player` claims a win at `now` (microseconds) because the opponent's time
/// has run out: the game ends as a loss on time for the opponent.
pub fn claim_time_win(game: &mut CheckersGame, player: &str, now: u64) -> (r: Result<(), GameError>)
    ensures
        r == if old(game).status != GameStatus::Active {
            Err(GameError::GameNotActive)
        } else if seat_of(*old(game), player@).is_none() {
            Err(GameError::NotInThisGame)
        } else if old(game).clock.is_none() {
            Err(GameError::NotATimedGame)
        } else {
            match old(game).clock.unwrap().flag_fallen(millis(now)) {
                None => Err(GameError::OpponentNotTimedOut),
                Some(side) => if Some(side) == seat_of(*old(game), player@) {
                    Err(GameError::YouTimedOut)
                } else {
                    Ok(())
                },
            }
        },
        r.is_ok() ==> *final(game) == (CheckersGame {
            status: GameStatus::Finished,
            result: Some(loss_for(old(game).clock.unwrap().flag_fallen(millis(now)).unwrap())),
            updated_at: now,
            ..*old(game)
        }),
        r.is_err() ==> *final(game) == *old(game),
{
    if game.status != GameStatus::Active {
        return Err(GameError::GameNotActive);
    }
    let side = match seat(game, player) {
        Some(s) => s,
        None => {
            return Err(GameError::NotInThisGame);
        },
    };
    let out = match &game.clock {
        Some(c) => c.timed_out(now / 1000),
        None => {
            return Err(GameError::NotATimedGame);
        },
    };
    match out {
        None => Err(GameError::OpponentNotTimedOut),
        Some(loser) => {
            if loser == side {
                return Err(GameError::YouTimedOut);
            }
            game.status = GameStatus::Finished;
            game.result = Some(loss_of(loser));
            game.updated_at = now;
            Ok(())
        },
    }
}

/// The side to move is played by the computer.
pub open spec fn ai_to_move(g: CheckersGame) -> bool {
    match g.current_turn {
        Turn::Red => g.red_player_type == PlayerType::AI,
        Turn::Black => g.black_player_type == PlayerType::AI,
    }
}

/// The computer plays at `now` the move that `calculate_ai_move` chooses;
/// with no move left it loses. Returns whether the game is over. On a board
/// whose pieces all stand on dark squares the chosen move is always legal.
pub fn make_ai_move(game: &mut CheckersGame, now: u64) -> (r: Result<bool, GameError>)
    requires
        playable(*old(game)),
    ensures
        old(game).status != GameStatus::Active ==> r == Err::<bool, GameError>(GameError::GameNotActive),
        old(game).status == GameStatus::Active && !ai_to_move(*old(game)) ==> r == Err::<bool, GameError>(
            GameError::NotAiTurn,
        ),
        old(game).status == GameStatus::Active && ai_to_move(*old(game)) && pieces_on_dark(
            old(game).board_state@,
        ) ==> r.is_ok(),
        r.is_err() ==> *final(game) == *old(game),
        r.is_ok() ==> old(game).status == GameStatus::Active && ai_to_move(*old(game))
            && final(game).updated_at == now,
        r.is_ok() && final(game).move_count == old(game).move_count ==> {
            &&& !(exists|fr: int, fc: int, m: (u8, u8, bool)|
                #[trigger] ai_candidate(old(game).board_state@, old(game).current_turn, fr, fc, m))
            &&& *final(game) == (CheckersGame {
                status: GameStatus::Finished,
                result: Some(loss_for(old(game).current_turn)),
                updated_at: now,
                ..*old(game)
            })
            &&& r == Ok::<bool, GameError>(true)
        },
        r.is_ok() && final(game).move_count != old(game).move_count ==> exists|fr: int, fc: int, q: int|
            #[trigger] ai_choice(
                old(game).board_state@,
                old(game).current_turn,
                old(game).move_count as int,
                fr,
                fc,
                q,
            ) && ai_move_played(*old(game), *final(game), fr, fc, piece_moves(
                old(game).board_state@,
                old(game).current_turn,
                fr,
                fc,
                board_at(old(game).board_state@, fr, fc),
            )[q], now) && r == Ok::<bool, GameError>(final(game).status == GameStatus::Finished),
{
    if game.status != GameStatus::Active {
        return Err(GameError::GameNotActive);
    }
    let is_ai_turn = match game.current_turn {
        Turn::Red => game.red_player_type == PlayerType::AI,
        Turn::Black => game.black_player_type == PlayerType::AI,
    };
    if !is_ai_turn {
        return Err(GameError::NotAiTurn);
    }
    let ghost s = game.board_state@;
    let ghost t = game.current_turn;
    let ghost mc = game.move_count as int;
    match calculate_ai_move(game) {
        Some((from_row, from_col, to_row, to_col)) => {
            let ghost before = *game;
            let ghost q = choose|q: int|
                #[trigger] ai_choice(s, t, mc, from_row as int, from_col as int, q) && piece_moves(
                    s,
                    t,
                    from_row as int,
                    from_col as int,
                    board_at(s, from_row as int, from_col as int),
                )[q].0 == to_row && piece_moves(
                    s,
                    t,
                    from_row as int,
                    from_col as int,
                    board_at(s, from_row as int, from_col as int),
                )[q].1 == to_col;
            let ghost ms = piece_moves(s, t, from_row as int, from_col as int, board_at(s, from_row as int, from_col as int));
            proof {
                assert(ms.contains(ms[q]));
                if pieces_on_dark(s) {
                    assert(board_at(s, from_row as int, from_col as int) != Piece::Empty);
                    lemma_candidate_legal(s, t, from_row as int, from_col as int, ms[q]);
                }
            }
            let checkers_move = match validate_and_execute_move(game, from_row, from_col, to_row, to_col) {
                Ok(m) => m,
                Err(e) => {
                    return Err(GameError::IllegalMove(e));
                },
            };
            game.moves.push(checkers_move);
            game.move_count = game.move_count + 1;
            game.updated_at = now;
            proof {
                lemma_board_after_len(before.board_state@, from_row as int, from_col as int, to_row as int, to_col as int);
                lemma_counts_le_len(game.board_state@);
            }
            check_game_over(game);
            proof {
                assert(ai_move_played(before, *game, from_row as int, from_col as int, ms[q], now));
            }
            Ok(game.status == GameStatus::Finished)
        },
        None => {
            game.status = GameStatus::Finished;
            game.result = Some(loss_of(game.current_turn));
            game.updated_at = now;
            Ok(true)
        },
    }
}

/// `after` is `before` with the computer's move from (`fr`, `fc`) to `m`
/// played at `now`: the board, the turn and the history as the rules make
/// them, and the game ended if the new position decides it.
pub open spec fn ai_move_played(before: CheckersGame, after: CheckersGame, fr: int, fc: int, m: (u8, u8, bool), now: u64) -> bool {
    let s = before.board_state@;
    let t = before.current_turn;
    &&& move_error(s, t, fr, fc, m.0 as int, m.1 as int) == None::<MoveError>
    &&& after.board_state@ == board_after(s, fr, fc, m.0 as int, m.1 as int)
    &&& after.current_turn == turn_after(s, t, fr, fc, m.0 as int, m.1 as int)
    &&& after.moves@ == before.moves@.push(move_record(s, fr as u8, fc as u8, m.0, m.1, before.updated_at))
    &&& after.move_count == before.move_count + 1
    &&& after.updated_at == now
    &&& after.clock == before.clock
    &&& after.draw_offer == before.draw_offer
    &&& match position_result(after.board_state@, after.current_turn) {
        Some(res) => after.status == GameStatus::Finished && after.result == Some(res),
        None => after.status == before.status && after.result == before.result,
    }
}

/// The name that stands for the computer in a seat.
pub open spec fn ai_name() -> Seq<char> {
    seq!['A', 'I']
}

fn ai_player() -> (r: String)
    ensures
        r@ == ai_name(),
{
    proof {
        reveal_strlit("AI");
    }
    String::from_str("AI")
}

/// A new game created by `player_id` at `now` (microseconds). Against the
/// computer it starts at once, the creator seated by preference (by the
/// parity of `now` for `Random`) and the clock running; otherwise it waits
/// for an opponent.
pub fn create_game(
    game_id: String,
    vs_ai: bool,
    time_control: Option<TimeControl>,
    color_preference: Option<ColorPreference>,
    is_rated: Option<bool>,
    player_id: String,
    now: u64,
) -> (g: CheckersGame)
    ensures
        g.id == game_id,
        g.board_state@ == STARTING_BOARD@,
        g.current_turn == Turn::Red,
        g.moves@.len() == 0,
        g.move_count == 0,
        g.result.is_none(),
        g.created_at == now,
        g.updated_at == now,
        g.is_rated == match is_rated {
            Some(b) => b,
            None => true,
        },
        g.color_preference == match color_preference {
            Some(c) => c,
            None => ColorPreference::Red,
        },
        !vs_ai ==> g.status == GameStatus::Pending && match g.color_preference {
            ColorPreference::Black => g.red_player.is_none() && g.black_player == Some(player_id),
            _ => g.red_player == Some(player_id) && g.black_player.is_none(),
        } && g.creator_wants_random == (g.color_preference == ColorPreference::Random)
            && g.clock == match time_control {
            Some(tc) => Some(Clock::fresh(tc)),
            None => None::<Clock>,
        },
        vs_ai ==> {
            let creator_red = match g.color_preference {
                ColorPreference::Red => true,
                ColorPreference::Black => false,
                ColorPreference::Random => now % 2 == 0,
            };
            &&& g.status == GameStatus::Active
            &&& !g.creator_wants_random
            &&& if creator_red {
                g.red_player == Some(player_id) && opt_text(g.black_player) == Some(ai_name())
                    && g.red_player_type == PlayerType::Human && g.black_player_type == PlayerType::AI
            } else {
                g.black_player == Some(player_id) && opt_text(g.red_player) == Some(ai_name())
                    && g.black_player_type == PlayerType::Human && g.red_player_type == PlayerType::AI
            }
            &&& g.clock == match time_control {
                Some(tc) => Some(Clock { last_move_at: millis(now), active_player: Some(Turn::Red), ..Clock::fresh(tc) }),
                None => None::<Clock>,
            }
        },
{
    let color_pref = match color_preference {
        Some(c) => c,
        None => ColorPreference::Red,
    };
    let rated = match is_rated {
        Some(b) => b,
        None => true,
    };
    let mut game = CheckersGame::new_with_options(game_id, player_id.clone(), color_pref, rated, time_control);
    game.created_at = now;
    game.updated_at = now;
    if vs_ai {
        let creator_red = match color_pref {
            ColorPreference::Red => true,
            ColorPreference::Black => false,
            ColorPreference::Random => now % 2 == 0,
        };
        if creator_red {
            game.red_player = Some(player_id);
            game.black_player = Some(ai_player());
            game.black_player_type = PlayerType::AI;
        } else {
            game.black_player = Some(player_id);
            game.red_player = Some(ai_player());
            game.red_player_type = PlayerType::AI;
        }
        game.status = GameStatus::Active;
        game.creator_wants_random = false;
        match &mut game.clock {
            Some(clock) => clock.start(now / 1000),
            None => {},
        }
    }
    game
}

/// `joiner` takes the free seat of a pending game at `now` (microseconds); a
/// creator who asked for a random colour becomes Black when `now` is even.
/// The game starts and its clock runs.
pub fn join_game(game: &mut CheckersGame, joiner: &str, now: u64) -> (r: Result<(), GameError>)
    ensures
        r == if old(game).status != GameStatus::Pending {
            Err(GameError::GameNotAvailable)
        } else if seat_of(*old(game), joiner@).is_some() {
            Err(GameError::CannotJoinOwnGame)
        } else {
            Ok(())
        },
        r.is_err() ==> *final(game) == *old(game),
        r.is_ok() ==> {
            &&& final(game).status == GameStatus::Active
            &&& final(game).updated_at == now
            &&& final(game).red_player_type == PlayerType::Human
            &&& final(game).black_player_type == PlayerType::Human
            &&& if old(game).creator_wants_random && now % 2 == 0 {
                opt_text(final(game).red_player) == Some(joiner@) && final(game).black_player
                    == old(game).red_player
            } else if old(game).creator_wants_random || old(game).red_player.is_some() {
                final(game).red_player == old(game).red_player && opt_text(final(game).black_player)
                    == Some(joiner@)
            } else {
                opt_text(final(game).red_player) == Some(joiner@) && final(game).black_player
                    == old(game).black_player
            }
            &&& final(game).clock == match old(game).clock {
                Some(c) => Some(Clock { last_move_at: millis(now), active_player: Some(Turn::Red), ..c }),
                None => None::<Clock>,
            }
            &&& final(game).board_state == old(game).board_state
            &&& final(game).current_turn == old(game).current_turn
            &&& final(game).moves == old(game).moves
        },
{
    if game.status != GameStatus::Pending {
        return Err(GameError::GameNotAvailable);
    }
    if seat(game, joiner).is_some() {
        return Err(GameError::CannotJoinOwnGame);
    }
    let who = String::from_str(joiner);
    if game.creator_wants_random {
        if now % 2 == 0 {
            let creator = game.red_player.take();
            game.black_player = creator;
            game.red_player = Some(who);
        } else {
            game.black_player = Some(who);
        }
    } else if game.red_player.is_none() {
        game.red_player = Some(who);
    } else {
        game.black_player = Some(who);
    }
    game.black_player_type = PlayerType::Human;
    game.red_player_type = PlayerType::Human;
    game.status = GameStatus::Active;
    game.updated_at = now;
    match &mut game.clock {
        Some(clock) => clock.start(now / 1000),
        None => {},
    }
    Ok(())
}

/// The game of a tournament match, started at `now` (microseconds): the
/// first player is Red when `now` is even, the second otherwise.
pub fn tournament_game(
    game_id: String,
    player1: String,
    player2: String,
    time_control: TimeControl,
    tournament_id: String,
    match_id: String,
    now: u64,
) -> (g: CheckersGame)
    ensures
        g.id == game_id,
        now % 2 == 0 ==> g.red_player == Some(player1) && g.black_player == Some(player2),
        now % 2 == 1 ==> g.red_player == Some(player2) && g.black_player == Some(player1),
        g.red_player_type == PlayerType::Human,
        g.black_player_type == PlayerType::Human,
        g.board_state@ == STARTING_BOARD@,
        g.current_turn == Turn::Red,
        g.moves@.len() == 0,
        g.move_count == 0,
        g.status == GameStatus::Active,
        g.result.is_none(),
        g.created_at == now,
        g.updated_at == now,
        g.clock == Some(Clock { last_move_at: millis(now), active_player: Some(Turn::Red), ..Clock::fresh(time_control) }),
        g.draw_offer == DrawOfferState::NoOffer,
        g.is_rated,
        g.color_preference == ColorPreference::Random,
        !g.creator_wants_random,
        g.tournament_id == Some(tournament_id),
        g.tournament_match_id == Some(match_id),
{
    let (red, black) = if now % 2 == 0 {
        (player1, player2)
    } else {
        (player2, player1)
    };
    let mut clock = Clock::new(time_control);
    clock.start(now / 1000);
    CheckersGame {
        id: game_id,
        red_player: Some(red),
        black_player: Some(black),
        red_player_type: PlayerType::Human,
        black_player_type: PlayerType::Human,
        board_state: String::from_str(STARTING_BOARD),
        current_turn: Turn::Red,
        moves: Vec::new(),
        move_count: 0,
        status: GameStatus::Active,
        result: None,
        created_at: now,
        updated_at: now,
        clock: Some(clock),
        draw_offer: DrawOfferState::NoOffer,
        is_rated: true,
        color_preference: ColorPreference::Random,
        creator_wants_random: false,
        tournament_id: Some(tournament_id),
        tournament_match_id: Some(match_id),
    }
}

/// A game between two matched players, Red the one who waited, started at
/// `now` (microseconds) with the clock of `time_control` running.
pub fn matched_game(game_id: String, red_player: String, black_player: String, time_control: TimeControl, now: u64) -> (g: CheckersGame)
    ensures
        g.id == game_id,
        g.red_player == Some(red_player),
        g.black_player == Some(black_player),
        g.red_player_type == PlayerType::Human,
        g.black_player_type == PlayerType::Human,
        g.board_state@ == STARTING_BOARD@,
        g.current_turn == Turn::Red,
        g.moves@.len() == 0,
        g.move_count == 0,
        g.status == GameStatus::Active,
        g.result.is_none(),
        g.created_at == now,
        g.updated_at == now,
        g.clock == Some(Clock { last_move_at: millis(now), active_player: Some(Turn::Red), ..Clock::fresh(time_control) }),
        g.is_rated,
{
    let mut game = CheckersGame::new(game_id, Some(red_player), PlayerType::Human);
    game.black_player = Some(black_player);
    game.black_player_type = PlayerType::Human;
    game.status = GameStatus::Active;
    game.created_at = now;
    game.updated_at = now;
    let mut clock = Clock::new(time_control);
    clock.start(now / 1000);
    game.clock = Some(clock);
    game
}

/// A join request from another chain: a pending game without Black takes the
/// requester as Black and starts. Returns whether it did.
pub fn handle_join_request(game: &mut CheckersGame, player_chain: String, now: u64) -> (joined: bool)
    ensures
        joined == (old(game).status == GameStatus::Pending && old(game).black_player.is_none()),
        joined ==> *final(game) == (CheckersGame {
            black_player: Some(player_chain),
            status: GameStatus::Active,
            updated_at: now,
            ..*old(game)
        }),
        !joined ==> *final(game) == *old(game),
{
    if game.status == GameStatus::Pending && game.black_player.is_none() {
        game.black_player = Some(player_chain);
        game.status = GameStatus::Active;
        game.updated_at = now;
        true
    } else {
        false
    }
}

/// A move reported by the opponent's chain: its position, turn and status
/// are taken as they come.
pub fn handle_move_received(
    game: &mut CheckersGame,
    checkers_move: CheckersMove,
    new_board_state: String,
    new_turn: Turn,
    game_status: GameStatus,
    game_result: Option<GameResult>,
    now: u64,
)
    requires
        old(game).move_count < u32::MAX,
    ensures
        final(game).board_state == new_board_state,
        final(game).current_turn == new_turn,
        final(game).status == game_status,
        final(game).result == game_result,
        final(game).moves@ == old(game).moves@.push(checkers_move),
        final(game).move_count == old(game).move_count + 1,
        final(game).updated_at == now,
        final(game).id == old(game).id,
        final(game).red_player == old(game).red_player,
        final(game).black_player == old(game).black_player,
        final(game).clock == old(game).clock,
{
    game.board_state = new_board_state;
    game.current_turn = new_turn;
    game.status = game_status;
    game.result = game_result;
    game.moves.push(checkers_move);
    game.move_count = game.move_count + 1;
    game.updated_at = now;
}

/// The players of a game started elsewhere.
pub fn handle_game_started(game: &mut CheckersGame, red_player: String, black_player: String, now: u64)
    ensures
        *final(game) == (CheckersGame {
            red_player: Some(red_player),
            black_player: Some(black_player),
            status: GameStatus::Active,
            updated_at: now,
            ..*old(game)
        }),
{
    game.red_player = Some(red_player);
    game.black_player = Some(black_player);
    game.status = GameStatus::Active;
    game.updated_at = now;
}

/// A game ended elsewhere with `result`.
pub fn handle_game_ended(game: &mut CheckersGame, result: GameResult, now: u64)
    ensures
        *final(game) == (CheckersGame { status: GameStatus::Finished, result: Some(result), updated_at: now, ..*old(game) }),
{
    game.status = GameStatus::Finished;
    game.result = Some(result);
    game.updated_at = now;
}

/// A draw offer made on the other chain, kept while the game is active.
pub fn handle_draw_offered(game: &mut CheckersGame, offered_by: Turn, now: u64)
    ensures
        old(game).status == GameStatus::Active ==> *final(game) == (CheckersGame {
            draw_offer: offer_by(offered_by),
            updated_at: now,
            ..*old(game)
        }),
        old(game).status != GameStatus::Active ==> *final(game) == *old(game),
{
    if game.status == GameStatus::Active {
        game.draw_offer = match offered_by {
            Turn::Red => DrawOfferState::OfferedByRed,
            Turn::Black => DrawOfferState::OfferedByBlack,
        };
        game.updated_at = now;
    }
}

/// A draw offer declined on the other chain.
pub fn handle_draw_declined(game: &mut CheckersGame, now: u64)
    ensures
        old(game).status == GameStatus::Active ==> *final(game) == (CheckersGame {
            draw_offer: DrawOfferState::NoOffer,
            updated_at: now,
            ..*old(game)
        }),
        old(game).status != GameStatus::Active ==> *final(game) == *old(game),
{
    if game.status == GameStatus::Active {
        game.draw_offer = DrawOfferState::NoOffer;
        game.updated_at = now;
    }
}

/// A draw accepted on the other chain: an active game ends drawn. Returns
/// whether it did.
pub fn handle_draw_accepted(game: &mut CheckersGame, now: u64) -> (ended: bool)
    ensures
        ended == (old(game).status == GameStatus::Active),
        ended ==> *final(game) == (CheckersGame {
            status: GameStatus::Finished,
            result: Some(GameResult::Draw),
            draw_offer: DrawOfferState::NoOffer,
            updated_at: now,
            ..*old(game)
        }),
        !ended ==> *final(game) == *old(game),
{
    if game.status == GameStatus::Active {
        game.status = GameStatus::Finished;
        game.result = Some(GameResult::Draw);
        game.draw_offer = DrawOfferState::NoOffer;
        game.updated_at = now;
        true
    } else {
        false
    }
}

} // verus!
