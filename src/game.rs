//! A game of checkers: its players, board, turn, clock and result.
use vstd::prelude::*;
use crate::board::STARTING_BOARD;
use crate::clock::Clock;
use crate::types::{
    CheckersMove, ColorPreference, DrawOfferState, GameResult, GameStatus, PlayerType,
    TimeControl, Turn,
};

verus! {

#[derive(Debug, Clone)]
pub struct CheckersGame {
    pub id: String,
    pub red_player: Option<String>,
    pub black_player: Option<String>,
    pub red_player_type: PlayerType,
    pub black_player_type: PlayerType,
    pub board_state: String,
    pub current_turn: Turn,
    pub moves: Vec<CheckersMove>,
    pub move_count: u32,
    pub status: GameStatus,
    pub result: Option<GameResult>,
    pub created_at: u64,
    pub updated_at: u64,
    pub clock: Option<Clock>,
    pub draw_offer: DrawOfferState,
    pub is_rated: bool,
    pub color_preference: ColorPreference,
    pub creator_wants_random: bool,
    pub tournament_id: Option<String>,
    pub tournament_match_id: Option<String>,
}

/// Games are rated unless created otherwise.
pub fn default_is_rated() -> (r: bool)
    ensures
        r,
{
    true
}

pub open spec fn opt_text(o: Option<String>) -> Option<Seq<char>> {
    match o {
        Some(s) => Some(s@),
        None => None,
    }
}

impl CheckersGame {
    /// A game that has just been created: starting position, Red to move,
    /// nothing played, no clock, no result.
    pub open spec fn fresh(self) -> bool {
        &&& self.board_state@ == STARTING_BOARD@
        &&& self.current_turn == Turn::Red
        &&& self.moves@.len() == 0
        &&& self.move_count == 0
        &&& self.status == GameStatus::Pending
        &&& self.result.is_none()
        &&& self.created_at == 0
        &&& self.updated_at == 0
        &&& self.draw_offer == DrawOfferState::NoOffer
        &&& self.tournament_id.is_none()
        &&& self.tournament_match_id.is_none()
    }

    /// The same game with `status` and `result` replaced.
    pub open spec fn ended_as(self, result: GameResult) -> CheckersGame {
        CheckersGame { status: GameStatus::Finished, result: Some(result), ..self }
    }

    pub fn new(id: String, red_player: Option<String>, red_type: PlayerType) -> (g: CheckersGame)
        ensures
            g.fresh(),
            g.id == id,
            g.red_player == red_player,
            g.black_player.is_none(),
            g.red_player_type == red_type,
            g.black_player_type == PlayerType::Human,
            g.clock.is_none(),
            g.is_rated,
            g.color_preference == ColorPreference::Red,
            !g.creator_wants_random,
    {
        CheckersGame {
            id,
            red_player,
            black_player: None,
            red_player_type: red_type,
            black_player_type: PlayerType::Human,
            board_state: String::from_str(STARTING_BOARD),
            current_turn: Turn::Red,
            moves: Vec::new(),
            move_count: 0,
            status: GameStatus::Pending,
            result: None,
            created_at: 0,
            updated_at: 0,
            clock: None,
            draw_offer: DrawOfferState::NoOffer,
            is_rated: true,
            color_preference: ColorPreference::Red,
            creator_wants_random: false,
            tournament_id: None,
            tournament_match_id: None,
        }
    }

    /// As `new`, with a clock for `time_control`.
    pub fn new_timed(
        id: String,
        red_player: Option<String>,
        red_type: PlayerType,
        time_control: TimeControl,
    ) -> (g: CheckersGame)
        ensures
            g.fresh(),
            g.id == id,
            g.red_player == red_player,
            g.black_player.is_none(),
            g.red_player_type == red_type,
            g.black_player_type == PlayerType::Human,
            g.clock == Some(Clock {
                initial_time_ms: time_control.initial_spec(),
                increment_ms: time_control.increment_spec(),
                red_time_ms: time_control.initial_spec(),
                black_time_ms: time_control.initial_spec(),
                last_move_at: 0,
                active_player: None,
            }),
            g.is_rated,
            g.color_preference == ColorPreference::Red,
            !g.creator_wants_random,
    {
        let mut game = CheckersGame::new(id, red_player, red_type);
        game.clock = Some(Clock::new(time_control));
        game
    }

    /// A pending game created by `creator`, seated by `color_pref`; with
    /// `Random` the creator sits as Red until an opponent joins.
    pub fn new_with_options(
        id: String,
        creator: String,
        color_pref: ColorPreference,
        is_rated: bool,
        time_control: Option<TimeControl>,
    ) -> (g: CheckersGame)
        ensures
            g.fresh(),
            g.id == id,
            g.red_player_type == PlayerType::Human,
            g.black_player_type == PlayerType::Human,
            g.is_rated == is_rated,
            g.color_preference == color_pref,
            match time_control {
                Some(tc) => g.clock == Some(Clock {
                    initial_time_ms: tc.initial_spec(),
                    increment_ms: tc.increment_spec(),
                    red_time_ms: tc.initial_spec(),
                    black_time_ms: tc.initial_spec(),
                    last_move_at: 0,
                    active_player: None,
                }),
                None => g.clock.is_none(),
            },
            match color_pref {
                ColorPreference::Black => g.red_player.is_none() && g.black_player == Some(creator)
                    && !g.creator_wants_random,
                ColorPreference::Red => g.red_player == Some(creator) && g.black_player.is_none()
                    && !g.creator_wants_random,
                ColorPreference::Random => g.red_player == Some(creator)
                    && g.black_player.is_none() && g.creator_wants_random,
            },
    {
        let clock = match time_control {
            Some(tc) => Some(Clock::new(tc)),
            None => None,
        };
        let mut game = CheckersGame {
            id,
            red_player: None,
            black_player: None,
            red_player_type: PlayerType::Human,
            black_player_type: PlayerType::Human,
            board_state: String::from_str(STARTING_BOARD),
            current_turn: Turn::Red,
            moves: Vec::new(),
            move_count: 0,
            status: GameStatus::Pending,
            result: None,
            created_at: 0,
            updated_at: 0,
            clock,
            draw_offer: DrawOfferState::NoOffer,
            is_rated,
            color_preference: color_pref,
            creator_wants_random: false,
            tournament_id: None,
            tournament_match_id: None,
        };
        match color_pref {
            ColorPreference::Red => game.red_player = Some(creator),
            ColorPreference::Black => game.black_player = Some(creator),
            ColorPreference::Random => {
                game.red_player = Some(creator);
                game.creator_wants_random = true;
            },
        }
        game
    }

    /// The game is active and `player` holds the side to move.
    pub open spec fn can_move(self, player: Seq<char>) -> bool {
        self.status == GameStatus::Active && match self.current_turn {
            Turn::Red => opt_text(self.red_player) == Some(player),
            Turn::Black => opt_text(self.black_player) == Some(player),
        }
    }

    /// True when the game is active and `chain_id` holds the side to move.
    pub fn can_player_move(&self, chain_id: &str) -> (r: bool)
        ensures
            r == (self.status == GameStatus::Active && match self.current_turn {
                Turn::Red => opt_text(self.red_player) == Some(chain_id@),
                Turn::Black => opt_text(self.black_player) == Some(chain_id@),
            }),
    {
        if self.status != GameStatus::Active {
            return false;
        }
        let seat = match self.current_turn {
            Turn::Red => &self.red_player,
            Turn::Black => &self.black_player,
        };
        match seat {
            Some(p) => {
                let who = String::from_str(chain_id);
                *p == who
            },
            None => false,
        }
    }
}

} // verus!
