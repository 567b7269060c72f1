//! The requests the application accepts, its answers, and the messages
//! exchanged between chains.
use vstd::prelude::*;
use crate::game::CheckersGame;
use crate::types::{CheckersMove, ColorPreference, GameResult, GameStatus, TimeControl, Turn};

verus! {

/// A request from a player.
#[derive(Debug, Clone)]
pub enum Operation {
    CreateGame {
        vs_ai: bool,
        time_control: Option<TimeControl>,
        color_preference: Option<ColorPreference>,
        is_rated: Option<bool>,
        player_id: String,
    },
    JoinGame { game_id: String, player_id: String },
    MakeMove {
        game_id: String,
        from_row: u8,
        from_col: u8,
        to_row: u8,
        to_col: u8,
        player_id: String,
    },
    Resign { game_id: String, player_id: String },
    RequestAiMove { game_id: String },
    JoinQueue { time_control: TimeControl, player_id: String },
    LeaveQueue { player_id: String },
    OfferDraw { game_id: String },
    AcceptDraw { game_id: String },
    DeclineDraw { game_id: String },
    ClaimTimeWin { game_id: String },
    CreateTournament {
        name: String,
        time_control: TimeControl,
        max_players: u32,
        is_public: bool,
        scheduled_start: Option<u64>,
        player_id: String,
    },
    JoinTournament { tournament_id: String, player_id: String },
    JoinTournamentByCode { invite_code: String, player_id: String },
    LeaveTournament { tournament_id: String, player_id: String },
    StartTournament { tournament_id: String, player_id: String },
    StartTournamentMatch { tournament_id: String, match_id: String, player_id: String },
    ForfeitTournamentMatch { tournament_id: String, match_id: String, player_id: String },
    CancelTournament { tournament_id: String, player_id: String },
}

/// The answer to an operation.
#[derive(Debug, Clone)]
pub enum OperationResult {
    GameCreated { game_id: String },
    GameJoined { game_id: String },
    MoveMade { game_id: String, game_over: bool },
    Resigned { game_id: String },
    AiMoveMade { game_id: String, game_over: bool },
    QueueJoined { time_control: TimeControl },
    QueueLeft,
    MatchFound { game_id: String, opponent: String },
    DrawOffered { game_id: String },
    DrawAccepted { game_id: String },
    DrawDeclined { game_id: String },
    TimeWinClaimed { game_id: String },
    TournamentCreated { tournament_id: String },
    TournamentJoined { tournament_id: String },
    TournamentJoinedByCode { tournament_id: String, tournament_name: String },
    TournamentLeft { tournament_id: String },
    TournamentStarted { tournament_id: String },
    TournamentMatchStarted { tournament_id: String, match_id: String, game_id: String },
    TournamentMatchForfeited { tournament_id: String, match_id: String, winner: String },
    TournamentCancelled { tournament_id: String },
    Error { message: String },
}

/// A message between chains.
#[derive(Debug, Clone)]
pub enum Message {
    JoinRequest { game_id: String, player_chain: String },
    GameStarted { game_id: String, red_player: String, black_player: String },
    MoveMade {
        game_id: String,
        chess_move: CheckersMove,
        new_board_state: String,
        new_turn: Turn,
        game_status: GameStatus,
        game_result: Option<GameResult>,
    },
    GameEnded { game_id: String, result: GameResult, winner: Option<String> },
    SyncGameState { game: CheckersGame },
    MatchFound { game_id: String, red_player: String, black_player: String, time_control: TimeControl },
    DrawOffered { game_id: String, offered_by: Turn },
    DrawDeclined { game_id: String },
    DrawAccepted { game_id: String },
}

} // verus!
