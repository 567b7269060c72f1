use checkers::game::CheckersGame;
use checkers::play::{
    accept_draw, claim_time_win, create_game, decline_draw, handle_draw_accepted, join_game,
    make_ai_move, offer_draw, GameError,
};
use checkers::queue::{find_queue_opponent, get_queue_counts};
use checkers::rating::PlayerStats;
use checkers::results::record_game_result;
use checkers::tournament::{
    claim_tournament_match, create_tournament, generate_invite_code, join_tournament,
    join_tournament_by_code, record_tournament_game, start_tournament, MatchStatus, Tournament,
    TournamentError, TournamentStatus,
};
use checkers::types::{
    ColorPreference, DrawOfferState, GameResult, GameStatus, PlayerType, QueueEntry, TimeControl, Turn,
};

fn active_game() -> CheckersGame {
    let mut game = CheckersGame::new("g".to_string(), Some("red".to_string()), PlayerType::Human);
    game.black_player = Some("black".to_string());
    game.status = GameStatus::Active;
    game
}

#[test]
fn invite_codes_are_fixed_by_id_and_time() {
    assert_eq!(generate_invite_code("t000001", 1_700_000_000_000_000), "ABXAQQ");
    assert_eq!(generate_invite_code("t000042", 123_456_789), "4JXZP4");
}

#[test]
fn create_tournament_checks_capacity() {
    let r = create_tournament("t1".to_string(), "Cup".to_string(), TimeControl::Blitz3_0, 1, true, None, "A".to_string(), 5);
    assert_eq!(r.unwrap_err(), TournamentError::InvalidMaxPlayers);
    let r = create_tournament("t1".to_string(), "Cup".to_string(), TimeControl::Blitz3_0, 65, true, None, "A".to_string(), 5);
    assert_eq!(r.unwrap_err(), TournamentError::InvalidMaxPlayers);
    let t = create_tournament("t000001".to_string(), "Cup".to_string(), TimeControl::Blitz3_0, 12, false, None, "A".to_string(), 1_700_000_000_000_000).unwrap();
    assert_eq!(t.total_rounds, 3);
    assert_eq!(t.registered_players, vec!["A".to_string()]);
    assert_eq!(t.invite_code, Some("ABXAQQ".to_string()));
    assert_eq!(t.status, TournamentStatus::Registration);
}

#[test]
fn private_tournaments_need_the_code() {
    let mut t = create_tournament("t000001".to_string(), "Cup".to_string(), TimeControl::Blitz3_0, 8, false, None, "A".to_string(), 1_700_000_000_000_000).unwrap();
    assert_eq!(join_tournament(&mut t, "B"), Err(TournamentError::PrivateTournament));
    assert_eq!(join_tournament_by_code(&mut t, "ZZZZZZ", "B"), Err(TournamentError::InvalidInviteCode));
    assert_eq!(join_tournament_by_code(&mut t, "abxaqq", "B"), Ok(()));
    assert_eq!(t.registered_players.len(), 2);
}

#[test]
fn claim_and_play_a_tournament_match() {
    let mut t = Tournament::default();
    t.id = "t9".to_string();
    t.creator = "A".to_string();
    t.max_players = 4;
    t.is_public = true;
    t.registered_players = vec!["A".to_string(), "B".to_string()];
    start_tournament(&mut t, "A", 1).unwrap();
    assert_eq!(claim_tournament_match(&mut t, "t9_r1_m1", "C", "g1".to_string()), Err(TournamentError::NotInThisMatch));
    assert_eq!(claim_tournament_match(&mut t, "t9_r1_m1", "B", "g1".to_string()), Ok(("A".to_string(), "B".to_string())));
    assert_eq!(t.matches[0].status, MatchStatus::InProgress);
    assert_eq!(t.matches[0].game_id, Some("g1".to_string()));
    assert_eq!(claim_tournament_match(&mut t, "t9_r1_m1", "B", "g2".to_string()), Err(TournamentError::MatchNotReady));
    assert_eq!(claim_tournament_match(&mut t, "t9_r1_m9", "B", "g2".to_string()), Err(TournamentError::MatchNotFound));
    record_tournament_game(&mut t, "t9_r1_m1", GameResult::BlackWins, &Some("B".to_string()), &Some("A".to_string()));
    assert_eq!(t.matches[0].winner, Some("A".to_string()));
    assert_eq!(t.current_round, 2);
    let a = t.participants.iter().find(|p| p.player_id == "A").unwrap();
    assert_eq!(a.score, 2);
}

#[test]
fn a_drawn_tournament_game_gives_each_a_point() {
    let mut t = Tournament::default();
    t.id = "t9".to_string();
    t.creator = "A".to_string();
    t.max_players = 4;
    t.registered_players = vec!["A".to_string(), "B".to_string()];
    start_tournament(&mut t, "A", 1).unwrap();
    record_tournament_game(&mut t, "t9_r1_m1", GameResult::Draw, &Some("A".to_string()), &Some("B".to_string()));
    assert_eq!(t.matches[0].status, MatchStatus::Finished);
    assert_eq!(t.matches[0].winner, None);
    assert!(t.participants.iter().all(|p| p.score == 1));
}

#[test]
fn create_game_against_the_computer() {
    let g = create_game("g".to_string(), true, Some(TimeControl::Blitz5_3), Some(ColorPreference::Black), None, "me".to_string(), 4_000_000);
    assert_eq!(g.black_player, Some("me".to_string()));
    assert_eq!(g.red_player, Some("AI".to_string()));
    assert_eq!(g.red_player_type, PlayerType::AI);
    assert_eq!(g.status, GameStatus::Active);
    let clock = g.clock.unwrap();
    assert_eq!(clock.last_move_at, 4_000);
    assert_eq!(clock.active_player, Some(Turn::Red));
    let g = create_game("g".to_string(), false, None, Some(ColorPreference::Random), Some(false), "me".to_string(), 3);
    assert_eq!(g.status, GameStatus::Pending);
    assert!(g.creator_wants_random);
    assert!(!g.is_rated);
}

#[test]
fn joining_a_random_colour_game() {
    let mut g = create_game("g".to_string(), false, None, Some(ColorPreference::Random), None, "me".to_string(), 3);
    assert_eq!(join_game(&mut g, "me", 10), Err(GameError::CannotJoinOwnGame));
    assert!(join_game(&mut g, "you", 10).is_ok());
    assert_eq!(g.red_player, Some("you".to_string()));
    assert_eq!(g.black_player, Some("me".to_string()));
    assert_eq!(g.status, GameStatus::Active);
    assert_eq!(join_game(&mut g, "other", 11), Err(GameError::GameNotAvailable));
}

#[test]
fn ai_plays_from_the_start() {
    let mut g = create_game("g".to_string(), true, None, Some(ColorPreference::Black), None, "me".to_string(), 0);
    assert_eq!(make_ai_move(&mut g, 1), Ok(false));
    assert_eq!(g.move_count, 1);
    assert_eq!(g.current_turn, Turn::Black);
    assert_eq!(make_ai_move(&mut g, 2), Err(GameError::NotAiTurn));
}

#[test]
fn draw_offers() {
    let mut g = active_game();
    assert_eq!(accept_draw(&mut g, "black", 1), Err(GameError::NoDrawOfferToAccept));
    assert_eq!(decline_draw(&mut g, "black", 1), Err(GameError::NoDrawOfferToDecline));
    assert!(offer_draw(&mut g, "red", 2).is_ok());
    assert_eq!(g.draw_offer, DrawOfferState::OfferedByRed);
    assert_eq!(offer_draw(&mut g, "black", 3), Err(GameError::DrawAlreadyOffered));
    assert_eq!(accept_draw(&mut g, "red", 3), Err(GameError::NoDrawOfferToAccept));
    assert!(decline_draw(&mut g, "black", 4).is_ok());
    assert!(offer_draw(&mut g, "black", 5).is_ok());
    assert!(accept_draw(&mut g, "red", 6).is_ok());
    assert_eq!(g.result, Some(GameResult::Draw));
    assert_eq!(offer_draw(&mut g, "red", 7), Err(GameError::GameNotActive));
    let mut t = active_game();
    t.tournament_id = Some("t".to_string());
    assert_eq!(offer_draw(&mut t, "red", 1), Err(GameError::DrawsNotAllowedInTournament));
    assert!(handle_draw_accepted(&mut t, 2));
    assert_eq!(t.status, GameStatus::Finished);
}

#[test]
fn time_claims() {
    let mut g = active_game();
    assert_eq!(claim_time_win(&mut g, "black", 1), Err(GameError::NotATimedGame));
    assert_eq!(claim_time_win(&mut g, "x", 1), Err(GameError::NotInThisGame));
    let mut g = CheckersGame::new_timed("g".to_string(), Some("red".to_string()), PlayerType::Human, TimeControl::Bullet1_0);
    g.black_player = Some("black".to_string());
    g.status = GameStatus::Active;
    g.clock.as_mut().unwrap().start(0);
    assert_eq!(claim_time_win(&mut g, "black", 30_000_000), Err(GameError::OpponentNotTimedOut));
    assert_eq!(claim_time_win(&mut g, "red", 61_000_000), Err(GameError::YouTimedOut));
    assert!(claim_time_win(&mut g, "black", 61_000_000).is_ok());
    assert_eq!(g.result, Some(GameResult::BlackWins));
}

#[test]
fn game_results_update_both_players() {
    let mut g = active_game();
    g.clock = Some(checkers::clock::Clock::new(TimeControl::Bullet2_1));
    let mut red = PlayerStats::new("red".to_string());
    let mut black = PlayerStats::new("black".to_string());
    assert_eq!(record_game_result(&g, GameResult::RedWins, &mut red, &mut black), (true, true));
    assert_eq!(red.games_won, 1);
    assert_eq!(red.bullet_rating, 1216);
    assert_eq!(black.games_lost, 1);
    assert_eq!(black.bullet_rating, 1184);
    assert_eq!(red.bullet_games, 1);
    g.black_player = Some("AI".to_string());
    let mut red2 = PlayerStats::new("red".to_string());
    let mut ai = PlayerStats::new("AI".to_string());
    assert_eq!(record_game_result(&g, GameResult::BlackWins, &mut red2, &mut ai), (true, false));
    assert_eq!(red2.blitz_rating, 1200);
    assert_eq!(red2.bullet_rating, 1195);
    assert_eq!(ai.games_played, 0);
    g.is_rated = false;
    let mut red3 = PlayerStats::new("red".to_string());
    assert_eq!(record_game_result(&g, GameResult::Draw, &mut red3, &mut ai), (true, false));
    assert_eq!(red3.games_drawn, 1);
    assert_eq!(red3.bullet_games, 0);
    assert_eq!(record_game_result(&g, GameResult::InProgress, &mut red3, &mut ai), (false, false));
}

#[test]
fn queue_matching_and_counts() {
    let entries = vec![
        QueueEntry::new("a".to_string(), TimeControl::Blitz3_0, 1),
        QueueEntry::new("b".to_string(), TimeControl::Rapid10_0, 2),
        QueueEntry::new("c".to_string(), TimeControl::Rapid10_0, 3),
    ];
    assert_eq!(find_queue_opponent(&entries, "b", TimeControl::Rapid10_0), Some(2));
    assert_eq!(find_queue_opponent(&entries, "d", TimeControl::Rapid10_0), Some(1));
    assert_eq!(find_queue_opponent(&entries, "a", TimeControl::Blitz3_0), None);
    let counts = get_queue_counts(&entries);
    assert_eq!(counts.len(), 5);
    assert_eq!(counts[2].time_control, TimeControl::Blitz3_0);
    assert_eq!(counts[2].player_count, 1);
    assert_eq!(counts[4].player_count, 2);
    assert_eq!(counts[0].player_count, 0);
}

#[test]
fn unrated_game_against_red_computer_counts_for_black() {
    let mut g = active_game();
    g.red_player = Some("AI".to_string());
    g.red_player_type = PlayerType::AI;
    g.is_rated = false;
    let mut ai = PlayerStats::new("AI".to_string());
    let mut black = PlayerStats::new("black".to_string());
    assert_eq!(record_game_result(&g, GameResult::BlackWins, &mut ai, &mut black), (false, true));
    assert_eq!(black.games_won, 1);
    assert_eq!(black.blitz_rating, 1200);
    assert_eq!(ai.games_played, 0);
}

#[test]
fn claiming_a_match_updates_its_round_copy() {
    let mut t = Tournament::default();
    t.id = "t7".to_string();
    t.creator = "A".to_string();
    t.max_players = 4;
    t.registered_players = vec!["A".to_string(), "B".to_string()];
    start_tournament(&mut t, "A", 1).unwrap();
    claim_tournament_match(&mut t, "t7_r1_m1", "A", "g9".to_string()).unwrap();
    assert_eq!(t.rounds[0].matches[0].status, MatchStatus::InProgress);
    assert_eq!(t.rounds[0].matches[0].game_id, Some("g9".to_string()));
}

#[test]
fn computer_moves_late_in_a_long_game() {
    let mut g = create_game("g".to_string(), true, None, Some(ColorPreference::Black), None, "me".to_string(), 0);
    g.move_count = 3_000_000_000;
    assert_eq!(make_ai_move(&mut g, 1), Ok(false));
    assert_eq!(g.move_count, 3_000_000_001);
}
