use checkers::tournament::{
    calculate_swiss_rounds, cancel_tournament, forfeit_tournament_match, generate_first_round_pairings,
    generate_swiss_pairings, join_tournament, leave_tournament, record_swiss_result,
    start_tournament, MatchStatus, SwissParticipant, Tournament, TournamentError, TournamentStatus,
};

fn names(list: &[&str]) -> Vec<String> {
    list.iter().map(|s| s.to_string()).collect()
}

fn open_tournament(players: &[&str]) -> Tournament {
    let mut t = Tournament::default();
    t.id = "t000001".to_string();
    t.creator = players[0].to_string();
    t.max_players = 8;
    t.is_public = true;
    t.registered_players = names(players);
    t
}

fn pair(a: &str, b: &str) -> (Option<String>, Option<String>) {
    (Some(a.to_string()), Some(b.to_string()))
}

#[test]
fn fold_pairing_for_eight() {
    let players = names(&["A", "B", "C", "D", "E", "F", "G", "H"]);
    let pairs = generate_first_round_pairings(&players);
    assert_eq!(pairs, vec![pair("A", "H"), pair("B", "G"), pair("C", "F"), pair("D", "E")]);
}

#[test]
fn fold_pairing_for_five_gives_middle_a_bye() {
    let players = names(&["Ada", "Ben", "Cal", "Dee", "Eve"]);
    let pairs = generate_first_round_pairings(&players);
    assert_eq!(pairs, vec![pair("Ada", "Eve"), pair("Ben", "Dee"), pair("Cal", "Cal")]);
}

#[test]
fn swiss_round_counts() {
    assert_eq!(calculate_swiss_rounds(0), 3);
    assert_eq!(calculate_swiss_rounds(2), 3);
    assert_eq!(calculate_swiss_rounds(8), 3);
    assert_eq!(calculate_swiss_rounds(9), 4);
    assert_eq!(calculate_swiss_rounds(64), 6);
}

#[test]
fn start_with_odd_field_settles_bye() {
    let mut t = open_tournament(&["Ada", "Ben", "Cal", "Dee", "Eve"]);
    assert_eq!(start_tournament(&mut t, "Ben", 10), Err(TournamentError::OnlyCreatorCanStart));
    assert!(start_tournament(&mut t, "Ada", 10).is_ok());
    assert_eq!(t.status, TournamentStatus::InProgress);
    assert_eq!(t.current_round, 1);
    assert_eq!(t.num_rounds, 3);
    assert_eq!(t.matches.len(), 3);
    assert_eq!(t.matches[0].id, "t000001_r1_m1");
    assert_eq!(t.matches[2].status, MatchStatus::Finished);
    assert_eq!(t.matches[2].winner, Some("Cal".to_string()));
    assert_eq!(t.rounds[0].matches[2].status, MatchStatus::Finished);
    let cal = t.participants.iter().find(|p| p.player_id == "Cal").unwrap();
    assert_eq!(cal.score, 2);
    assert!(cal.has_bye);
}

#[test]
fn start_needs_a_quarter_of_capacity() {
    let mut t = open_tournament(&["A"]);
    assert_eq!(start_tournament(&mut t, "A", 10), Err(TournamentError::NotEnoughPlayers));
    t.scheduled_start = Some(5);
    t.registered_players = names(&["A", "B"]);
    assert_eq!(start_tournament(&mut t, "A", 4_999), Err(TournamentError::BeforeScheduledStart));
    assert!(start_tournament(&mut t, "A", 5_000).is_ok());
    assert_eq!(start_tournament(&mut t, "A", 6_000), Err(TournamentError::AlreadyStarted));
}

#[test]
fn forfeit_finishes_match_and_advances() {
    let mut t = open_tournament(&["A", "B", "C", "D"]);
    start_tournament(&mut t, "A", 1).unwrap();
    assert_eq!(forfeit_tournament_match(&mut t, "t000001_r1_m1", "C"), Err(TournamentError::NotInThisMatch));
    assert_eq!(forfeit_tournament_match(&mut t, "nope", "A"), Err(TournamentError::MatchNotFound));
    assert_eq!(forfeit_tournament_match(&mut t, "t000001_r1_m1", "A"), Ok("D".to_string()));
    assert_eq!(t.matches[0].status, MatchStatus::Finished);
    assert_eq!(t.matches[0].winner, Some("D".to_string()));
    assert_eq!(t.current_round, 1);
    let d = t.participants.iter().find(|p| p.player_id == "D").unwrap();
    assert_eq!(d.score, 2);
    assert_eq!(d.opponents, names(&["A"]));
    let a = t.participants.iter().find(|p| p.player_id == "A").unwrap();
    assert_eq!(a.opponents, names(&["D"]));
    assert_eq!(forfeit_tournament_match(&mut t, "t000001_r1_m1", "A"), Err(TournamentError::MatchNotActive));
    assert_eq!(forfeit_tournament_match(&mut t, "t000001_r1_m2", "C"), Ok("B".to_string()));
    assert_eq!(t.current_round, 2);
    assert!(t.rounds[0].completed);
    assert_eq!(t.rounds.len(), 2);
    assert_eq!(t.matches.len(), 4);
    assert_eq!(t.matches[2].player1, Some("B".to_string()));
    assert_eq!(t.matches[2].player2, Some("D".to_string()));
    assert_eq!(t.matches[3].player1, Some("A".to_string()));
    assert_eq!(t.matches[3].player2, Some("C".to_string()));
}

#[test]
fn three_rounds_then_finished() {
    let mut t = open_tournament(&["A", "B", "C", "D"]);
    start_tournament(&mut t, "A", 1).unwrap();
    for round in 1..=3u32 {
        assert_eq!(t.status, TournamentStatus::InProgress);
        assert_eq!(t.current_round, round);
        let ids: Vec<(String, String)> = t
            .matches
            .iter()
            .filter(|m| m.round == round)
            .map(|m| (m.id.clone(), m.player2.clone().unwrap()))
            .collect();
        for (id, p2) in ids {
            forfeit_tournament_match(&mut t, &id, &p2).unwrap();
        }
    }
    assert_eq!(t.status, TournamentStatus::Finished);
    assert_eq!(t.current_round, 3);
    let best = t.participants.iter().map(|p| p.score).max().unwrap();
    let winner = t.winner.clone().unwrap();
    let w = t.participants.iter().find(|p| p.player_id == winner).unwrap();
    assert_eq!(w.score, best);
    assert_eq!(best, 6);
}

#[test]
fn swiss_pairing_avoids_rematches_and_gives_bye_to_lowest() {
    let mut ps = vec![
        SwissParticipant { player_id: "A".to_string(), score: 2, opponents: names(&["B"]), has_bye: false },
        SwissParticipant { player_id: "B".to_string(), score: 0, opponents: names(&["A"]), has_bye: false },
        SwissParticipant { player_id: "C".to_string(), score: 2, opponents: names(&["D"]), has_bye: false },
        SwissParticipant { player_id: "D".to_string(), score: 0, opponents: names(&["C"]), has_bye: false },
        SwissParticipant { player_id: "E".to_string(), score: 2, opponents: vec![], has_bye: true },
    ];
    let pairs = generate_swiss_pairings(&mut ps);
    let order: Vec<&str> = ps.iter().map(|p| p.player_id.as_str()).collect();
    assert_eq!(order, vec!["A", "C", "E", "B", "D"]);
    assert_eq!(pairs, vec![pair("D", "D"), pair("A", "C"), pair("E", "B")]);
    assert!(ps[4].has_bye);
}

#[test]
fn recording_a_draw_gives_each_a_point() {
    let mut ps = vec![
        SwissParticipant { player_id: "A".to_string(), score: 0, opponents: vec![], has_bye: false },
        SwissParticipant { player_id: "B".to_string(), score: 0, opponents: vec![], has_bye: false },
    ];
    record_swiss_result(&mut ps, "A", "B", true);
    record_swiss_result(&mut ps, "A", "B", false);
    assert_eq!(ps[0].score, 3);
    assert_eq!(ps[1].score, 1);
    assert_eq!(ps[0].opponents, names(&["B"]));
    assert_eq!(ps[1].opponents, names(&["A"]));
}

#[test]
fn registration_rules() {
    let mut t = open_tournament(&["A"]);
    t.max_players = 2;
    assert!(join_tournament(&mut t, "B").is_ok());
    assert_eq!(join_tournament(&mut t, "B"), Err(TournamentError::AlreadyRegistered));
    assert_eq!(join_tournament(&mut t, "C"), Err(TournamentError::TournamentFull));
    assert_eq!(leave_tournament(&mut t, "A"), Err(TournamentError::CreatorCannotLeave));
    assert!(leave_tournament(&mut t, "B").is_ok());
    assert_eq!(leave_tournament(&mut t, "B"), Err(TournamentError::NotRegistered));
    assert_eq!(t.registered_players, names(&["A"]));
    assert_eq!(cancel_tournament(&mut t, "B", 9), Err(TournamentError::OnlyCreatorCanCancel));
    assert!(cancel_tournament(&mut t, "A", 9).is_ok());
    assert_eq!(t.status, TournamentStatus::Finished);
    assert_eq!(t.finished_at, Some(9));
    assert_eq!(join_tournament(&mut t, "C"), Err(TournamentError::NotAcceptingRegistrations));
}
