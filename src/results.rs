//! Applying a finished game to both players' statistics.
use vstd::prelude::*;
use crate::clock::Clock;
use crate::game::{opt_text, CheckersGame};
use crate::rating::{rated, Outcome, PlayerStats};
use crate::types::{GameResult, PlayerType, TimeControl};

verus! {

/// The fixed rating of the computer opponent, whose stats are never kept.
pub const AI_RATING: u32 = 1500;

/// A seat is the computer's when its player is named "AI" or typed as AI.
pub open spec fn seat_is_ai(player: Option<String>, kind: PlayerType) -> bool {
    opt_text(player) == Some(seq!['A', 'I']) || kind == PlayerType::AI
}

/// The time control whose clock settings `clock` has; Blitz 5+3 otherwise.
pub open spec fn time_control_of(clock: Option<Clock>) -> TimeControl {
    match clock {
        Some(c) => if c.initial_time_ms == 60_000 && c.increment_ms == 0 {
            TimeControl::Bullet1_0
        } else if c.initial_time_ms == 120_000 && c.increment_ms == 1_000 {
            TimeControl::Bullet2_1
        } else if c.initial_time_ms == 180_000 && c.increment_ms == 0 {
            TimeControl::Blitz3_0
        } else if c.initial_time_ms == 300_000 && c.increment_ms == 3_000 {
            TimeControl::Blitz5_3
        } else if c.initial_time_ms == 600_000 && c.increment_ms == 0 {
            TimeControl::Rapid10_0
        } else {
            TimeControl::Blitz5_3
        },
        None => TimeControl::Blitz5_3,
    }
}

pub fn time_control_of_clock(clock: &Option<Clock>) -> (r: TimeControl)
    ensures
        r == time_control_of(*clock),
{
    match clock {
        Some(c) => {
            if c.initial_time_ms == 60_000 && c.increment_ms == 0 {
                TimeControl::Bullet1_0
            } else if c.initial_time_ms == 120_000 && c.increment_ms == 1_000 {
                TimeControl::Bullet2_1
            } else if c.initial_time_ms == 180_000 && c.increment_ms == 0 {
                TimeControl::Blitz3_0
            } else if c.initial_time_ms == 300_000 && c.increment_ms == 3_000 {
                TimeControl::Blitz5_3
            } else if c.initial_time_ms == 600_000 && c.increment_ms == 0 {
                TimeControl::Rapid10_0
            } else {
                TimeControl::Blitz5_3
            }
        },
        None => TimeControl::Blitz5_3,
    }
}

fn is_ai_seat(player: &Option<String>, kind: PlayerType) -> (r: bool)
    ensures
        r == seat_is_ai(*player, kind),
{
    proof {
        reveal_strlit("AI");
    }
    let ai = String::from_str("AI");
    assert(ai@ =~= seq!['A', 'I']);
    let named_ai = match player {
        Some(p) => *p == ai,
        None => false,
    };
    named_ai || kind == PlayerType::AI
}

/// The outcome of `result` for the red (`red_side`) or black player.
pub open spec fn outcome_for(result: GameResult, red_side: bool) -> Outcome {
    match result {
        GameResult::RedWins => if red_side {
            Outcome::Win
        } else {
            Outcome::Loss
        },
        GameResult::BlackWins => if red_side {
            Outcome::Loss
        } else {
            Outcome::Win
        },
        _ => Outcome::Draw,
    }
}

/// The stats after counting a game with `outcome`, without rating.
pub open spec fn counted(s: PlayerStats, outcome: Outcome) -> PlayerStats {
    match outcome {
        Outcome::Win => s.after_win(),
        Outcome::Loss => s.after_loss(),
        Outcome::Draw => s.after_draw(),
    }
}

/// The stats after a rated game with `outcome` against `opp` under `tc`.
pub open spec fn rated_after(s: PlayerStats, outcome: Outcome, opp: u32, tc: TimeControl) -> PlayerStats {
    counted(s, outcome).with_category(
        tc,
        rated(s.rating_in(tc) as int, opp as int, s.games_in(tc) as int, outcome) as u32,
        (s.games_in(tc) + 1) as u32,
    )
}

pub open spec fn stats_fit(s: PlayerStats) -> bool {
    &&& s.counters_fit()
    &&& s.bullet_games < u32::MAX
    &&& s.blitz_games < u32::MAX
    &&& s.rapid_games < u32::MAX
}

fn count_outcome(stats: &mut PlayerStats, outcome: Outcome)
    requires
        old(stats).counters_fit(),
    ensures
        *final(stats) == counted(*old(stats), outcome),
{
    match outcome {
        Outcome::Win => stats.record_win(),
        Outcome::Loss => stats.record_loss(),
        Outcome::Draw => stats.record_draw(),
    }
}

fn outcome_of(result: GameResult, red_side: bool) -> (o: Outcome)
    ensures
        o == outcome_for(result, red_side),
{
    match result {
        GameResult::RedWins => if red_side {
            Outcome::Win
        } else {
            Outcome::Loss
        },
        GameResult::BlackWins => if red_side {
            Outcome::Loss
        } else {
            Outcome::Win
        },
        _ => Outcome::Draw,
    }
}

/// Applies a finished game to the stats of its red and black players (stats
/// that the caller loaded, fresh ones for a seat without a player). Returns
/// which of the two were changed and are to be saved: never a computer seat,
/// nothing for a game in progress. An unrated game only counts the result; a
/// rated one also updates the rating of the time control's category, each
/// side rated against the other's rating before the game, the computer at
/// 1500.
pub fn record_game_result(
    game: &CheckersGame,
    result: GameResult,
    red_stats: &mut PlayerStats,
    black_stats: &mut PlayerStats,
) -> (saved: (bool, bool))
    requires
        stats_fit(*old(red_stats)),
        stats_fit(*old(black_stats)),
    ensures
        ({
            let red_ai = seat_is_ai(game.red_player, game.red_player_type);
            let black_ai = seat_is_ai(game.black_player, game.black_player_type);
            let tc = time_control_of(game.clock);
            let red_rating = if red_ai {
                AI_RATING
            } else {
                old(red_stats).rating_in(tc)
            };
            let black_rating = if black_ai {
                AI_RATING
            } else {
                old(black_stats).rating_in(tc)
            };
            if result == GameResult::InProgress {
                saved == (false, false) && *final(red_stats) == *old(red_stats) && *final(black_stats)
                    == *old(black_stats)
            } else {
                &&& saved == (!red_ai, !black_ai)
                &&& *final(red_stats) == if red_ai {
                    *old(red_stats)
                } else if game.is_rated {
                    rated_after(*old(red_stats), outcome_for(result, true), black_rating, tc)
                } else {
                    counted(*old(red_stats), outcome_for(result, true))
                }
                &&& *final(black_stats) == if black_ai {
                    *old(black_stats)
                } else if game.is_rated {
                    rated_after(*old(black_stats), outcome_for(result, false), red_rating, tc)
                } else {
                    counted(*old(black_stats), outcome_for(result, false))
                }
            }
        }),
{
    if result == GameResult::InProgress {
        return (false, false);
    }
    let red_ai = is_ai_seat(&game.red_player, game.red_player_type);
    let black_ai = is_ai_seat(&game.black_player, game.black_player_type);
    if !game.is_rated {
        return record_game_counts_only(game, result, red_ai, black_ai, red_stats, black_stats);
    }
    let tc = time_control_of_clock(&game.clock);
    let red_rating = if red_ai {
        AI_RATING
    } else {
        red_stats.get_rating(&tc)
    };
    let black_rating = if black_ai {
        AI_RATING
    } else {
        black_stats.get_rating(&tc)
    };
    if !red_ai {
        let o = outcome_of(result, true);
        count_outcome(red_stats, o);
        red_stats.update_rating(black_rating, o, &tc);
    }
    if !black_ai {
        let o = outcome_of(result, false);
        count_outcome(black_stats, o);
        black_stats.update_rating(red_rating, o, &tc);
    }
    (!red_ai, !black_ai)
}

/// The unrated part of `record_game_result`: counts the result, without
/// rating, for each seat not played by the computer.
pub fn record_game_counts_only(
    game: &CheckersGame,
    result: GameResult,
    red_is_ai: bool,
    black_is_ai: bool,
    red_stats: &mut PlayerStats,
    black_stats: &mut PlayerStats,
) -> (saved: (bool, bool))
    requires
        old(red_stats).counters_fit(),
        old(black_stats).counters_fit(),
        result != GameResult::InProgress,
    ensures
        saved == (!red_is_ai, !black_is_ai),
        *final(red_stats) == if red_is_ai {
            *old(red_stats)
        } else {
            counted(*old(red_stats), outcome_for(result, true))
        },
        *final(black_stats) == if black_is_ai {
            *old(black_stats)
        } else {
            counted(*old(black_stats), outcome_for(result, false))
        },
{
    if !red_is_ai {
        count_outcome(red_stats, outcome_of(result, true));
    }
    if !black_is_ai {
        count_outcome(black_stats, outcome_of(result, false));
    }
    (!red_is_ai, !black_is_ai)
}

} // verus!
