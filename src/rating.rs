//! Player statistics and Elo ratings, one rating per time-control category.
//!
//! The Elo update is `round(my + K * (outcome - E))` with
//! `E = 1 / (1 + 10^((opp - my) / 400))`. Since `my` and `K * outcome` are whole
//! numbers, only `round(K * E)` needs computing, and it depends on the rating
//! difference `d = opp - my` alone: it counts the thresholds `t` with `d <= t`,
//! where the thresholds are the differences at which `K * E` crosses `j + 1/2`,
//! `t_j = floor(400 * log10(K / (j + 1/2) - 1))` for `j` in `0..K`. No
//! difference lands exactly on a half, so the count is exact.
use vstd::prelude::*;
use crate::types::TimeControl;

verus! {

pub const MIN_RATING: u32 = 100;

pub const MAX_RATING: u32 = 3000;

pub const START_RATING: u32 = 1200;

/// Rated games in a category below which the larger K-factor applies.
pub const PROVISIONAL_GAMES: u32 = 30;

/// The result of a game for the player being rated.
#[derive(Debug, Clone, Copy, PartialEq, Eq, Structural)]
pub enum Outcome {
    Win,
    Loss,
    Draw,
}

/// Thresholds for K = 32, largest first.
pub open spec fn thresholds_k32() -> Seq<int> {
    seq![
        719, 523, 428, 364, 314, 273, 237, 205, 176, 149, 124, 100, 77, 54, 32, 10,
        -11, -33, -55, -78, -101, -125, -150, -177, -206, -238, -274, -315, -365, -429, -524, -720,
    ]
}

/// Thresholds for K = 16, largest first.
pub open spec fn thresholds_k16() -> Seq<int> {
    seq![596, 394, 292, 221, 162, 112, 65, 21, -22, -66, -113, -163, -222, -293, -395, -597]
}

pub open spec fn thresholds(k: int) -> Seq<int> {
    if k == 32 {
        thresholds_k32()
    } else {
        thresholds_k16()
    }
}

/// How many of `t` are at least `d`.
pub open spec fn count_at_least(t: Seq<int>, d: int) -> nat
    decreases t.len(),
{
    if t.len() == 0 {
        0
    } else {
        count_at_least(t.drop_last(), d) + if d <= t.last() {
            1nat
        } else {
            0nat
        }
    }
}

/// `round(k / (1 + 10^(d / 400)))`: the points a player is expected to score
/// against an opponent rated `d` higher, scaled by `k`.
pub open spec fn expected_scaled(k: int, d: int) -> int {
    count_at_least(thresholds(k), d) as int
}

/// `k` times the outcome's score (1, 0 or 1/2).
pub open spec fn outcome_scaled(k: int, outcome: Outcome) -> int {
    match outcome {
        Outcome::Win => k,
        Outcome::Loss => 0,
        Outcome::Draw => k / 2,
    }
}

pub open spec fn clamp_rating(x: int) -> int {
    if x < MIN_RATING {
        MIN_RATING as int
    } else if x > MAX_RATING {
        MAX_RATING as int
    } else {
        x
    }
}

pub open spec fn k_factor(games: int) -> int {
    if games < PROVISIONAL_GAMES {
        32
    } else {
        16
    }
}

/// The new rating after a game with `outcome` against `opp`, for a player
/// rated `my` who has played `games` rated games in the category.
pub open spec fn rated(my: int, opp: int, games: int, outcome: Outcome) -> int {
    let k = k_factor(games);
    clamp_rating(my + outcome_scaled(k, outcome) - expected_scaled(k, opp - my))
}

/// Rating category of a time control: 0 bullet, 1 blitz, 2 rapid.
pub open spec fn category(tc: TimeControl) -> int {
    match tc {
        TimeControl::Bullet1_0 | TimeControl::Bullet2_1 => 0,
        TimeControl::Blitz3_0 | TimeControl::Blitz5_3 => 1,
        TimeControl::Rapid10_0 => 2,
    }
}

pub proof fn lemma_count_bounds(t: Seq<int>, d: int)
    ensures
        count_at_least(t, d) <= t.len(),
    decreases t.len(),
{
    if t.len() > 0 {
        lemma_count_bounds(t.drop_last(), d);
    }
}

/// A prefix of `t` all at least `d` is counted.
pub proof fn lemma_count_prefix(t: Seq<int>, d: int, m: int)
    requires
        0 <= m <= t.len(),
        forall|j: int| 0 <= j < m ==> d <= #[trigger] t[j],
    ensures
        count_at_least(t, d) >= m,
    decreases t.len(),
{
    if t.len() > 0 {
        let m0 = if m == t.len() {
            m - 1
        } else {
            m
        };
        assert forall|j: int| 0 <= j < m0 implies d <= #[trigger] t.drop_last()[j] by {
            assert(t.drop_last()[j] == t[j]);
        }
        lemma_count_prefix(t.drop_last(), d, m0);
    }
}

/// A suffix of `t` all below `d` is not counted.
pub proof fn lemma_count_suffix(t: Seq<int>, d: int, m: int)
    requires
        0 <= m <= t.len(),
        forall|j: int| m <= j < t.len() ==> #[trigger] t[j] < d,
    ensures
        count_at_least(t, d) <= m,
    decreases t.len(),
{
    if t.len() > 0 {
        if m == t.len() {
            lemma_count_bounds(t, d);
        } else {
            assert forall|j: int| m <= j < t.drop_last().len() implies #[trigger] t.drop_last()[j]
                < d by {
                assert(t.drop_last()[j] == t[j]);
            }
            lemma_count_suffix(t.drop_last(), d, m);
        }
    }
}

proof fn lemma_expected_bounds(k: int, d: int)
    requires
        k == 32 || k == 16,
    ensures
        0 <= expected_scaled(k, d) <= k,
        d <= 0 ==> expected_scaled(k, d) >= k / 2,
        d >= 0 ==> expected_scaled(k, d) <= k / 2,
{
    let t = thresholds(k);
    lemma_count_bounds(t, d);
    if d <= 0 {
        lemma_count_prefix(t, d, k / 2);
    }
    if d >= 0 {
        lemma_count_suffix(t, d, k / 2);
    }
}

/// A rating update never leaves [100, 3000]; a loss against an opponent rated
/// no higher takes at least 8 points until the floor of 100 is reached, and a
/// win against one rated no lower adds at least 8 until the ceiling of 3000,
/// so repeated losses end at exactly 100 and repeated wins at exactly 3000.
pub proof fn law_rating_clamped(my: int, opp: int, games: int)
    requires
        MIN_RATING <= my <= MAX_RATING,
    ensures
        forall|o: Outcome|
            MIN_RATING <= #[trigger] rated(my, opp, games, o) <= MAX_RATING,
        opp <= my ==> rated(my, opp, games, Outcome::Loss) == MIN_RATING || rated(
            my,
            opp,
            games,
            Outcome::Loss,
        ) <= my - 8,
        opp >= my ==> rated(my, opp, games, Outcome::Win) == MAX_RATING || rated(
            my,
            opp,
            games,
            Outcome::Win,
        ) >= my + 8,
        rated(my, opp, games, Outcome::Loss) <= my,
        rated(my, opp, games, Outcome::Win) >= my,
{
    lemma_expected_bounds(k_factor(games), opp - my);
}

/// Two new players rated `r`: after one wins and then loses the rematch, each
/// is back within one point of `r` (from 1200: 1216 and 1184, then 1199 and
/// 1201).
pub proof fn law_elo_round_trip(r: int)
    requires
        MIN_RATING + 16 <= r <= MAX_RATING - 16,
    ensures
        rated(r, r, 0, Outcome::Win) == r + 16,
        rated(r, r, 0, Outcome::Loss) == r - 16,
        rated(r + 16, r - 16, 1, Outcome::Loss) == r - 1,
        rated(r - 16, r + 16, 1, Outcome::Win) == r + 1,
{
    let t = thresholds_k32();
    lemma_count_prefix(t, 0, 16);
    lemma_count_suffix(t, 0, 16);
    lemma_count_prefix(t, 32, 15);
    lemma_count_suffix(t, 32, 15);
    lemma_count_prefix(t, -32, 17);
    lemma_count_suffix(t, -32, 17);
}

/// `round(k / (1 + 10^(d / 400)))` for `k` of 32 or 16.
fn expected_points_scaled(k: u32, d: i64) -> (r: u32)
    requires
        k == 32 || k == 16,
    ensures
        r == expected_scaled(k as int, d as int),
        r <= k,
{
    let t: Vec<i64> = if k == 32 {
        vec![
            719, 523, 428, 364, 314, 273, 237, 205, 176, 149, 124, 100, 77, 54, 32, 10,
            -11, -33, -55, -78, -101, -125, -150, -177, -206, -238, -274, -315, -365, -429, -524,
            -720,
        ]
    } else {
        vec![596, 394, 292, 221, 162, 112, 65, 21, -22, -66, -113, -163, -222, -293, -395, -597]
    };
    let ghost ts = thresholds(k as int);
    assert(t@.map_values(|x: i64| x as int) =~= ts);
    let mut n: u32 = 0;
    let mut i: usize = 0;
    while i < t.len()
        invariant
            i <= t.len(),
            t@.len() == ts.len(),
            ts.len() == k,
            forall|j: int| 0 <= j < t@.len() ==> t@[j] as int == #[trigger] ts[j],
            n <= i,
            n == count_at_least(ts.take(i as int), d as int),
        decreases t.len() - i,
    {
        assert(ts.take(i + 1).drop_last() =~= ts.take(i as int));
        if d <= t[i] {
            n = n + 1;
        }
        i = i + 1;
    }
    assert(ts.take(t.len() as int) =~= ts);
    n
}

/// The rating after a game, from the rating before, the opponent's rating, the
/// rated games already played in the category and the outcome.
pub fn next_rating(my: u32, opp: u32, games: u32, outcome: Outcome) -> (r: u32)
    ensures
        r == rated(my as int, opp as int, games as int, outcome),
{
    let k: u32 = if games < PROVISIONAL_GAMES {
        32
    } else {
        16
    };
    let e = expected_points_scaled(k, opp as i64 - my as i64);
    let gained: u32 = match outcome {
        Outcome::Win => k,
        Outcome::Loss => 0,
        Outcome::Draw => k / 2,
    };
    let x: i64 = my as i64 + gained as i64 - e as i64;
    if x < MIN_RATING as i64 {
        MIN_RATING
    } else if x > MAX_RATING as i64 {
        MAX_RATING
    } else {
        x as u32
    }
}

/// A player's record and ratings.
#[derive(Debug, Clone)]
pub struct PlayerStats {
    pub chain_id: String,
    pub games_played: u32,
    pub games_won: u32,
    pub games_lost: u32,
    pub games_drawn: u32,
    pub win_streak: u32,
    pub best_streak: u32,
    pub bullet_rating: u32,
    pub bullet_games: u32,
    pub blitz_rating: u32,
    pub blitz_games: u32,
    pub rapid_rating: u32,
    pub rapid_games: u32,
}

impl Default for PlayerStats {
    fn default() -> (s: PlayerStats)
        ensures
            s.chain_id@.len() == 0,
            s.games_played == 0,
            s.games_won == 0,
            s.games_lost == 0,
            s.games_drawn == 0,
            s.win_streak == 0,
            s.best_streak == 0,
            s.bullet_rating == START_RATING,
            s.bullet_games == 0,
            s.blitz_rating == START_RATING,
            s.blitz_games == 0,
            s.rapid_rating == START_RATING,
            s.rapid_games == 0,
    {
        PlayerStats {
            chain_id: String::new(),
            games_played: 0,
            games_won: 0,
            games_lost: 0,
            games_drawn: 0,
            win_streak: 0,
            best_streak: 0,
            bullet_rating: START_RATING,
            bullet_games: 0,
            blitz_rating: START_RATING,
            blitz_games: 0,
            rapid_rating: START_RATING,
            rapid_games: 0,
        }
    }
}

impl PlayerStats {
    pub open spec fn rating_in(self, tc: TimeControl) -> u32 {
        if category(tc) == 0 {
            self.bullet_rating
        } else if category(tc) == 1 {
            self.blitz_rating
        } else {
            self.rapid_rating
        }
    }

    pub open spec fn games_in(self, tc: TimeControl) -> u32 {
        if category(tc) == 0 {
            self.bullet_games
        } else if category(tc) == 1 {
            self.blitz_games
        } else {
            self.rapid_games
        }
    }

    /// These stats with the category of `tc` holding `rating` and `games`.
    pub open spec fn with_category(self, tc: TimeControl, rating: u32, games: u32) -> PlayerStats {
        if category(tc) == 0 {
            PlayerStats { bullet_rating: rating, bullet_games: games, ..self }
        } else if category(tc) == 1 {
            PlayerStats { blitz_rating: rating, blitz_games: games, ..self }
        } else {
            PlayerStats { rapid_rating: rating, rapid_games: games, ..self }
        }
    }

    pub open spec fn after_win(self) -> PlayerStats {
        let streak = (self.win_streak + 1) as u32;
        PlayerStats {
            games_played: (self.games_played + 1) as u32,
            games_won: (self.games_won + 1) as u32,
            win_streak: streak,
            best_streak: if streak > self.best_streak {
                streak
            } else {
                self.best_streak
            },
            ..self
        }
    }

    pub open spec fn after_loss(self) -> PlayerStats {
        PlayerStats {
            games_played: (self.games_played + 1) as u32,
            games_lost: (self.games_lost + 1) as u32,
            win_streak: 0,
            ..self
        }
    }

    pub open spec fn after_draw(self) -> PlayerStats {
        PlayerStats {
            games_played: (self.games_played + 1) as u32,
            games_drawn: (self.games_drawn + 1) as u32,
            ..self
        }
    }

    pub open spec fn counters_fit(self) -> bool {
        &&& self.games_played < u32::MAX
        &&& self.games_won < u32::MAX
        &&& self.games_lost < u32::MAX
        &&& self.games_drawn < u32::MAX
        &&& self.win_streak < u32::MAX
    }

    /// Fresh stats for a player, every rating at 1200.
    pub fn new(chain_id: String) -> (s: PlayerStats)
        ensures
            s.chain_id == chain_id,
            s.games_played == 0,
            s.games_won == 0,
            s.games_lost == 0,
            s.games_drawn == 0,
            s.win_streak == 0,
            s.best_streak == 0,
            s.bullet_rating == START_RATING,
            s.bullet_games == 0,
            s.blitz_rating == START_RATING,
            s.blitz_games == 0,
            s.rapid_rating == START_RATING,
            s.rapid_games == 0,
    {
        PlayerStats { chain_id, ..PlayerStats::default() }
    }

    pub fn record_win(&mut self)
        requires
            old(self).counters_fit(),
        ensures
            *final(self) == old(self).after_win(),
    {
        self.games_played = self.games_played + 1;
        self.games_won = self.games_won + 1;
        self.win_streak = self.win_streak + 1;
        if self.win_streak > self.best_streak {
            self.best_streak = self.win_streak;
        }
    }

    pub fn record_loss(&mut self)
        requires
            old(self).counters_fit(),
        ensures
            *final(self) == old(self).after_loss(),
    {
        self.games_played = self.games_played + 1;
        self.games_lost = self.games_lost + 1;
        self.win_streak = 0;
    }

    pub fn record_draw(&mut self)
        requires
            old(self).counters_fit(),
        ensures
            *final(self) == old(self).after_draw(),
    {
        self.games_played = self.games_played + 1;
        self.games_drawn = self.games_drawn + 1;
    }

    pub fn get_rating(&self, time_control: &TimeControl) -> (r: u32)
        ensures
            r == self.rating_in(*time_control),
    {
        match time_control {
            TimeControl::Bullet1_0 | TimeControl::Bullet2_1 => self.bullet_rating,
            TimeControl::Blitz3_0 | TimeControl::Blitz5_3 => self.blitz_rating,
            TimeControl::Rapid10_0 => self.rapid_rating,
        }
    }

    pub fn get_games_in_category(&self, time_control: &TimeControl) -> (r: u32)
        ensures
            r == self.games_in(*time_control),
    {
        match time_control {
            TimeControl::Bullet1_0 | TimeControl::Bullet2_1 => self.bullet_games,
            TimeControl::Blitz3_0 | TimeControl::Blitz5_3 => self.blitz_games,
            TimeControl::Rapid10_0 => self.rapid_games,
        }
    }

    /// Applies the Elo update for one rated game in the category of
    /// `time_control` and counts the game there.
    pub fn update_rating(&mut self, opponent_rating: u32, outcome: Outcome, time_control: &TimeControl)
        requires
            old(self).games_in(*time_control) < u32::MAX,
        ensures
            *final(self) == old(self).with_category(
                *time_control,
                rated(
                    old(self).rating_in(*time_control) as int,
                    opponent_rating as int,
                    old(self).games_in(*time_control) as int,
                    outcome,
                ) as u32,
                (old(self).games_in(*time_control) + 1) as u32,
            ),
    {
        let my_rating = self.get_rating(time_control);
        let games = self.get_games_in_category(time_control);
        let new_rating = next_rating(my_rating, opponent_rating, games, outcome);
        match time_control {
            TimeControl::Bullet1_0 | TimeControl::Bullet2_1 => {
                self.bullet_rating = new_rating;
                self.bullet_games = games + 1;
            },
            TimeControl::Blitz3_0 | TimeControl::Blitz5_3 => {
                self.blitz_rating = new_rating;
                self.blitz_games = games + 1;
            },
            TimeControl::Rapid10_0 => {
                self.rapid_rating = new_rating;
                self.rapid_games = games + 1;
            },
        }
    }

    pub fn record_win_with_rating(&mut self, opponent_rating: u32, time_control: &TimeControl)
        requires
            old(self).counters_fit(),
            old(self).games_in(*time_control) < u32::MAX,
        ensures
            *final(self) == old(self).after_win().with_category(
                *time_control,
                rated(
                    old(self).rating_in(*time_control) as int,
                    opponent_rating as int,
                    old(self).games_in(*time_control) as int,
                    Outcome::Win,
                ) as u32,
                (old(self).games_in(*time_control) + 1) as u32,
            ),
    {
        self.record_win();
        self.update_rating(opponent_rating, Outcome::Win, time_control);
    }

    pub fn record_loss_with_rating(&mut self, opponent_rating: u32, time_control: &TimeControl)
        requires
            old(self).counters_fit(),
            old(self).games_in(*time_control) < u32::MAX,
        ensures
            *final(self) == old(self).after_loss().with_category(
                *time_control,
                rated(
                    old(self).rating_in(*time_control) as int,
                    opponent_rating as int,
                    old(self).games_in(*time_control) as int,
                    Outcome::Loss,
                ) as u32,
                (old(self).games_in(*time_control) + 1) as u32,
            ),
    {
        self.record_loss();
        self.update_rating(opponent_rating, Outcome::Loss, time_control);
    }

    pub fn record_draw_with_rating(&mut self, opponent_rating: u32, time_control: &TimeControl)
        requires
            old(self).counters_fit(),
            old(self).games_in(*time_control) < u32::MAX,
        ensures
            *final(self) == old(self).after_draw().with_category(
                *time_control,
                rated(
                    old(self).rating_in(*time_control) as int,
                    opponent_rating as int,
                    old(self).games_in(*time_control) as int,
                    Outcome::Draw,
                ) as u32,
                (old(self).games_in(*time_control) + 1) as u32,
            ),
    {
        self.record_draw();
        self.update_rating(opponent_rating, Outcome::Draw, time_control);
    }
}

/// The rating after `n` rated games in a row with the same `outcome` against
/// an opponent rated `opp`, starting from `r` with `games` games played.
pub open spec fn after_series(r: int, opp: int, games: int, outcome: Outcome, n: nat) -> int
    decreases n,
{
    if n == 0 {
        r
    } else {
        after_series(rated(r, opp, games, outcome), opp, games + 1, outcome, (n - 1) as nat)
    }
}

/// Losing again and again to an opponent rated at most 100 never takes a
/// rating below 100, and after 363 losses it is exactly 100.
pub proof fn law_losses_reach_floor(r: int, opp: int, games: int, n: nat)
    requires
        MIN_RATING <= r <= MAX_RATING,
        opp <= MIN_RATING,
    ensures
        MIN_RATING <= after_series(r, opp, games, Outcome::Loss, n) <= r,
        r <= MIN_RATING + 8 * n ==> after_series(r, opp, games, Outcome::Loss, n) == MIN_RATING,
        n >= 363 ==> after_series(r, opp, games, Outcome::Loss, n) == MIN_RATING,
    decreases n,
{
    if n > 0 {
        law_rating_clamped(r, opp, games);
        let r1 = rated(r, opp, games, Outcome::Loss);
        law_losses_reach_floor(r1, opp, games + 1, (n - 1) as nat);
    }
}

/// Winning again and again against an opponent rated at least 3000 never
/// takes a rating above 3000, and after 363 wins it is exactly 3000.
pub proof fn law_wins_reach_ceiling(r: int, opp: int, games: int, n: nat)
    requires
        MIN_RATING <= r <= MAX_RATING,
        opp >= MAX_RATING,
    ensures
        r <= after_series(r, opp, games, Outcome::Win, n) <= MAX_RATING,
        r + 8 * n >= MAX_RATING ==> after_series(r, opp, games, Outcome::Win, n) == MAX_RATING,
        n >= 363 ==> after_series(r, opp, games, Outcome::Win, n) == MAX_RATING,
    decreases n,
{
    if n > 0 {
        law_rating_clamped(r, opp, games);
        let r1 = rated(r, opp, games, Outcome::Win);
        law_wins_reach_ceiling(r1, opp, games + 1, (n - 1) as nat);
    }
}

} // verus!
