//! Swiss-system tournaments: registration, pairings, byes, results and rounds.
use vstd::prelude::*;
use vstd::arithmetic::power2::{pow2, lemma_pow2_unfold, lemma2_to64, lemma2_to64_rest};
use vstd::utf8::encode_utf8;
use crate::game::opt_text;
use crate::types::{GameResult, TimeControl};

verus! {

#[derive(Debug, Clone, Copy, PartialEq, Eq, Structural, Default)]
pub enum TournamentStatus {
    #[default]
    Registration,
    InProgress,
    Finished,
    Cancelled,
}

#[derive(Debug, Clone, Copy, PartialEq, Eq, Structural, Default)]
pub enum MatchStatus {
    #[default]
    Pending,
    Ready,
    InProgress,
    Finished,
    Bye,
}

#[derive(Debug, Clone, Copy, PartialEq, Eq, Structural, Default)]
pub enum TournamentFormat {
    #[default]
    Swiss,
    SingleElimination,
}

/// A player's standing in a Swiss tournament.
#[derive(Debug, Clone, Default)]
pub struct SwissParticipant {
    pub player_id: String,
    pub score: u32,
    pub opponents: Vec<String>,
    pub has_bye: bool,
}

#[derive(Debug, Clone, Default)]
pub struct TournamentRound {
    pub round_number: u32,
    pub matches: Vec<TournamentMatch>,
    pub completed: bool,
}

#[derive(Debug, Clone, Default)]
pub struct TournamentMatch {
    pub id: String,
    pub round: u32,
    pub match_number: u32,
    pub player1: Option<String>,
    pub player2: Option<String>,
    pub game_id: Option<String>,
    pub winner: Option<String>,
    pub status: MatchStatus,
}

#[derive(Debug, Clone, Default)]
pub struct Tournament {
    pub id: String,
    pub name: String,
    pub creator: String,
    pub status: TournamentStatus,
    pub time_control: TimeControl,
    pub max_players: u32,
    pub registered_players: Vec<String>,
    pub matches: Vec<TournamentMatch>,
    pub current_round: u32,
    pub total_rounds: u32,
    pub winner: Option<String>,
    pub created_at: u64,
    pub started_at: Option<u64>,
    pub finished_at: Option<u64>,
    pub is_public: bool,
    pub invite_code: Option<String>,
    pub scheduled_start: Option<u64>,
    pub format: TournamentFormat,
    pub participants: Vec<SwissParticipant>,
    pub rounds: Vec<TournamentRound>,
    pub num_rounds: u32,
}

/// Tournaments are public unless created otherwise.
pub fn default_is_public() -> (r: bool)
    ensures
        r,
{
    true
}

/// One pairing: both slots hold the same player for a bye.
pub type Pairing = (Option<String>, Option<String>);

/// `ceil(log2(n))`, and 0 for `n <= 1`.
pub open spec fn ceil_log2(n: nat) -> nat
    decreases n,
{
    if n <= 1 {
        0
    } else {
        1 + ceil_log2((n - n / 2) as nat)
    }
}

proof fn lemma_ceil_log2_bound(n: nat, j: nat)
    requires
        n <= pow2(j),
    ensures
        ceil_log2(n) <= j,
    decreases j,
{
    if n > 1 {
        if j == 0 {
            lemma2_to64();
        } else {
            lemma_pow2_unfold(j);
            lemma_ceil_log2_bound((n - n / 2) as nat, (j - 1) as nat);
        }
    }
}

/// Number of Swiss rounds for `player_count` players: `ceil(log2(n))`, at least 3.
pub fn calculate_swiss_rounds(player_count: usize) -> (r: u32)
    ensures
        r == if ceil_log2(player_count as nat) < 3 {
            3
        } else {
            ceil_log2(player_count as nat)
        },
{
    proof {
        lemma2_to64_rest();
        lemma_ceil_log2_bound(player_count as nat, 64);
    }
    let mut m: usize = player_count;
    let mut k: u32 = 0;
    while m > 1
        invariant
            k + ceil_log2(m as nat) == ceil_log2(player_count as nat),
            ceil_log2(player_count as nat) <= 64,
        decreases m,
    {
        m = m - m / 2;
        k = k + 1;
    }
    if k < 3 {
        3
    } else {
        k
    }
}

/// Fold pairing of `p`: `p[i]` against `p[n - 1 - i]` for `i < n / 2`, then a
/// bye for the middle player of an odd field.
pub open spec fn fold_pairings(p: Seq<String>) -> Seq<Pairing> {
    let n = p.len();
    Seq::new(
        n / 2 + n % 2,
        |k: int|
            if k < n / 2 {
                (Some(p[k]), Some(p[n - 1 - k]))
            } else {
                (Some(p[(n / 2) as int]), Some(p[(n / 2) as int]))
            },
    )
}

/// Round-one fold pairing: player `i` meets player `n - 1 - i` for `i < n / 2`;
/// with an odd field the middle player gets a bye.
pub fn generate_first_round_pairings(players: &Vec<String>) -> (r: Vec<Pairing>)
    ensures
        r@ == fold_pairings(players@),
{
    let n = players.len();
    let mut pairings: Vec<Pairing> = Vec::new();
    let pair_count = n / 2;
    let mut i: usize = 0;
    while i < pair_count
        invariant
            n == players@.len(),
            pair_count == n / 2,
            i <= pair_count,
            pairings@.len() == i,
            forall|k: int|
                0 <= k < i ==> #[trigger] pairings@[k] == (
                Some(players@[k]),
                Some(players@[n - 1 - k]),
                ),
        decreases pair_count - i,
    {
        let p1 = players[i].clone();
        let p2 = players[n - 1 - i].clone();
        pairings.push((Some(p1), Some(p2)));
        i = i + 1;
    }
    if n % 2 == 1 {
        let bye1 = players[n / 2].clone();
        let bye2 = players[n / 2].clone();
        pairings.push((Some(bye1), Some(bye2)));
    }
    assert(pairings@ =~= fold_pairings(players@));
    pairings
}

pub open spec fn texts(v: Seq<String>) -> Seq<Seq<char>> {
    v.map_values(|s: String| s@)
}

/// `v` with `x` appended unless already there.
pub open spec fn add_once(v: Seq<Seq<char>>, x: Seq<char>) -> Seq<Seq<char>> {
    if v.contains(x) {
        v
    } else {
        v.push(x)
    }
}

/// The participant after a result: `points` more, and `opponent` remembered.
pub open spec fn credited(p: SwissParticipant, q: SwissParticipant, points: int, opponent: Seq<
    char,
>) -> bool {
    &&& q.player_id == p.player_id
    &&& q.has_bye == p.has_bye
    &&& q.score == p.score + points
    &&& texts(q.opponents@) == add_once(texts(p.opponents@), opponent)
}

/// `after` is `before` with the result of a game between `winner` and `loser`
/// recorded.
pub open spec fn recorded(
    before: Seq<SwissParticipant>,
    after: Seq<SwissParticipant>,
    winner: Seq<char>,
    loser: Seq<char>,
    is_draw: bool,
) -> bool {
    &&& after.len() == before.len()
    &&& forall|i: int|
        0 <= i < before.len() ==> {
            let p = #[trigger] before[i];
            let q = after[i];
            if p.player_id@ == winner {
                credited(p, q, if is_draw { 1 } else { 2 }, loser)
            } else if p.player_id@ == loser {
                credited(p, q, if is_draw { 1 } else { 0 }, winner)
            } else {
                q == p
            }
        }
}

pub open spec fn scores_fit(ps: Seq<SwissParticipant>) -> bool {
    forall|i: int| 0 <= i < ps.len() ==> #[trigger] ps[i].score <= u32::MAX - 2
}

fn text_in(v: &Vec<String>, x: &String) -> (r: bool)
    ensures
        r == texts(v@).contains(x@),
{
    let mut i: usize = 0;
    while i < v.len()
        invariant
            i <= v@.len(),
            forall|k: int| 0 <= k < i ==> v@[k]@ != x@,
        decreases v.len() - i,
    {
        if v[i] == *x {
            assert(texts(v@)[i as int] == x@);
            return true;
        }
        i = i + 1;
    }
    assert(!texts(v@).contains(x@)) by {
        if texts(v@).contains(x@) {
            let k = choose|k: int| 0 <= k < texts(v@).len() && texts(v@)[k] == x@;
            assert(v@[k]@ == x@);
        }
    }
    false
}

fn remember(opponents: &mut Vec<String>, who: &String)
    ensures
        texts(final(opponents)@) == add_once(texts(old(opponents)@), who@),
{
    if !text_in(opponents, who) {
        opponents.push(who.clone());
        assert(texts(final(opponents)@) =~= texts(old(opponents)@).push(who@));
    }
}

/// Records a finished game: the winner gains 2 points (1 on a draw), the loser
/// 1 on a draw, and each remembers the other as an opponent.
pub fn record_swiss_result(
    participants: &mut Vec<SwissParticipant>,
    winner_id: &str,
    loser_id: &str,
    is_draw: bool,
)
    requires
        scores_fit(old(participants)@),
    ensures
        recorded(old(participants)@, final(participants)@, winner_id@, loser_id@, is_draw),
{
    let winner = String::from_str(winner_id);
    let loser = String::from_str(loser_id);
    let n = participants.len();
    let mut i: usize = 0;
    while i < n
        invariant
            n == old(participants)@.len(),
            participants@.len() == n,
            i <= n,
            winner@ == winner_id@,
            loser@ == loser_id@,
            scores_fit(old(participants)@),
            forall|k: int| i <= k < n ==> #[trigger] participants@[k] == old(participants)@[k],
            forall|k: int|
                0 <= k < i ==> {
                    let p = #[trigger] old(participants)@[k];
                    let q = participants@[k];
                    if p.player_id@ == winner_id@ {
                        credited(p, q, if is_draw { 1 } else { 2 }, loser_id@)
                    } else if p.player_id@ == loser_id@ {
                        credited(p, q, if is_draw { 1 } else { 0 }, winner_id@)
                    } else {
                        q == p
                    }
                },
        decreases n - i,
    {
        if participants[i].player_id == winner {
            let gain: u32 = if is_draw {
                1
            } else {
                2
            };
            participants[i].score = participants[i].score + gain;
            remember(&mut participants[i].opponents, &loser);
        } else if participants[i].player_id == loser {
            let gain: u32 = if is_draw {
                1
            } else {
                0
            };
            participants[i].score = participants[i].score + gain;
            remember(&mut participants[i].opponents, &winner);
        }
        i = i + 1;
    }
}

/// Lexicographic order on texts by code point (the order of `String`).
pub open spec fn text_le(a: Seq<char>, b: Seq<char>) -> bool
    decreases a.len(),
{
    if a.len() == 0 {
        true
    } else if b.len() == 0 {
        false
    } else if (a[0] as u32) < (b[0] as u32) {
        true
    } else if (a[0] as u32) == (b[0] as u32) {
        text_le(a.drop_first(), b.drop_first())
    } else {
        false
    }
}

pub proof fn lemma_text_le_total(a: Seq<char>, b: Seq<char>)
    ensures
        text_le(a, b) || text_le(b, a),
    decreases a.len(),
{
    if a.len() > 0 && b.len() > 0 && (a[0] as u32) == (b[0] as u32) {
        lemma_text_le_total(a.drop_first(), b.drop_first());
    }
}

pub proof fn lemma_text_le_transitive(a: Seq<char>, b: Seq<char>, c: Seq<char>)
    requires
        text_le(a, b),
        text_le(b, c),
    ensures
        text_le(a, c),
    decreases a.len(),
{
    if a.len() > 0 && b.len() > 0 && c.len() > 0 && (a[0] as u32) == (b[0] as u32) && (b[0] as u32)
        == (c[0] as u32) {
        lemma_text_le_transitive(a.drop_first(), b.drop_first(), c.drop_first());
    }
}

fn text_le_exec(a: &String, b: &String) -> (r: bool)
    ensures
        r == text_le(a@, b@),
{
    let sa = a.as_str();
    let sb = b.as_str();
    let na = sa.unicode_len();
    let nb = sb.unicode_len();
    let mut i: usize = 0;
    assert(a@.skip(0) =~= a@);
    assert(b@.skip(0) =~= b@);
    while i < na && i < nb
        invariant
            na == a@.len(),
            nb == b@.len(),
            sa@ == a@,
            sb@ == b@,
            i <= na,
            i <= nb,
            text_le(a@, b@) == text_le(a@.skip(i as int), b@.skip(i as int)),
        decreases na - i,
    {
        let x = sa.get_char(i);
        let y = sb.get_char(i);
        if (x as u32) != (y as u32) {
            return (x as u32) < (y as u32);
        }
        assert(a@.skip(i as int).drop_first() =~= a@.skip(i + 1));
        assert(b@.skip(i as int).drop_first() =~= b@.skip(i + 1));
        i = i + 1;
    }
    na <= nb
}

/// `a` is ranked no lower than `b`: a higher score, or an equal score and a
/// player id that is not greater.
pub open spec fn ranks_before(a: SwissParticipant, b: SwissParticipant) -> bool {
    a.score > b.score || (a.score == b.score && text_le(a.player_id@, b.player_id@))
}

pub open spec fn ranked(ps: Seq<SwissParticipant>) -> bool {
    forall|i: int, j: int| 0 <= i < j < ps.len() ==> ranks_before(#[trigger] ps[i], #[trigger] ps[j])
}

fn ranks_before_exec(a: &SwissParticipant, b: &SwissParticipant) -> (r: bool)
    ensures
        r == ranks_before(*a, *b),
{
    a.score > b.score || (a.score == b.score && text_le_exec(&a.player_id, &b.player_id))
}

/// Orders the participants by score, highest first, then by player id.
pub fn sort_participants(participants: &mut Vec<SwissParticipant>)
    ensures
        final(participants)@.to_multiset() == old(participants)@.to_multiset(),
        ranked(final(participants)@),
{
    broadcast use vstd::seq_lib::group_to_multiset_ensures;

    let mut rest: Vec<SwissParticipant> = Vec::new();
    std::mem::swap(&mut rest, participants);
    let ghost orig = rest@;
    while rest.len() > 0
        invariant
            participants@.to_multiset().add(rest@.to_multiset()) == orig.to_multiset(),
            ranked(participants@),
            forall|i: int, j: int|
                0 <= i < participants@.len() && 0 <= j < rest@.len() ==> ranks_before(
                    #[trigger] participants@[i],
                    #[trigger] rest@[j],
                ),
        decreases rest@.len(),
    {
        let mut best: usize = 0;
        let mut k: usize = 1;
        proof {
            lemma_text_le_total(rest@[0].player_id@, rest@[0].player_id@);
        }
        while k < rest.len()
            invariant
                best < k <= rest@.len(),
                forall|j: int| 0 <= j < k ==> ranks_before(rest@[best as int], #[trigger] rest@[j]),
            decreases rest@.len() - k,
        {
            if !ranks_before_exec(&rest[best], &rest[k]) {
                proof {
                    let x = rest@[k as int];
                    let b = rest@[best as int];
                    lemma_text_le_total(x.player_id@, b.player_id@);
                    assert forall|j: int| 0 <= j < k + 1 implies ranks_before(x, #[trigger] rest@[j]) by {
                        if j < k {
                            let y = rest@[j];
                            if x.score == b.score && b.score == y.score {
                                lemma_text_le_transitive(x.player_id@, b.player_id@, y.player_id@);
                            }
                        } else {
                            lemma_text_le_total(x.player_id@, x.player_id@);
                        }
                    }
                }
                best = k;
            }
            k = k + 1;
        }
        let ghost before_rest = rest@;
        let ghost before_done = participants@;
        let chosen = rest.remove(best);
        participants.push(chosen);
        proof {
            before_rest.to_multiset_ensures();
            before_done.to_multiset_ensures();
            assert(before_rest.remove(best as int).to_multiset() == before_rest.to_multiset().remove(
                before_rest[best as int],
            ));
            assert(participants@.to_multiset() == before_done.to_multiset().insert(chosen));
            assert(participants@.to_multiset().add(rest@.to_multiset()) =~= orig.to_multiset());
            assert forall|i: int, j: int| 0 <= i < participants@.len() && 0 <= j < rest@.len() implies ranks_before(
                #[trigger] participants@[i],
                #[trigger] rest@[j],
            ) by {
                let jj = if j < best { j } else { j + 1 };
                assert(rest@[j] == before_rest[jj]);
                if i < before_done.len() {
                    assert(participants@[i] == before_done[i]);
                }
            }
            assert forall|i: int, j: int| 0 <= i < j < participants@.len() implies ranks_before(
                #[trigger] participants@[i],
                #[trigger] participants@[j],
            ) by {
                if j < before_done.len() {
                    assert(participants@[i] == before_done[i]);
                    assert(participants@[j] == before_done[j]);
                } else {
                    assert(participants@[i] == before_done[i]);
                    assert(participants@[j] == before_rest[best as int]);
                }
            }
        }
    }
    assert(rest@.to_multiset() =~= vstd::multiset::Multiset::empty());
    assert(participants@.to_multiset() =~= orig.to_multiset());
}

/// Index of the lowest-ranked participant without a bye, if any.
pub open spec fn bye_candidate(s: Seq<SwissParticipant>) -> Option<int>
    decreases s.len(),
{
    if s.len() == 0 {
        None
    } else if !s.last().has_bye {
        Some(s.len() - 1)
    } else {
        bye_candidate(s.drop_last())
    }
}

/// `f` is `s` with the participant at `b` marked as having had a bye.
pub open spec fn bye_marked(s: Seq<SwissParticipant>, f: Seq<SwissParticipant>, b: int) -> bool {
    f == s.update(b, SwissParticipant { has_bye: true, ..s[b] })
}

/// Pairings `r[offset..]` are games between the participants of `f` at the
/// index pairs `idx`: each pair ordered by rank, no participant twice, and
/// none of them the bye at `bye` (`-1` for none).
pub open spec fn games_between(
    f: Seq<SwissParticipant>,
    r: Seq<Pairing>,
    offset: int,
    idx: Seq<(int, int)>,
    bye: int,
) -> bool {
    &&& r.len() == offset + idx.len()
    &&& forall|m: int|
        0 <= m < idx.len() ==> {
            let (i, j) = #[trigger] idx[m];
            &&& 0 <= i < j < f.len()
            &&& i != bye && j != bye
            &&& r[offset + m] == (Some(f[i].player_id), Some(f[j].player_id))
        }
    &&& forall|m1: int, m2: int|
        0 <= m1 < m2 < idx.len() ==> {
            let (a, b) = #[trigger] idx[m1];
            let (c, d) = #[trigger] idx[m2];
            a != c && a != d && b != c && b != d
        }
}

fn bye_candidate_exec(ps: &Vec<SwissParticipant>) -> (r: Option<usize>)
    ensures
        match r {
            Some(i) => i < ps@.len() && bye_candidate(ps@) == Some(i as int),
            None => bye_candidate(ps@).is_none(),
        },
{
    let mut i: usize = ps.len();
    assert(ps@.take(i as int) =~= ps@);
    while i > 0
        invariant
            i <= ps@.len(),
            bye_candidate(ps@) == bye_candidate(ps@.take(i as int)),
        decreases i,
    {
        assert(ps@.take(i as int).drop_last() =~= ps@.take(i - 1));
        if !ps[i - 1].has_bye {
            return Some(i - 1);
        }
        i = i - 1;
    }
    None
}

fn unpaired_after(paired: &Vec<bool>, from: usize) -> (r: Option<usize>)
    requires
        from <= paired@.len(),
    ensures
        match r {
            Some(j) => from <= j < paired@.len() && !paired@[j as int] && forall|y: int|
                from <= y < j ==> #[trigger] paired@[y],
            None => forall|y: int| from <= y < paired@.len() ==> #[trigger] paired@[y],
        },
{
    let mut j = from;
    while j < paired.len()
        invariant
            from <= j <= paired@.len(),
            forall|y: int| from <= y < j ==> #[trigger] paired@[y],
        decreases paired@.len() - j,
    {
        if !paired[j] {
            return Some(j);
        }
        j = j + 1;
    }
    None
}

/// Participant `i` of `f` has already met participant `j`.
pub open spec fn faced(f: Seq<SwissParticipant>, i: int, j: int) -> bool {
    texts(f[i].opponents@).contains(f[j].player_id@)
}

fn fresh_opponent_after(ps: &Vec<SwissParticipant>, paired: &Vec<bool>, i: usize, from: usize) -> (r: Option<usize>)
    requires
        i < ps@.len(),
        from <= paired@.len(),
        paired@.len() == ps@.len(),
    ensures
        match r {
            Some(j) => from <= j < paired@.len() && !paired@[j as int] && !faced(ps@, i as int, j as int)
                && forall|y: int| from <= y < j ==> #[trigger] paired@[y] || faced(ps@, i as int, y),
            None => forall|y: int| from <= y < paired@.len() ==> #[trigger] paired@[y] || faced(ps@, i as int, y),
        },
{
    let mut j = from;
    while j < paired.len()
        invariant
            from <= j <= paired@.len(),
            paired@.len() == ps@.len(),
            i < ps@.len(),
            forall|y: int| from <= y < j ==> #[trigger] paired@[y] || faced(ps@, i as int, y),
        decreases paired@.len() - j,
    {
        if !paired[j] && !text_in(&ps[i].opponents, &ps[j].player_id) {
            return Some(j);
        }
        j = j + 1;
    }
    None
}

/// Participant `x` is the bye or is in one of the first `m` games of `idx`.
pub open spec fn taken(idx: Seq<(int, int)>, m: int, bye: int, x: int) -> bool {
    x == bye || exists|q: int| 0 <= q < m && ((#[trigger] idx[q]).0 == x || idx[q].1 == x)
}

/// The games `idx` are paired greedily from the top of `f`: game `m` takes
/// the first participant still free, and against it the first free one below
/// that it has not met, or, if it has met them all, the first free one below;
/// in the end at most one participant is left free.
pub open spec fn greedy(f: Seq<SwissParticipant>, idx: Seq<(int, int)>, bye: int) -> bool {
    &&& forall|m: int|
        0 <= m < idx.len() ==> {
            let (i, j) = #[trigger] idx[m];
            &&& !taken(idx, m, bye, i)
            &&& !taken(idx, m, bye, j)
            &&& forall|x: int| 0 <= x < i ==> taken(idx, m, bye, x)
            &&& forall|y: int| i < y < j && !taken(idx, m, bye, y) ==> faced(f, i, y)
            &&& faced(f, i, j) ==> forall|y: int|
                i < y < f.len() && !taken(idx, m, bye, y) ==> faced(f, i, y)
            &&& !faced(f, i, j) || forall|y: int| i < y < j ==> taken(idx, m, bye, y)
        }
    &&& forall|x: int, y: int|
        0 <= x < y < f.len() && !taken(idx, idx.len() as int, bye, x) ==> taken(
            idx,
            idx.len() as int,
            bye,
            y,
        )
}

proof fn lemma_taken_push(idx: Seq<(int, int)>, e: (int, int), m: int, bye: int, x: int)
    requires
        0 <= m <= idx.len(),
    ensures
        taken(idx.push(e), m, bye, x) == taken(idx, m, bye, x),
        taken(idx.push(e), (idx.len() + 1) as int, bye, x) == (taken(idx, idx.len() as int, bye, x) || x == e.0 || x == e.1),
{
    let idx2 = idx.push(e);
    if taken(idx2, m, bye, x) && x != bye {
        let q = choose|q: int| 0 <= q < m && ((#[trigger] idx2[q]).0 == x || idx2[q].1 == x);
        assert(idx[q] == idx2[q]);
    }
    if taken(idx, m, bye, x) && x != bye {
        let q = choose|q: int| 0 <= q < m && ((#[trigger] idx[q]).0 == x || idx[q].1 == x);
        assert(idx[q] == idx2[q]);
    }
    let n = idx.len() as int;
    if taken(idx2, n + 1, bye, x) && x != bye {
        let q = choose|q: int| 0 <= q < n + 1 && ((#[trigger] idx2[q]).0 == x || idx2[q].1 == x);
        if q < n {
            assert(idx[q] == idx2[q]);
        }
    }
    if taken(idx, n, bye, x) && x != bye {
        let q = choose|q: int| 0 <= q < n && ((#[trigger] idx[q]).0 == x || idx[q].1 == x);
        assert(idx[q] == idx2[q]);
    }
    if x == e.0 || x == e.1 {
        assert(idx2[n] == e);
    }
}

/// `after` and the pairings `r` come from `before` ranked as `s`, with a bye
/// when the field is odd and someone has not had one, and games at `idx`.
pub open spec fn swiss_round_from(
    before: Seq<SwissParticipant>,
    s: Seq<SwissParticipant>,
    idx: Seq<(int, int)>,
    after: Seq<SwissParticipant>,
    r: Seq<Pairing>,
) -> bool {
    &&& s.to_multiset() == before.to_multiset()
    &&& ranked(s)
    &&& if s.len() % 2 == 1 && bye_candidate(s).is_some() {
        let b = bye_candidate(s).unwrap();
        &&& bye_marked(s, after, b)
        &&& r[0] == (Some(s[b].player_id), Some(s[b].player_id))
        &&& games_between(after, r, 1, idx, b)
        &&& greedy(after, idx, b)
    } else {
        &&& after == s
        &&& games_between(after, r, 0, idx, -1)
        &&& greedy(after, idx, -1)
    }
}

/// Pairings for a round after the first: participants are ranked; with an odd
/// field the lowest-ranked participant without a bye gets one (listed first);
/// then each participant, from the top, meets the next one below not yet
/// paired and not yet faced, or the next one not yet paired if all have been
/// faced.
pub fn generate_swiss_pairings(participants: &mut Vec<SwissParticipant>) -> (r: Vec<Pairing>)
    ensures
        exists|s: Seq<SwissParticipant>, idx: Seq<(int, int)>|
            #[trigger] swiss_round_from(old(participants)@, s, idx, final(participants)@, r@),
        final(participants)@.len() == old(participants)@.len(),
        r@.len() <= old(participants)@.len() + 1,
{
    let ghost orig = participants@;
    sort_participants(participants);
    proof {
        orig.to_multiset_ensures();
        participants@.to_multiset_ensures();
    }
    let ghost s = participants@;
    let n = participants.len();
    let mut paired: Vec<bool> = Vec::new();
    let mut k: usize = 0;
    while k < n
        invariant
            k <= n,
            paired@.len() == k,
            forall|x: int| 0 <= x < k ==> !paired@[x],
        decreases n - k,
    {
        paired.push(false);
        k = k + 1;
    }
    let mut pairings: Vec<Pairing> = Vec::new();
    let mut bye: usize = n;
    if n % 2 == 1 {
        match bye_candidate_exec(participants) {
            Some(b) => {
                let id1 = participants[b].player_id.clone();
                let id2 = participants[b].player_id.clone();
                pairings.push((Some(id1), Some(id2)));
                participants[b].has_bye = true;
                paired.set(b, true);
                bye = b;
                assert(participants@ =~= s.update(b as int, SwissParticipant { has_bye: true, ..s[b as int] }));
            },
            None => {},
        }
    }
    let offset = pairings.len();
    let ghost head = pairings@;
    let ghost after_bye = participants@;
    assert(pairings@.take(offset as int) =~= head);
    let ghost bye_i: int = if bye < n { bye as int } else { -1 };
    let ghost mut idx: Seq<(int, int)> = Seq::empty();
    let mut i: usize = 0;
    while i < n
        invariant
            n == participants@.len(),
            paired@.len() == n,
            i <= n,
            offset == pairings@.len() - idx.len(),
            offset <= 1,
            bye_i == -1 || (0 <= bye_i < n && paired@[bye_i]),
            games_between(participants@, pairings@, offset as int, idx, bye_i),
            forall|m: int| 0 <= m < idx.len() ==> paired@[(#[trigger] idx[m]).0] && paired@[idx[m].1],
            forall|x: int| 0 <= x < n && !paired@[x] ==> x != bye_i && forall|m: int| 0 <= m < idx.len() ==> (#[trigger] idx[m]).0 != x && idx[m].1 != x,
            pairings@.take(offset as int) == head,
            participants@ == after_bye,
            pairings@.len() <= offset + i,
            forall|x: int| 0 <= x < n ==> (#[trigger] paired@[x] <==> taken(idx, idx.len() as int, bye_i, x)),
            forall|x: int| 0 <= x < i ==> paired@[x] || forall|y: int| x < y < n ==> #[trigger] paired@[y],
            forall|m: int|
                0 <= m < idx.len() ==> {
                    let (a, b) = #[trigger] idx[m];
                    &&& !taken(idx, m, bye_i, a)
                    &&& !taken(idx, m, bye_i, b)
                    &&& forall|x: int| 0 <= x < a ==> taken(idx, m, bye_i, x)
                    &&& forall|y: int| a < y < b && !taken(idx, m, bye_i, y) ==> faced(participants@, a, y)
                    &&& faced(participants@, a, b) ==> forall|y: int|
                        a < y < n && !taken(idx, m, bye_i, y) ==> faced(participants@, a, y)
                    &&& !faced(participants@, a, b) || forall|y: int| a < y < b ==> taken(idx, m, bye_i, y)
                },
        decreases n - i,
    {
        if !paired[i] {
            let fresh = fresh_opponent_after(participants, &paired, i, i + 1);
            let best = if fresh.is_none() {
                unpaired_after(&paired, i + 1)
            } else {
                fresh
            };
            match best {
                Some(j) => {
                    let p1 = participants[i].player_id.clone();
                    let p2 = participants[j].player_id.clone();
                    let ghost old_idx = idx;
                    let ghost old_paired = paired@;
                    let ghost m = idx.len() as int;
                    pairings.push((Some(p1), Some(p2)));
                    paired.set(i, true);
                    paired.set(j, true);
                    proof {
                        idx = idx.push((i as int, j as int));
                        assert forall|x: int| 0 <= x < n implies (#[trigger] paired@[x] <==> taken(idx, idx.len() as int, bye_i, x)) by {
                            lemma_taken_push(old_idx, (i as int, j as int), m, bye_i, x);
                        }
                        assert forall|mm: int| 0 <= mm < idx.len() implies {
                            let (a, b) = #[trigger] idx[mm];
                            &&& !taken(idx, mm, bye_i, a)
                            &&& !taken(idx, mm, bye_i, b)
                            &&& forall|x: int| 0 <= x < a ==> taken(idx, mm, bye_i, x)
                            &&& forall|y: int| a < y < b && !taken(idx, mm, bye_i, y) ==> faced(participants@, a, y)
                            &&& faced(participants@, a, b) ==> forall|y: int|
                                a < y < n && !taken(idx, mm, bye_i, y) ==> faced(participants@, a, y)
                            &&& !faced(participants@, a, b) || forall|y: int| a < y < b ==> taken(idx, mm, bye_i, y)
                        } by {
                            assert forall|x: int| true implies taken(idx, mm, bye_i, x) == taken(old_idx, mm, bye_i, x) by {
                                if mm < m {
                                    lemma_taken_push(old_idx, (i as int, j as int), mm, bye_i, x);
                                } else {
                                    lemma_taken_push(old_idx, (i as int, j as int), m, bye_i, x);
                                }
                            }
                            if mm == m {
                                assert(idx[mm] == (i as int, j as int));
                                assert(!old_paired[i as int]);
                                assert(!old_paired[j as int]);
                                assert(!taken(old_idx, m, bye_i, i as int));
                                assert(!taken(old_idx, m, bye_i, j as int));
                                assert forall|x: int| 0 <= x < i implies taken(old_idx, m, bye_i, x) by {
                                    assert(old_paired[x]);
                                }
                                assert forall|y: int| i < y < j && !taken(old_idx, m, bye_i, y) implies faced(participants@, i as int, y) by {
                                    assert(!old_paired[y]);
                                }
                                if faced(participants@, i as int, j as int) {
                                    assert(fresh.is_none());
                                    assert forall|y: int| i < y < n && !taken(old_idx, m, bye_i, y) implies faced(participants@, i as int, y) by {
                                        assert(!old_paired[y]);
                                    }
                                    assert forall|y: int| i < y < j implies taken(old_idx, m, bye_i, y) by {
                                        assert(old_paired[y]);
                                    }
                                }
                            } else {
                                assert(idx[mm] == old_idx[mm]);
                            }
                        }
                    }
                },
                None => {},
            }
        }
        i = i + 1;
    }
    proof {
        if offset == 1 {
            assert(pairings@[0] == pairings@.take(1)[0]);
        }
        assert forall|x: int, y: int|
            0 <= x < y < n && !taken(idx, idx.len() as int, bye_i, x) implies taken(
            idx,
            idx.len() as int,
            bye_i,
            y,
        ) by {
            assert(!paired@[x]);
            assert(paired@[y]);
        }
        assert(greedy(participants@, idx, bye_i));
        assert(swiss_round_from(orig, s, idx, participants@, pairings@));
    }
    pairings
}

pub open spec fn digit_char(d: nat) -> char {
    if d == 0 {
        '0'
    } else if d == 1 {
        '1'
    } else if d == 2 {
        '2'
    } else if d == 3 {
        '3'
    } else if d == 4 {
        '4'
    } else if d == 5 {
        '5'
    } else if d == 6 {
        '6'
    } else if d == 7 {
        '7'
    } else if d == 8 {
        '8'
    } else {
        '9'
    }
}

/// The decimal digits of `n`.
pub open spec fn decimal(n: nat) -> Seq<char>
    decreases n,
{
    if n < 10 {
        seq![digit_char(n)]
    } else {
        decimal(n / 10).push(digit_char(n % 10))
    }
}

/// `"<tournament>_r<round>_m<number>"`.
pub open spec fn match_id_text(tid: Seq<char>, round: nat, number: nat) -> Seq<char> {
    tid + seq!['_', 'r'] + decimal(round) + seq!['_', 'm'] + decimal(number)
}

fn digit_text(d: u32) -> (t: &'static str)
    requires
        d < 10,
    ensures
        t@ == seq![digit_char(d as nat)],
{
    proof {
        reveal_strlit("0");
        reveal_strlit("1");
        reveal_strlit("2");
        reveal_strlit("3");
        reveal_strlit("4");
        reveal_strlit("5");
        reveal_strlit("6");
        reveal_strlit("7");
        reveal_strlit("8");
        reveal_strlit("9");
    }
    if d == 0 {
        "0"
    } else if d == 1 {
        "1"
    } else if d == 2 {
        "2"
    } else if d == 3 {
        "3"
    } else if d == 4 {
        "4"
    } else if d == 5 {
        "5"
    } else if d == 6 {
        "6"
    } else if d == 7 {
        "7"
    } else if d == 8 {
        "8"
    } else {
        "9"
    }
}

fn decimal_text(n: u32) -> (r: String)
    ensures
        r@ == decimal(n as nat),
    decreases n,
{
    if n < 10 {
        String::from_str(digit_text(n))
    } else {
        let mut s = decimal_text(n / 10);
        s.append(digit_text(n % 10));
        s
    }
}

fn make_match_id(tid: &String, round: u32, number: u32) -> (r: String)
    ensures
        r@ == match_id_text(tid@, round as nat, number as nat),
{
    proof {
        reveal_strlit("_r");
        reveal_strlit("_m");
    }
    let mut s = tid.clone();
    s.append("_r");
    s.append(decimal_text(round).as_str());
    s.append("_m");
    s.append(decimal_text(number).as_str());
    s
}

fn copy_text(o: &Option<String>) -> (r: Option<String>)
    ensures
        r == *o,
{
    match o {
        Some(s) => Some(s.clone()),
        None => None,
    }
}

fn same_text(a: &Option<String>, b: &Option<String>) -> (r: bool)
    ensures
        r == (opt_text(*a) == opt_text(*b)),
{
    match (a, b) {
        (Some(x), Some(y)) => *x == *y,
        (None, None) => true,
        _ => false,
    }
}

/// A pairing of one player with themself is a bye.
pub open spec fn is_bye_pairing(p: Pairing) -> bool {
    opt_text(p.0) == opt_text(p.1)
}

/// `m` is match `k` (counted from 0) of round `round` of tournament `tid`,
/// created from pairing `p`.
pub open spec fn created_match(m: TournamentMatch, tid: Seq<char>, round: u32, k: int, p: Pairing) -> bool {
    &&& m.id@ == match_id_text(tid, round as nat, (k + 1) as nat)
    &&& m.round == round
    &&& m.match_number == k + 1
    &&& m.player1 == p.0
    &&& m.game_id.is_none()
    &&& if is_bye_pairing(p) {
        &&& m.player2.is_none()
        &&& m.winner == p.0
        &&& m.status == MatchStatus::Bye
    } else {
        &&& m.player2 == p.1
        &&& m.winner.is_none()
        &&& m.status == MatchStatus::Ready
    }
}

pub open spec fn created_round(ms: Seq<TournamentMatch>, tid: Seq<char>, round: u32, ps: Seq<Pairing>) -> bool {
    &&& ms.len() == ps.len()
    &&& forall|k: int| 0 <= k < ps.len() ==> created_match(#[trigger] ms[k], tid, round, k, ps[k])
}

/// The matches of round `round` built from `pairings`.
fn build_round_matches(tid: &String, round: u32, pairings: &Vec<Pairing>) -> (r: Vec<TournamentMatch>)
    requires
        pairings@.len() < u32::MAX,
    ensures
        created_round(r@, tid@, round, pairings@),
{
    let mut ms: Vec<TournamentMatch> = Vec::new();
    let mut i: usize = 0;
    while i < pairings.len()
        invariant
            i <= pairings@.len(),
            pairings@.len() < u32::MAX,
            ms@.len() == i,
            forall|k: int| 0 <= k < i ==> created_match(#[trigger] ms@[k], tid@, round, k, pairings@[k]),
        decreases pairings@.len() - i,
    {
        let (p1, p2) = (&pairings[i].0, &pairings[i].1);
        let bye = same_text(p1, p2);
        let number = (i + 1) as u32;
        let m = TournamentMatch {
            id: make_match_id(tid, round, number),
            round,
            match_number: number,
            player1: copy_text(p1),
            player2: if bye {
                None
            } else {
                copy_text(p2)
            },
            game_id: None,
            winner: if bye {
                copy_text(p1)
            } else {
                None
            },
            status: if bye {
                MatchStatus::Bye
            } else {
                MatchStatus::Ready
            },
        };
        ms.push(m);
        i = i + 1;
    }
    ms
}

/// Everything but the play of the tournament is unchanged.
pub open spec fn same_setup(a: Tournament, b: Tournament) -> bool {
    &&& b.id == a.id
    &&& b.name == a.name
    &&& b.creator == a.creator
    &&& b.time_control == a.time_control
    &&& b.max_players == a.max_players
    &&& b.registered_players == a.registered_players
    &&& b.total_rounds == a.total_rounds
    &&& b.created_at == a.created_at
    &&& b.started_at == a.started_at
    &&& b.finished_at == a.finished_at
    &&& b.is_public == a.is_public
    &&& b.invite_code == a.invite_code
    &&& b.scheduled_start == a.scheduled_start
    &&& b.format == a.format
    &&& b.num_rounds == a.num_rounds
}

/// The participant at `i` has the highest score, and everyone before it less.
pub open spec fn top_scorer(ps: Seq<SwissParticipant>, i: int) -> bool {
    &&& 0 <= i < ps.len()
    &&& forall|j: int| 0 <= j < ps.len() ==> #[trigger] ps[j].score <= ps[i].score
    &&& forall|j: int| 0 <= j < i ==> #[trigger] ps[j].score < ps[i].score
}

/// The tournament was just decided: the last round is played and the winner
/// is the first participant with the highest score.
pub open spec fn decided(t: Tournament) -> bool {
    &&& t.status == TournamentStatus::Finished
    &&& t.current_round >= t.num_rounds
    &&& t.participants@.len() > 0 ==> exists|i: int|
        top_scorer(t.participants@, i) && t.winner == Some(#[trigger] t.participants@[i].player_id)
}

pub open spec fn match_done(m: TournamentMatch) -> bool {
    m.status == MatchStatus::Finished || m.status == MatchStatus::Bye
}

pub open spec fn round_done(r: TournamentRound) -> bool {
    forall|k: int| 0 <= k < r.matches@.len() ==> match_done(#[trigger] r.matches@[k])
}

/// The current round is over (or has no entry).
pub open spec fn current_round_done(t: Tournament) -> bool {
    0 <= t.current_round - 1 < t.rounds@.len() ==> round_done(t.rounds@[t.current_round - 1])
}

/// What advancing or processing byes may do: the setup stays, the round
/// number only grows, and the tournament only ends as decided.
pub open spec fn advanced(old_t: Tournament, new_t: Tournament) -> bool {
    &&& same_setup(old_t, new_t)
    &&& new_t.current_round >= old_t.current_round
    &&& new_t.status == old_t.status || decided(new_t)
}

pub open spec fn rounds_left(t: Tournament) -> int {
    if t.current_round <= t.num_rounds {
        t.num_rounds - t.current_round
    } else {
        0
    }
}

fn round_is_done(round: &TournamentRound) -> (r: bool)
    ensures
        r == round_done(*round),
{
    let mut k: usize = 0;
    while k < round.matches.len()
        invariant
            k <= round.matches@.len(),
            forall|j: int| 0 <= j < k ==> match_done(#[trigger] round.matches@[j]),
        decreases round.matches@.len() - k,
    {
        let st = round.matches[k].status;
        if st != MatchStatus::Finished && st != MatchStatus::Bye {
            return false;
        }
        k = k + 1;
    }
    true
}

fn top_scorer_index(ps: &Vec<SwissParticipant>) -> (r: Option<usize>)
    ensures
        match r {
            Some(i) => top_scorer(ps@, i as int),
            None => ps@.len() == 0,
        },
{
    if ps.len() == 0 {
        return None;
    }
    let mut best: usize = 0;
    let mut k: usize = 1;
    while k < ps.len()
        invariant
            best < k <= ps@.len(),
            forall|j: int| 0 <= j < k ==> #[trigger] ps@[j].score <= ps@[best as int].score,
            forall|j: int| 0 <= j < best ==> #[trigger] ps@[j].score < ps@[best as int].score,
        decreases ps@.len() - k,
    {
        if ps[k].score > ps[best].score {
            best = k;
        }
        k = k + 1;
    }
    Some(best)
}

/// Marks the tournament finished with the first top scorer as winner.
fn finish_tournament(tournament: &mut Tournament)
    requires
        old(tournament).current_round >= old(tournament).num_rounds,
    ensures
        finished_from(*old(tournament), *final(tournament)),
{
    tournament.status = TournamentStatus::Finished;
    match top_scorer_index(&tournament.participants) {
        Some(i) => {
            tournament.winner = Some(tournament.participants[i].player_id.clone());
        },
        None => {},
    }
}

/// `mid` is `t` with the next round paired (as `p`) from the standings and
/// opened: its matches appended to the list and listed as a new round, and
/// the round just played marked completed.
pub open spec fn next_round_opened(t: Tournament, mid: Tournament, p: Seq<Pairing>) -> bool {
    let cur = t.current_round;
    let n = t.matches@.len();
    let nr = t.rounds@.len();
    &&& same_setup(t, mid)
    &&& mid.status == t.status
    &&& mid.winner == t.winner
    &&& mid.current_round == cur + 1
    &&& exists|s: Seq<SwissParticipant>, idx: Seq<(int, int)>|
        #[trigger] swiss_round_from(t.participants@, s, idx, mid.participants@, p)
    &&& mid.matches@.len() == n + p.len()
    &&& mid.matches@.subrange(0, n as int) == t.matches@
    &&& created_round(mid.matches@.subrange(n as int, mid.matches@.len() as int), t.id@, (cur + 1) as u32, p)
    &&& mid.rounds@.len() == nr + 1
    &&& forall|k: int|
        0 <= k < nr ==> #[trigger] mid.rounds@[k] == if k == cur - 1 {
            TournamentRound { completed: true, ..t.rounds@[k] }
        } else {
            t.rounds@[k]
        }
    &&& mid.rounds@[nr as int].round_number == cur + 1
    &&& mid.rounds@[nr as int].completed == (cur - 1 == nr)
    &&& created_round(mid.rounds@[nr as int].matches@, t.id@, (cur + 1) as u32, p)
}

/// After a match result: when the current round is over, either decides the
/// tournament (after its last round) or pairs the next round and settles its
/// byes at once. Returns whether anything moved on.
pub fn advance_to_next_round(tournament: &mut Tournament) -> (r: bool)
    requires
        old(tournament).current_round >= 1,
        old(tournament).participants@.len() < u32::MAX - 1,
    ensures
        advanced(*old(tournament), *final(tournament)),
        final(tournament).participants@.len() == old(tournament).participants@.len(),
        !r ==> *final(tournament) == *old(tournament),
        r == (current_round_done(*old(tournament)) && (old(tournament).current_round
            < old(tournament).num_rounds || (old(tournament).rounds@.len() > 0 && round_done(
            old(tournament).rounds@.last(),
        )))),
        moved_on(*old(tournament), *final(tournament)),
    decreases rounds_left(*old(tournament)), 0int,
{
    let current = tournament.current_round as usize;
    if current - 1 < tournament.rounds.len() {
        if !round_is_done(&tournament.rounds[current - 1]) {
            return false;
        }
    }
    if tournament.current_round >= tournament.num_rounds {
        let n = tournament.rounds.len();
        if n > 0 {
            if round_is_done(&tournament.rounds[n - 1]) {
                finish_tournament(tournament);
                return true;
            }
        }
        return false;
    }
    let ghost t0 = *tournament;
    let pairings = generate_swiss_pairings(&mut tournament.participants);
    let ghost parts_after = tournament.participants@;
    assert(exists|s: Seq<SwissParticipant>, idx: Seq<(int, int)>|
        #[trigger] swiss_round_from(t0.participants@, s, idx, parts_after, pairings@));
    let next_round = tournament.current_round + 1;
    let flat = build_round_matches(&tournament.id, next_round, &pairings);
    let listed = build_round_matches(&tournament.id, next_round, &pairings);
    let ghost flat_view = flat@;
    tournament.current_round = next_round;
    let mut flat = flat;
    tournament.matches.append(&mut flat);
    tournament.rounds.push(TournamentRound { round_number: next_round, matches: listed, completed: false });
    if current - 1 < tournament.rounds.len() {
        tournament.rounds[current - 1].completed = true;
    }
    let ghost mid = *tournament;
    proof {
        let n = t0.matches@.len();
        assert(mid.matches@ =~= t0.matches@ + flat_view);
        assert(mid.matches@.subrange(0, n as int) =~= t0.matches@);
        assert(mid.matches@.subrange(n as int, mid.matches@.len() as int) =~= flat_view);
        let nr = t0.rounds@.len();
        assert(same_setup(t0, mid));
        assert(mid.participants@ == parts_after);
        assert(next_round_opened(t0, mid, pairings@));
    }
    process_byes(tournament);
    proof {
        let m2 = choose|m2: Tournament| byes_settled(mid, m2) && moved_on(m2, *tournament);
        assert(opened_and_settled(t0, mid, pairings@, m2));
    }
    true
}

/// Match `m` with its bye settled when it is a bye of round `cur`: won by its
/// player and finished.
pub open spec fn bye_settled(m: TournamentMatch, cur: u32) -> TournamentMatch {
    if m.status == MatchStatus::Bye && m.round == cur && (m.player1.is_some() || m.player2.is_some()) {
        TournamentMatch {
            winner: if m.player1.is_some() {
                m.player1
            } else {
                m.player2
            },
            status: MatchStatus::Finished,
            ..m
        }
    } else {
        m
    }
}

/// Match `m` is a bye of round `cur` that has a player to award it to.
pub open spec fn settles(m: TournamentMatch, cur: u32) -> bool {
    m.status == MatchStatus::Bye && m.round == cur && (m.player1.is_some() || m.player2.is_some())
}

/// How many byes of round `cur` among `ms` go to the player named `id`.
pub open spec fn byes_won(ms: Seq<TournamentMatch>, cur: u32, id: Seq<char>) -> nat
    decreases ms.len(),
{
    if ms.len() == 0 {
        0
    } else {
        byes_won(ms.drop_last(), cur, id) + if settles(ms.last(), cur) && opt_text(
            bye_settled(ms.last(), cur).winner,
        ) == Some(id) {
            1nat
        } else {
            0nat
        }
    }
}

/// Participant `i` is the first in `ps` with its player id.
pub open spec fn first_of(ps: Seq<SwissParticipant>, i: int) -> bool {
    forall|j: int| 0 <= j < i ==> (#[trigger] ps[j]).player_id@ != ps[i].player_id@
}

/// `x` plus 2 points `n` times, saturating at the largest score.
pub open spec fn plus_byes(x: u32, n: nat) -> u32 {
    if x + 2 * n > u32::MAX {
        u32::MAX
    } else {
        (x + 2 * n) as u32
    }
}

/// `after` is `before` with 2 points for every bye of round `cur` in `ms`,
/// given to the first participant with the bye's player id.
pub open spec fn byes_credited(
    before: Seq<SwissParticipant>,
    after: Seq<SwissParticipant>,
    ms: Seq<TournamentMatch>,
    cur: u32,
) -> bool {
    &&& after.len() == before.len()
    &&& forall|i: int|
        0 <= i < before.len() ==> #[trigger] after[i] == (SwissParticipant {
            score: if first_of(before, i) {
                plus_byes(before[i].score, byes_won(ms, cur, before[i].player_id@))
            } else {
                before[i].score
            },
            ..before[i]
        })
}

/// `after` is `before` with the byes of round `cur` settled in every round
/// numbered `cur`.
pub open spec fn round_byes_settled(before: Seq<TournamentRound>, after: Seq<TournamentRound>, cur: u32) -> bool {
    &&& after.len() == before.len()
    &&& forall|r: int|
        0 <= r < before.len() ==> {
            &&& (#[trigger] after[r]).round_number == before[r].round_number
            &&& after[r].completed == before[r].completed
            &&& after[r].matches@ == if before[r].round_number == cur {
                before[r].matches@.map_values(|m: TournamentMatch| bye_settled(m, cur))
            } else {
                before[r].matches@
            }
        }
}

/// `mid` is `t` with the byes of the current round settled: each such match
/// finished and won by its player, in the match list and in its round, and
/// worth 2 points to that player (saturating at the largest score).
pub open spec fn byes_settled(t: Tournament, mid: Tournament) -> bool {
    let cur = t.current_round;
    &&& same_setup(t, mid)
    &&& mid.status == t.status
    &&& mid.current_round == cur
    &&& mid.winner == t.winner
    &&& mid.matches@ == t.matches@.map_values(|m: TournamentMatch| bye_settled(m, cur))
    &&& round_byes_settled(t.rounds@, mid.rounds@, cur)
    &&& byes_credited(t.participants@, mid.participants@, t.matches@, cur)
}

fn settle_bye(m: &mut TournamentMatch, cur: u32) -> (w: Option<String>)
    ensures
        *final(m) == bye_settled(*old(m), cur),
        match w {
            Some(x) => settles(*old(m), cur) && Some(x) == bye_settled(*old(m), cur).winner,
            None => !settles(*old(m), cur),
        },
{
    if m.status == MatchStatus::Bye && m.round == cur {
        let winner = match &m.player1 {
            Some(p) => Some(p.clone()),
            None => copy_text(&m.player2),
        };
        match winner {
            Some(w) => {
                m.winner = Some(w.clone());
                m.status = MatchStatus::Finished;
                Some(w)
            },
            None => None,
        }
    } else {
        None
    }
}

/// Settles the byes of the current round, then advances when the round is over.
pub fn process_byes(tournament: &mut Tournament)
    requires
        old(tournament).current_round >= 1,
        old(tournament).participants@.len() < u32::MAX - 1,
    ensures
        advanced(*old(tournament), *final(tournament)),
        final(tournament).participants@.len() == old(tournament).participants@.len(),
        exists|mid: Tournament|
            #[trigger] byes_settled(*old(tournament), mid) && moved_on(mid, *final(tournament)),
    decreases rounds_left(*old(tournament)), 1int,
{
    let ghost start = *tournament;
    let current = tournament.current_round;
    let ghost settled_all = start.matches@.map_values(|m: TournamentMatch| bye_settled(m, current));
    let mut k: usize = 0;
    proof {
        assert forall|i: int| 0 <= i < start.participants@.len() implies #[trigger] tournament.participants@[i] == (SwissParticipant {
            score: if first_of(start.participants@, i) {
                plus_byes(start.participants@[i].score, byes_won(start.matches@.take(0), current, start.participants@[i].player_id@))
            } else {
                start.participants@[i].score
            },
            ..start.participants@[i]
        }) by {}
    }
    while k < tournament.matches.len()
        invariant
            same_setup(start, *tournament),
            tournament.current_round == current,
            current == start.current_round,
            tournament.status == start.status,
            tournament.winner == start.winner,
            tournament.rounds == start.rounds,
            tournament.matches@.len() == start.matches@.len(),
            settled_all == start.matches@.map_values(|m: TournamentMatch| bye_settled(m, current)),
            k <= tournament.matches@.len(),
            forall|j: int| 0 <= j < k ==> #[trigger] tournament.matches@[j] == settled_all[j],
            forall|j: int| k <= j < tournament.matches@.len() ==> #[trigger] tournament.matches@[j] == start.matches@[j],
            byes_credited(start.participants@, tournament.participants@, start.matches@.take(k as int), current),
            forall|i: int| 0 <= i < start.participants@.len() ==> (#[trigger] tournament.participants@[i]).player_id == start.participants@[i].player_id,
        decreases tournament.matches@.len() - k,
    {
        let ghost before_parts = tournament.participants@;
        let ghost mk = start.matches@[k as int];
        assert(start.matches@.take(k + 1).drop_last() =~= start.matches@.take(k as int));
        let won = settle_bye(&mut tournament.matches[k], current);
        match won {
            Some(w) => {
                credit_bye(&mut tournament.participants, &w);
                proof {
                    assert forall|i: int| 0 <= i < start.participants@.len() implies #[trigger] tournament.participants@[i] == (SwissParticipant {
                        score: if first_of(start.participants@, i) {
                            plus_byes(start.participants@[i].score, byes_won(start.matches@.take(k + 1), current, start.participants@[i].player_id@))
                        } else {
                            start.participants@[i].score
                        },
                        ..start.participants@[i]
                    }) by {
                        assert(before_parts[i].player_id == start.participants@[i].player_id);
                        if first_of(start.participants@, i) {
                            assert forall|j: int| 0 <= j < i implies (#[trigger] before_parts[j]).player_id@ != before_parts[i].player_id@ by {
                                assert(before_parts[j].player_id == start.participants@[j].player_id);
                                assert(start.participants@[j].player_id@ != start.participants@[i].player_id@);
                            }
                        } else {
                            let j = choose|j: int| 0 <= j < i && (#[trigger] start.participants@[j]).player_id@ == start.participants@[i].player_id@;
                            assert(before_parts[j].player_id == start.participants@[j].player_id);
                            assert(!first_of(before_parts, i));
                        }
                    }
                }
            },
            None => {},
        }
        k = k + 1;
    }
    assert(start.matches@.take(start.matches@.len() as int) =~= start.matches@);
    let mut r: usize = 0;
    while r < tournament.rounds.len()
        invariant
            same_setup(start, *tournament),
            tournament.current_round == current,
            current == start.current_round,
            tournament.status == start.status,
            tournament.winner == start.winner,
            tournament.matches@ =~= settled_all,
            byes_credited(start.participants@, tournament.participants@, start.matches@, current),
            r <= tournament.rounds@.len(),
            tournament.rounds@.len() == start.rounds@.len(),
            forall|x: int| r <= x < tournament.rounds@.len() ==> #[trigger] tournament.rounds@[x] == start.rounds@[x],
            round_byes_settled(start.rounds@.take(r as int), tournament.rounds@.take(r as int), current),
        decreases tournament.rounds@.len() - r,
    {
        let ghost prev = tournament.rounds@;
        if tournament.rounds[r].round_number == current {
            let ghost before_round = tournament.rounds@[r as int];
            let ghost rounds_before = tournament.rounds@;
            let mut j: usize = 0;
            while j < tournament.rounds[r].matches.len()
                invariant
                    same_setup(start, *tournament),
                    tournament.current_round == current,
                    tournament.status == start.status,
                    tournament.winner == start.winner,
                    tournament.matches@ =~= settled_all,
                    byes_credited(start.participants@, tournament.participants@, start.matches@, current),
                    r < tournament.rounds@.len(),
                    tournament.rounds@.len() == start.rounds@.len(),
                    rounds_before.len() == tournament.rounds@.len(),
                    forall|x: int| 0 <= x < tournament.rounds@.len() && x != r ==> #[trigger] tournament.rounds@[x] == rounds_before[x],
                    tournament.rounds@[r as int].round_number == before_round.round_number,
                    tournament.rounds@[r as int].completed == before_round.completed,
                    tournament.rounds@[r as int].matches@.len() == before_round.matches@.len(),
                    j <= before_round.matches@.len(),
                    forall|y: int| 0 <= y < j ==> #[trigger] tournament.rounds@[r as int].matches@[y] == bye_settled(before_round.matches@[y], current),
                    forall|y: int| j <= y < before_round.matches@.len() ==> #[trigger] tournament.rounds@[r as int].matches@[y] == before_round.matches@[y],
                decreases before_round.matches@.len() - j,
            {
                let _ = settle_bye(&mut tournament.rounds[r].matches[j], current);
                j = j + 1;
            }
            assert(tournament.rounds@[r as int].matches@ =~= before_round.matches@.map_values(|m: TournamentMatch| bye_settled(m, current)));
        }
        proof {
            assert(prev[r as int] == start.rounds@[r as int]);
            assert forall|x: int| 0 <= x < r + 1 implies {
                &&& (#[trigger] tournament.rounds@.take(r + 1)[x]).round_number == start.rounds@.take(r + 1)[x].round_number
                &&& tournament.rounds@.take(r + 1)[x].completed == start.rounds@.take(r + 1)[x].completed
                &&& tournament.rounds@.take(r + 1)[x].matches@ == if start.rounds@.take(r + 1)[x].round_number == current {
                    start.rounds@.take(r + 1)[x].matches@.map_values(|m: TournamentMatch| bye_settled(m, current))
                } else {
                    start.rounds@.take(r + 1)[x].matches@
                }
            } by {
                if x < r {
                    assert(tournament.rounds@[x] == prev[x]);
                    assert(prev.take(r as int)[x] == prev[x]);
                    assert(start.rounds@.take(r as int)[x] == start.rounds@[x]);
                }
            }
        }
        r = r + 1;
    }
    assert(start.rounds@.take(r as int) =~= start.rounds@);
    assert(tournament.rounds@.take(r as int) =~= tournament.rounds@);
    let ghost mid = *tournament;
    assert(byes_settled(start, mid));
    advance_to_next_round(tournament);
}

/// `after` is `before` with the first match of id `id`, in the first round
/// numbered `round`, finished and won by `winner` (when there is such a match).
pub open spec fn settled(
    before: Seq<TournamentRound>,
    after: Seq<TournamentRound>,
    round: u32,
    id: Seq<char>,
    winner: Option<String>,
) -> bool {
    &&& after.len() == before.len()
    &&& forall|r: int|
        0 <= r < before.len() ==> {
            let b = #[trigger] before[r];
            let a = after[r];
            &&& a.round_number == b.round_number
            &&& a.completed == b.completed
            &&& a.matches@.len() == b.matches@.len()
            &&& forall|k: int|
                0 <= k < b.matches@.len() ==> {
                    let bm = #[trigger] b.matches@[k];
                    let am = a.matches@[k];
                    if b.round_number == round && (forall|r2: int|
                        0 <= r2 < r ==> (#[trigger] before[r2]).round_number != round) && bm.id@ == id
                        && (forall|k2: int|
                        0 <= k2 < k ==> (#[trigger] b.matches@[k2]).id@ != id) {
                        am == TournamentMatch {
                            winner: if winner.is_some() {
                                winner
                            } else {
                                bm.winner
                            },
                            status: MatchStatus::Finished,
                            ..bm
                        }
                    } else {
                        am == bm
                    }
                }
        }
}

/// In the first round numbered `round`, the first match with id `id` is
/// finished, won by `winner` when one is given.
fn settle_in_round(rounds: &mut Vec<TournamentRound>, round: u32, id: &String, winner: &Option<String>)
    ensures
        settled(old(rounds)@, final(rounds)@, round, id@, *winner),
{
    let mut r: usize = 0;
    while r < rounds.len()
        invariant
            r <= rounds@.len(),
            *rounds == *old(rounds),
            forall|r2: int| 0 <= r2 < r ==> (#[trigger] rounds@[r2]).round_number != round,
        decreases rounds@.len() - r,
    {
        if rounds[r].round_number == round {
            let mut k: usize = 0;
            while k < rounds[r].matches.len()
                invariant
                    r < rounds@.len(),
                    *rounds == *old(rounds),
                    rounds@[r as int].round_number == round,
                    forall|r2: int| 0 <= r2 < r ==> (#[trigger] rounds@[r2]).round_number != round,
                    k <= rounds@[r as int].matches@.len(),
                    forall|k2: int| 0 <= k2 < k ==> (#[trigger] rounds@[r as int].matches@[k2]).id@ != id@,
                decreases rounds@[r as int].matches@.len() - k,
            {
                if rounds[r].matches[k].id == *id {
                    match winner {
                        Some(w) => {
                            rounds[r].matches[k].winner = Some(w.clone());
                        },
                        None => {},
                    }
                    rounds[r].matches[k].status = MatchStatus::Finished;
                    proof {
                        assert forall|rr: int| 0 <= rr < old(rounds)@.len() && rr != r implies #[trigger] rounds@[rr] == old(rounds)@[rr] by {}
                    }
                    return;
                }
                k = k + 1;
            }
            return;
        }
        r = r + 1;
    }
}

/// The first participant named `who` gains the 2 points of a bye.
fn credit_bye(participants: &mut Vec<SwissParticipant>, who: &String)
    ensures
        final(participants)@.len() == old(participants)@.len(),
        forall|i: int|
            0 <= i < old(participants)@.len() ==> #[trigger] final(participants)@[i] == (SwissParticipant {
                score: if first_of(old(participants)@, i) && old(participants)@[i].player_id@ == who@ {
                    plus_byes(old(participants)@[i].score, 1)
                } else {
                    old(participants)@[i].score
                },
                ..old(participants)@[i]
            }),
{
    let mut i: usize = 0;
    while i < participants.len()
        invariant
            i <= participants@.len(),
            *participants == *old(participants),
            forall|j: int| 0 <= j < i ==> (#[trigger] participants@[j]).player_id@ != who@,
        decreases participants@.len() - i,
    {
        if participants[i].player_id == *who {
            participants[i].score = participants[i].score.saturating_add(2);
            proof {
                assert forall|x: int| 0 <= x < old(participants)@.len() implies #[trigger] participants@[x] == (SwissParticipant {
                    score: if first_of(old(participants)@, x) && old(participants)@[x].player_id@ == who@ {
                        plus_byes(old(participants)@[x].score, 1)
                    } else {
                        old(participants)@[x].score
                    },
                    ..old(participants)@[x]
                }) by {
                    if x > i {
                        assert(!first_of(old(participants)@, x) || old(participants)@[x].player_id@ != who@) by {
                            if old(participants)@[x].player_id@ == who@ {
                                assert(old(participants)@[i as int].player_id@ == old(participants)@[x].player_id@);
                            }
                        }
                    }
                }
            }
            return;
        }
        i = i + 1;
    }
}

/// Why a tournament operation was refused.
#[derive(Debug, Clone, Copy, PartialEq, Eq, Structural)]
pub enum TournamentError {
    InvalidMaxPlayers,
    PrivateTournament,
    NotAcceptingRegistrations,
    AlreadyRegistered,
    TournamentFull,
    InvalidInviteCode,
    CannotLeaveAfterStart,
    CreatorCannotLeave,
    NotRegistered,
    OnlyCreatorCanStart,
    AlreadyStarted,
    NotEnoughPlayers,
    BeforeScheduledStart,
    MatchNotFound,
    MatchNotReady,
    MatchAlreadyStarted,
    NotInThisMatch,
    PlayerOneNotSet,
    PlayerTwoNotSet,
    MatchNotActive,
    CannotDetermineWinner,
    OnlyCreatorCanCancel,
    CanOnlyCancelDuringRegistration,
}

pub open spec fn swiss_rounds(n: nat) -> nat {
    if ceil_log2(n) < 3 {
        3
    } else {
        ceil_log2(n)
    }
}

pub open spec fn fresh_participant(p: SwissParticipant, id: String, bye: bool) -> bool {
    &&& p.player_id == id
    &&& p.score == 0
    &&& p.opponents@.len() == 0
    &&& p.has_bye == bye
}

/// `b` is `t` with the participants seeded from the registrations (fresh,
/// the middle one of an odd field marked for the bye), the number of rounds
/// fixed, and round one created by fold pairing, in the match list and as a
/// new round; nothing else changes.
pub open spec fn bracket_made(t: Tournament, b: Tournament) -> bool {
    let players = t.registered_players@;
    let n = players.len();
    &&& b == (Tournament {
        participants: b.participants,
        num_rounds: b.num_rounds,
        total_rounds: b.total_rounds,
        matches: b.matches,
        rounds: b.rounds,
        ..t
    })
    &&& b.participants@.len() == n
    &&& forall|i: int|
        0 <= i < n ==> fresh_participant(
            #[trigger] b.participants@[i],
            players[i],
            n % 2 == 1 && i == n / 2,
        )
    &&& b.num_rounds == swiss_rounds(n)
    &&& b.total_rounds == b.num_rounds
    &&& created_round(b.matches@, t.id@, 1, fold_pairings(players))
    &&& b.rounds@.len() == t.rounds@.len() + 1
    &&& forall|k: int| 0 <= k < t.rounds@.len() ==> #[trigger] b.rounds@[k] == t.rounds@[k]
    &&& b.rounds@.last().round_number == 1
    &&& !b.rounds@.last().completed
    &&& created_round(b.rounds@.last().matches@, t.id@, 1, fold_pairings(players))
}

/// The tournament as it starts at `now`: in progress, at round one.
pub open spec fn opened(t: Tournament, now: u64) -> Tournament {
    Tournament {
        status: TournamentStatus::InProgress,
        started_at: Some(now),
        current_round: 1,
        ..t
    }
}

/// From `t`, the bracket `b` was made and its byes settled as `mid`.
pub open spec fn started_from(t: Tournament, b: Tournament, mid: Tournament) -> bool {
    bracket_made(t, b) && byes_settled(b, mid)
}

/// Seeds the participants from the registrations, fixes the number of rounds,
/// and creates round one by fold pairing (its bye, if any, not yet settled).
pub fn generate_bracket(tournament: &mut Tournament)
    requires
        old(tournament).registered_players@.len() < u32::MAX - 1,
    ensures
        bracket_made(*old(tournament), *final(tournament)),
{
    let n = tournament.registered_players.len();
    let mut participants: Vec<SwissParticipant> = Vec::new();
    let mut i: usize = 0;
    while i < n
        invariant
            n == tournament.registered_players@.len(),
            i <= n,
            participants@.len() == i,
            forall|k: int|
                0 <= k < i ==> fresh_participant(
                    #[trigger] participants@[k],
                    tournament.registered_players@[k],
                    n % 2 == 1 && k == n / 2,
                ),
        decreases n - i,
    {
        participants.push(
            SwissParticipant {
                player_id: tournament.registered_players[i].clone(),
                score: 0,
                opponents: Vec::new(),
                has_bye: n % 2 == 1 && i == n / 2,
            },
        );
        i = i + 1;
    }
    tournament.participants = participants;
    tournament.num_rounds = calculate_swiss_rounds(n);
    tournament.total_rounds = tournament.num_rounds;
    let pairings = generate_first_round_pairings(&tournament.registered_players);
    let flat = build_round_matches(&tournament.id, 1, &pairings);
    let listed = build_round_matches(&tournament.id, 1, &pairings);
    tournament.matches = flat;
    tournament.rounds.push(TournamentRound { round_number: 1, matches: listed, completed: false });
}

fn text_listed(v: &Vec<String>, x: &str) -> (r: bool)
    ensures
        r == texts(v@).contains(x@),
{
    let s = String::from_str(x);
    text_in(v, &s)
}

/// Registers `player` for a public tournament that is still open and not full.
pub fn join_tournament(tournament: &mut Tournament, player: &str) -> (r: Result<(), TournamentError>)
    ensures
        r == if !old(tournament).is_public {
            Err(TournamentError::PrivateTournament)
        } else {
            open_registration(*old(tournament), player@)
        },
        r.is_ok() ==> texts(final(tournament).registered_players@) == texts(
            old(tournament).registered_players@,
        ).push(player@),
        r.is_ok() ==> *final(tournament) == (Tournament {
            registered_players: final(tournament).registered_players,
            ..*old(tournament)
        }),
        r.is_err() ==> *final(tournament) == *old(tournament),
{
    if !tournament.is_public {
        return Err(TournamentError::PrivateTournament);
    }
    register(tournament, player)
}

/// The checks of an open registration, in order.
pub open spec fn open_registration(t: Tournament, player: Seq<char>) -> Result<(), TournamentError> {
    if t.status != TournamentStatus::Registration {
        Err(TournamentError::NotAcceptingRegistrations)
    } else if texts(t.registered_players@).contains(player) {
        Err(TournamentError::AlreadyRegistered)
    } else if t.registered_players@.len() >= t.max_players {
        Err(TournamentError::TournamentFull)
    } else {
        Ok(())
    }
}

fn register(tournament: &mut Tournament, player: &str) -> (r: Result<(), TournamentError>)
    ensures
        r == open_registration(*old(tournament), player@),
        r.is_ok() ==> texts(final(tournament).registered_players@) == texts(
            old(tournament).registered_players@,
        ).push(player@),
        r.is_ok() ==> *final(tournament) == (Tournament {
            registered_players: final(tournament).registered_players,
            ..*old(tournament)
        }),
        r.is_err() ==> *final(tournament) == *old(tournament),
{
    if tournament.status != TournamentStatus::Registration {
        return Err(TournamentError::NotAcceptingRegistrations);
    }
    if text_listed(&tournament.registered_players, player) {
        return Err(TournamentError::AlreadyRegistered);
    }
    if tournament.registered_players.len() >= tournament.max_players as usize {
        return Err(TournamentError::TournamentFull);
    }
    tournament.registered_players.push(String::from_str(player));
    assert(texts(tournament.registered_players@) =~= texts(old(tournament).registered_players@).push(
        player@,
    ));
    Ok(())
}

/// Upper-case folding of a text, as `str::to_uppercase` does it.
pub uninterp spec fn upper_of(s: Seq<char>) -> Seq<char>;

/// Relies on `str::to_uppercase`: its result depends on the characters alone.
#[verifier::external_body]
fn uppercase(s: &str) -> (r: String)
    ensures
        r@ == upper_of(s@),
{
    s.to_uppercase()
}

/// The checks of joining by invite code, given the code in upper case.
pub open spec fn code_check(t: Tournament, code_upper: Seq<char>, player: Seq<char>) -> Result<(), TournamentError> {
    if t.is_public || opt_text(t.invite_code) != Some(code_upper) {
        Err(TournamentError::InvalidInviteCode)
    } else {
        open_registration(t, player)
    }
}

/// Registers `player` for a private tournament through its invite code,
/// given already in upper case.
pub fn join_tournament_by_upper_code(
    tournament: &mut Tournament,
    invite_code_upper: &str,
    player: &str,
) -> (r: Result<(), TournamentError>)
    ensures
        r == code_check(*old(tournament), invite_code_upper@, player@),
        r.is_ok() ==> texts(final(tournament).registered_players@) == texts(
            old(tournament).registered_players@,
        ).push(player@),
        r.is_err() ==> *final(tournament) == *old(tournament),
{
    let code = String::from_str(invite_code_upper);
    let matches = match &tournament.invite_code {
        Some(c) => *c == code,
        None => false,
    };
    if tournament.is_public || !matches {
        return Err(TournamentError::InvalidInviteCode);
    }
    register(tournament, player)
}

/// Registers `player` for a private tournament through its invite code, in
/// any letter case.
pub fn join_tournament_by_code(tournament: &mut Tournament, invite_code: &str, player: &str) -> (r: Result<(), TournamentError>)
    ensures
        r == code_check(*old(tournament), upper_of(invite_code@), player@),
        r.is_ok() ==> texts(final(tournament).registered_players@) == texts(
            old(tournament).registered_players@,
        ).push(player@),
        r.is_err() ==> *final(tournament) == *old(tournament),
{
    let upper = uppercase(invite_code);
    join_tournament_by_upper_code(tournament, upper.as_str(), player)
}

/// `v` without the entries equal to `x`.
pub open spec fn without(v: Seq<Seq<char>>, x: Seq<char>) -> Seq<Seq<char>> {
    v.filter(|y: Seq<char>| y != x)
}

/// Withdraws `player` before the start; the creator cannot leave.
pub fn leave_tournament(tournament: &mut Tournament, player: &str) -> (r: Result<(), TournamentError>)
    ensures
        r == if old(tournament).status != TournamentStatus::Registration {
            Err(TournamentError::CannotLeaveAfterStart)
        } else if old(tournament).creator@ == player@ {
            Err(TournamentError::CreatorCannotLeave)
        } else if !texts(old(tournament).registered_players@).contains(player@) {
            Err(TournamentError::NotRegistered)
        } else {
            Ok(())
        },
        r.is_ok() ==> texts(final(tournament).registered_players@) == without(
            texts(old(tournament).registered_players@),
            player@,
        ),
        r.is_err() ==> *final(tournament) == *old(tournament),
{
    if tournament.status != TournamentStatus::Registration {
        return Err(TournamentError::CannotLeaveAfterStart);
    }
    let who = String::from_str(player);
    if tournament.creator == who {
        return Err(TournamentError::CreatorCannotLeave);
    }
    let ghost before = texts(tournament.registered_players@);
    let mut kept: Vec<String> = Vec::new();
    let mut i: usize = 0;
    let mut found = false;
    while i < tournament.registered_players.len()
        invariant
            i <= tournament.registered_players@.len(),
            before == texts(tournament.registered_players@),
            texts(kept@) == without(before.take(i as int), who@),
            found == before.take(i as int).contains(who@),
            who@ == player@,
        decreases tournament.registered_players@.len() - i,
    {
        let ghost pre = before.take(i as int);
        assert(before.take(i + 1) =~= pre.push(before[i as int]));
        proof {
            pre.lemma_filter_push(before[i as int], |y: Seq<char>| y != who@);
        }
        let same = tournament.registered_players[i] == who;
        proof {
            let next = before.take(i + 1);
            if same {
                assert(next[i as int] == who@);
            } else {
                if next.contains(who@) {
                    let k = choose|k: int| 0 <= k < next.len() && next[k] == who@;
                    assert(pre[k] == who@);
                }
                if pre.contains(who@) {
                    let k = choose|k: int| 0 <= k < pre.len() && pre[k] == who@;
                    assert(next[k] == who@);
                }
            }
        }
        if same {
            found = true;
        } else {
            kept.push(tournament.registered_players[i].clone());
            assert(texts(kept@) =~= texts(kept@.drop_last()).push(before[i as int]));
        }
        i = i + 1;
    }
    assert(before.take(i as int) =~= before);
    if !found {
        return Err(TournamentError::NotRegistered);
    }
    tournament.registered_players = kept;
    Ok(())
}

/// Cancels a tournament still in registration: it ends with no winner.
pub fn cancel_tournament(tournament: &mut Tournament, player: &str, now: u64) -> (r: Result<(), TournamentError>)
    ensures
        r == if old(tournament).creator@ != player@ {
            Err(TournamentError::OnlyCreatorCanCancel)
        } else if old(tournament).status != TournamentStatus::Registration {
            Err(TournamentError::CanOnlyCancelDuringRegistration)
        } else {
            Ok(())
        },
        r.is_ok() ==> *final(tournament) == (Tournament {
            status: TournamentStatus::Finished,
            finished_at: Some(now),
            ..*old(tournament)
        }),
        r.is_err() ==> *final(tournament) == *old(tournament),
{
    let who = String::from_str(player);
    if tournament.creator != who {
        return Err(TournamentError::OnlyCreatorCanCancel);
    }
    if tournament.status != TournamentStatus::Registration {
        return Err(TournamentError::CanOnlyCancelDuringRegistration);
    }
    tournament.status = TournamentStatus::Finished;
    tournament.finished_at = Some(now);
    Ok(())
}

/// Fewest registrations to start: a quarter of the capacity, at least 2.
pub open spec fn min_players(max_players: u32) -> int {
    if max_players / 4 < 2 {
        2
    } else {
        (max_players / 4) as int
    }
}

/// The checks for starting, in order; `now` and the scheduled start are in
/// micro- and milliseconds.
pub open spec fn start_check(t: Tournament, player: Seq<char>, now: u64) -> Result<(), TournamentError> {
    if t.creator@ != player {
        Err(TournamentError::OnlyCreatorCanStart)
    } else if t.status != TournamentStatus::Registration {
        Err(TournamentError::AlreadyStarted)
    } else if t.registered_players@.len() < min_players(t.max_players) {
        Err(TournamentError::NotEnoughPlayers)
    } else if t.scheduled_start.is_some() && (now as int) < t.scheduled_start.unwrap() * 1000 {
        Err(TournamentError::BeforeScheduledStart)
    } else {
        Ok(())
    }
}

/// Starts the tournament at `now` (microseconds): round one is paired and its
/// bye settled.
pub fn start_tournament(tournament: &mut Tournament, player: &str, now: u64) -> (r: Result<(), TournamentError>)
    requires
        old(tournament).registered_players@.len() < u32::MAX - 1,
    ensures
        r == start_check(*old(tournament), player@, now),
        r.is_err() ==> *final(tournament) == *old(tournament),
        r.is_ok() ==> exists|b: Tournament, mid: Tournament|
            #[trigger] started_from(opened(*old(tournament), now), b, mid) && moved_on(
                mid,
                *final(tournament),
            ),
{
    let who = String::from_str(player);
    if tournament.creator != who {
        return Err(TournamentError::OnlyCreatorCanStart);
    }
    if tournament.status != TournamentStatus::Registration {
        return Err(TournamentError::AlreadyStarted);
    }
    let quarter = tournament.max_players / 4;
    let min_count: u32 = if quarter < 2 {
        2
    } else {
        quarter
    };
    if tournament.registered_players.len() < min_count as usize {
        return Err(TournamentError::NotEnoughPlayers);
    }
    match tournament.scheduled_start {
        Some(start_ms) => {
            if (now as u128) < (start_ms as u128) * 1000 {
                return Err(TournamentError::BeforeScheduledStart);
            }
        },
        None => {},
    }
    tournament.status = TournamentStatus::InProgress;
    tournament.started_at = Some(now);
    tournament.current_round = 1;
    generate_bracket(tournament);
    let ghost b = *tournament;
    process_byes(tournament);
    proof {
        let mid = choose|mid: Tournament| byes_settled(b, mid) && moved_on(mid, *tournament);
        assert(started_from(opened(*old(tournament), now), b, mid));
    }
    Ok(())
}

/// Index of the first match with id `id`.
pub open spec fn first_match(ms: Seq<TournamentMatch>, id: Seq<char>, i: int) -> bool {
    &&& 0 <= i < ms.len()
    &&& ms[i].id@ == id
    &&& forall|j: int| 0 <= j < i ==> (#[trigger] ms[j]).id@ != id
}

/// The index of the first match with id `id`, when there is one.
pub open spec fn match_index(ms: Seq<TournamentMatch>, id: Seq<char>) -> int {
    choose|i: int| first_match(ms, id, i)
}

pub proof fn lemma_match_index(ms: Seq<TournamentMatch>, id: Seq<char>, i: int)
    requires
        first_match(ms, id, i),
    ensures
        match_index(ms, id) == i,
{
    let j = match_index(ms, id);
    assert(first_match(ms, id, j));
    if j < i {
        assert(ms[j].id@ != id);
    }
    if j > i {
        assert(ms[i].id@ != id);
    }
}

pub open spec fn has_match(ms: Seq<TournamentMatch>, id: Seq<char>) -> bool {
    exists|i: int| 0 <= i < ms.len() && (#[trigger] ms[i]).id@ == id
}

fn find_match(ms: &Vec<TournamentMatch>, id: &String) -> (r: Option<usize>)
    ensures
        match r {
            Some(i) => first_match(ms@, id@, i as int),
            None => !has_match(ms@, id@),
        },
{
    let mut i: usize = 0;
    while i < ms.len()
        invariant
            i <= ms@.len(),
            forall|j: int| 0 <= j < i ==> (#[trigger] ms@[j]).id@ != id@,
        decreases ms@.len() - i,
    {
        if ms[i].id == *id {
            return Some(i);
        }
        i = i + 1;
    }
    None
}

/// The other player of `m`, when `player` is one of its two players; the
/// outer `None` when `player` is in neither slot.
pub open spec fn other_player(m: TournamentMatch, player: Seq<char>) -> Option<Option<String>> {
    if opt_text(m.player1) == Some(player) {
        Some(m.player2)
    } else if opt_text(m.player2) == Some(player) {
        Some(m.player1)
    } else {
        None
    }
}

/// The loser of match `m` won by `w`.
pub open spec fn loser_of(m: TournamentMatch, w: Seq<char>) -> Option<String> {
    if opt_text(m.player1) == Some(w) {
        m.player2
    } else {
        m.player1
    }
}

/// `mid` is `t` with match `i` won by `w`: the match and its copy in the
/// current round are finished, and the result is recorded for both players.
pub open spec fn match_won(t: Tournament, mid: Tournament, i: int, w: String) -> bool {
    let m = t.matches@[i];
    &&& same_setup(t, mid)
    &&& mid.status == t.status
    &&& mid.current_round == t.current_round
    &&& mid.winner == t.winner
    &&& mid.matches@ == t.matches@.update(
        i,
        TournamentMatch { winner: Some(w), status: MatchStatus::Finished, ..m },
    )
    &&& settled(t.rounds@, mid.rounds@, t.current_round, m.id@, Some(w))
    &&& match loser_of(m, w@) {
        Some(l) => recorded(t.participants@, mid.participants@, w@, l@, false),
        None => mid.participants == t.participants,
    }
}

/// Then the round moves on as a finished match makes it: an unfinished round
/// stays as it is; a finished last round decides the tournament; any other
/// finished round opens the next one and settles its byes, and, should that
/// round be over at once, the tournament moves on from there.
pub open spec fn moved_on(mid: Tournament, after: Tournament) -> bool {
    &&& advanced(mid, after)
    &&& if !current_round_done(mid) {
        after == mid
    } else if mid.current_round >= mid.num_rounds {
        if mid.rounds@.len() > 0 && round_done(mid.rounds@.last()) {
            finished_from(mid, after)
        } else {
            after == mid
        }
    } else {
        exists|m1: Tournament, p: Seq<Pairing>, m2: Tournament|
            #[trigger] opened_and_settled(mid, m1, p, m2) && advanced(m2, after) && (
            !current_round_done(m2) ==> after == m2)
    }
}

/// `after` is `t` decided: finished, with the first top scorer as winner.
pub open spec fn finished_from(t: Tournament, after: Tournament) -> bool {
    &&& decided(after)
    &&& after == (Tournament { status: TournamentStatus::Finished, winner: after.winner, ..t })
}

/// From `t` the next round was opened as `m1` (paired as `p`) and its byes
/// settled as `m2`.
pub open spec fn opened_and_settled(t: Tournament, m1: Tournament, p: Seq<Pairing>, m2: Tournament) -> bool {
    next_round_opened(t, m1, p) && byes_settled(m1, m2)
}

pub open spec fn forfeit_check(t: Tournament, match_id: Seq<char>, player: Seq<char>, i: int) -> Result<String, TournamentError> {
    let m = t.matches@[i];
    if m.status != MatchStatus::Ready && m.status != MatchStatus::InProgress {
        Err(TournamentError::MatchNotActive)
    } else {
        match other_player(m, player) {
            None => Err(TournamentError::NotInThisMatch),
            Some(None) => Err(TournamentError::CannotDetermineWinner),
            Some(Some(w)) => Ok(w),
        }
    }
}

pub open spec fn play_ready(t: Tournament) -> bool {
    &&& t.current_round >= 1
    &&& t.participants@.len() < u32::MAX - 1
    &&& scores_fit(t.participants@)
}

/// Credits match `i` to `winner`, records the result, and moves the round on.
fn award_match(tournament: &mut Tournament, i: usize, winner: &String) -> (mid: Ghost<Tournament>)
    requires
        i < old(tournament).matches@.len(),
        play_ready(*old(tournament)),
    ensures
        match_won(*old(tournament), mid@, i as int, *winner),
        moved_on(mid@, *final(tournament)),
{
    let ghost t0 = *tournament;
    tournament.matches[i].winner = Some(winner.clone());
    tournament.matches[i].status = MatchStatus::Finished;
    let loser = if same_text(&tournament.matches[i].player1, &Some(winner.clone())) {
        copy_text(&tournament.matches[i].player2)
    } else {
        copy_text(&tournament.matches[i].player1)
    };
    match &loser {
        Some(l) => {
            record_swiss_result(&mut tournament.participants, winner.as_str(), l.as_str(), false);
        },
        None => {},
    }
    let id = tournament.matches[i].id.clone();
    let current = tournament.current_round;
    settle_in_round(&mut tournament.rounds, current, &id, &Some(winner.clone()));
    let ghost mid = *tournament;
    assert(mid.matches@ =~= t0.matches@.update(
        i as int,
        TournamentMatch { winner: Some(*winner), status: MatchStatus::Finished, ..t0.matches@[i as int] },
    ));
    assert(match_won(t0, mid, i as int, *winner));
    advance_to_next_round(tournament);
    Ghost(mid)
}

/// `player` forfeits match `match_id`, which must be ready or in progress:
/// the opponent wins, the result is recorded, and the round moves on.
pub fn forfeit_tournament_match(tournament: &mut Tournament, match_id: &str, player: &str) -> (r: Result<String, TournamentError>)
    requires
        play_ready(*old(tournament)),
    ensures
        !has_match(old(tournament).matches@, match_id@) ==> r == Err::<String, TournamentError>(
            TournamentError::MatchNotFound,
        ),
        has_match(old(tournament).matches@, match_id@) ==> r == forfeit_check(
            *old(tournament),
            match_id@,
            player@,
            match_index(old(tournament).matches@, match_id@),
        ),
        r.is_ok() ==> exists|mid: Tournament|
            #[trigger] match_won(
                *old(tournament),
                mid,
                match_index(old(tournament).matches@, match_id@),
                r.unwrap(),
            ) && moved_on(mid, *final(tournament)),
        r.is_err() ==> *final(tournament) == *old(tournament),
{
    let id = String::from_str(match_id);
    let i = match find_match(&tournament.matches, &id) {
        Some(i) => i,
        None => {
            return Err(TournamentError::MatchNotFound);
        },
    };
    proof {
        lemma_match_index(old(tournament).matches@, match_id@, i as int);
    }
    let status = tournament.matches[i].status;
    if status != MatchStatus::Ready && status != MatchStatus::InProgress {
        return Err(TournamentError::MatchNotActive);
    }
    let who = Some(String::from_str(player));
    let winner = if same_text(&tournament.matches[i].player1, &who) {
        copy_text(&tournament.matches[i].player2)
    } else if same_text(&tournament.matches[i].player2, &who) {
        copy_text(&tournament.matches[i].player1)
    } else {
        return Err(TournamentError::NotInThisMatch);
    };
    let w = match winner {
        Some(w) => w,
        None => {
            return Err(TournamentError::CannotDetermineWinner);
        },
    };
    let mid = award_match(tournament, i, &w);
    let result: Result<String, TournamentError> = Ok(w);
    assert(match_won(*old(tournament), mid@, match_index(old(tournament).matches@, match_id@), result.unwrap()));
    result
}

/// `mid` is `t` with match `i` drawn: the match and its copy in the current
/// round are finished without a winner, and both players get a point.
pub open spec fn match_drawn(t: Tournament, mid: Tournament, i: int, red: Option<String>, black: Option<String>) -> bool {
    let m = t.matches@[i];
    &&& same_setup(t, mid)
    &&& mid.status == t.status
    &&& mid.current_round == t.current_round
    &&& mid.winner == t.winner
    &&& mid.matches@ == t.matches@.update(i, TournamentMatch { status: MatchStatus::Finished, ..m })
    &&& settled(t.rounds@, mid.rounds@, t.current_round, m.id@, None)
    &&& if red.is_some() && black.is_some() {
        recorded(t.participants@, mid.participants@, red.unwrap()@, black.unwrap()@, true)
    } else {
        mid.participants == t.participants
    }
}

/// The winner of a finished game, by seat.
pub open spec fn game_winner(result: GameResult, red: Option<String>, black: Option<String>) -> Option<String> {
    match result {
        GameResult::RedWins => red,
        GameResult::BlackWins => black,
        _ => None,
    }
}

/// Records the result of the game played for match `match_id` and moves the
/// round on; a game without a result, or a winner without a seat, changes
/// nothing.
pub fn record_tournament_game(
    tournament: &mut Tournament,
    match_id: &str,
    result: GameResult,
    red: &Option<String>,
    black: &Option<String>,
)
    requires
        play_ready(*old(tournament)),
    ensures
        !has_match(old(tournament).matches@, match_id@) ==> *final(tournament) == *old(tournament),
        has_match(old(tournament).matches@, match_id@) ==> {
            let i = match_index(old(tournament).matches@, match_id@);
            if result == GameResult::Draw {
                exists|mid: Tournament|
                    #[trigger] match_drawn(*old(tournament), mid, i, *red, *black) && moved_on(
                        mid,
                        *final(tournament),
                    )
            } else {
                match game_winner(result, *red, *black) {
                    Some(w) => exists|mid: Tournament|
                        #[trigger] match_won(*old(tournament), mid, i, w) && moved_on(
                            mid,
                            *final(tournament),
                        ),
                    None => *final(tournament) == *old(tournament),
                }
            }
        },
{
    let id = String::from_str(match_id);
    let i = match find_match(&tournament.matches, &id) {
        Some(i) => i,
        None => {
            return;
        },
    };
    proof {
        lemma_match_index(old(tournament).matches@, match_id@, i as int);
    }
    let winner = match result {
        GameResult::RedWins => copy_text(red),
        GameResult::BlackWins => copy_text(black),
        GameResult::Draw => {
            let ghost t0 = *tournament;
            match (red, black) {
                (Some(p1), Some(p2)) => {
                    record_swiss_result(&mut tournament.participants, p1.as_str(), p2.as_str(), true);
                },
                _ => {},
            }
            tournament.matches[i].status = MatchStatus::Finished;
            let mid_id = tournament.matches[i].id.clone();
            let current = tournament.current_round;
            settle_in_round(&mut tournament.rounds, current, &mid_id, &None);
            let ghost mid = *tournament;
            assert(mid.matches@ =~= t0.matches@.update(
                i as int,
                TournamentMatch { status: MatchStatus::Finished, ..t0.matches@[i as int] },
            ));
            assert(match_drawn(t0, mid, i as int, *red, *black));
            advance_to_next_round(tournament);
            return;
        },
        GameResult::InProgress => {
            return;
        },
    };
    match winner {
        Some(w) => {
            let mid = award_match(tournament, i, &w);
            assert(match_won(*old(tournament), mid@, i as int, w));
        },
        None => {},
    }
}

/// The checks for starting the game of match `i`, in order, and its two players.
pub open spec fn claim_check(t: Tournament, player: Seq<char>, i: int) -> Result<(String, String), TournamentError> {
    let m = t.matches@[i];
    if m.status != MatchStatus::Ready {
        Err(TournamentError::MatchNotReady)
    } else if m.game_id.is_some() {
        Err(TournamentError::MatchAlreadyStarted)
    } else if other_player(m, player).is_none() {
        Err(TournamentError::NotInThisMatch)
    } else if m.player1.is_none() {
        Err(TournamentError::PlayerOneNotSet)
    } else if m.player2.is_none() {
        Err(TournamentError::PlayerTwoNotSet)
    } else {
        Ok((m.player1.unwrap(), m.player2.unwrap()))
    }
}

/// Claims match `match_id` for the game `game_id` that `player` is starting:
/// the match must be ready and not yet claimed. Returns its two players.
pub fn claim_tournament_match(
    tournament: &mut Tournament,
    match_id: &str,
    player: &str,
    game_id: String,
) -> (r: Result<(String, String), TournamentError>)
    ensures
        !has_match(old(tournament).matches@, match_id@) ==> r == Err::<(String, String), TournamentError>(
            TournamentError::MatchNotFound,
        ),
        has_match(old(tournament).matches@, match_id@) ==> r == claim_check(
            *old(tournament),
            player@,
            match_index(old(tournament).matches@, match_id@),
        ),
        r.is_ok() ==> {
            let i = match_index(old(tournament).matches@, match_id@);
            &&& *final(tournament) == Tournament {
                matches: final(tournament).matches,
                rounds: final(tournament).rounds,
                ..*old(tournament)
            }
            &&& final(tournament).matches@ == old(tournament).matches@.update(
                i,
                TournamentMatch {
                    game_id: Some(game_id),
                    status: MatchStatus::InProgress,
                    ..old(tournament).matches@[i]
                },
            )
            &&& claimed_in_rounds(
                old(tournament).rounds@,
                final(tournament).rounds@,
                old(tournament).matches@[i].round,
                match_id@,
                game_id,
            )
        },
        r.is_err() ==> *final(tournament) == *old(tournament),
{
    let id = String::from_str(match_id);
    let i = match find_match(&tournament.matches, &id) {
        Some(i) => i,
        None => {
            return Err(TournamentError::MatchNotFound);
        },
    };
    proof {
        lemma_match_index(old(tournament).matches@, match_id@, i as int);
    }
    if tournament.matches[i].status != MatchStatus::Ready {
        return Err(TournamentError::MatchNotReady);
    }
    if tournament.matches[i].game_id.is_some() {
        return Err(TournamentError::MatchAlreadyStarted);
    }
    let who = Some(String::from_str(player));
    if !same_text(&tournament.matches[i].player1, &who) && !same_text(&tournament.matches[i].player2, &who) {
        return Err(TournamentError::NotInThisMatch);
    }
    let p1 = match &tournament.matches[i].player1 {
        Some(p) => p.clone(),
        None => {
            return Err(TournamentError::PlayerOneNotSet);
        },
    };
    let p2 = match &tournament.matches[i].player2 {
        Some(p) => p.clone(),
        None => {
            return Err(TournamentError::PlayerTwoNotSet);
        },
    };
    let round = tournament.matches[i].round;
    claim_in_round(&mut tournament.rounds, round, &id, &game_id);
    tournament.matches[i].game_id = Some(game_id);
    tournament.matches[i].status = MatchStatus::InProgress;
    assert(tournament.matches@ =~= old(tournament).matches@.update(
        i as int,
        TournamentMatch {
            game_id: tournament.matches@[i as int].game_id,
            status: MatchStatus::InProgress,
            ..old(tournament).matches@[i as int]
        },
    ));
    Ok((p1, p2))
}

/// `floor(log2(n))` for `n >= 1`.
pub open spec fn floor_log2(n: nat) -> nat
    decreases n,
{
    if n <= 1 {
        0
    } else {
        1 + floor_log2(n / 2)
    }
}

fn floor_log2_exec(n: u32) -> (r: u32)
    ensures
        r == floor_log2(n as nat),
{
    let mut m = n;
    let mut k: u32 = 0;
    while m > 1
        invariant
            k + floor_log2(m as nat) == floor_log2(n as nat),
            k + m <= n,
        decreases m,
    {
        m = m / 2;
        k = k + 1;
    }
    k
}

/// The 32 characters of invite codes: no 0/O or 1/I/l to confuse.
pub open spec fn code_alphabet() -> Seq<char> {
    seq![
        'A', 'B', 'C', 'D', 'E', 'F', 'G', 'H', 'J', 'K', 'L', 'M', 'N', 'P', 'Q', 'R',
        'S', 'T', 'U', 'V', 'W', 'X', 'Y', 'Z', '2', '3', '4', '5', '6', '7', '8', '9',
    ]
}

pub open spec fn wrap64(x: int) -> u64 {
    (x % 0x1_0000_0000_0000_0000) as u64
}

/// The hash of a tournament id's bytes: `h * 31 + b` over the bytes, wrapping.
pub open spec fn id_hash(b: Seq<u8>) -> u64
    decreases b.len(),
{
    if b.len() == 0 {
        0
    } else {
        wrap64(id_hash(b.drop_last()) * 31 + b.last())
    }
}

/// The next seed of the code generator (a linear congruential step).
pub open spec fn next_seed(seed: u64) -> u64 {
    wrap64(seed * 1103515245 + 12345)
}

/// The invite code characters from `seed` on, `n` of them, the `i`-th taken
/// from bits `5 i ..` of the `i`-th seed.
pub open spec fn code_from(seed: u64, i: nat, n: nat) -> Seq<char>
    decreases n,
{
    if n == 0 {
        Seq::empty()
    } else {
        seq![code_alphabet()[((seed >> (5 * i) as u64) % 32) as int]] + code_from(next_seed(seed), i + 1, (n - 1) as nat)
    }
}

/// The invite code of a private tournament, from its id (as UTF-8 bytes)
/// and creation time.
pub open spec fn invite_code_of(id: Seq<char>, timestamp: u64) -> Seq<char> {
    code_from(wrap64(timestamp * id_hash(encode_utf8(id))), 0, 6)
}

/// A six-character invite code made from the tournament id and the time.
pub fn generate_invite_code(tournament_id: &str, timestamp: u64) -> (r: String)
    ensures
        r@ == invite_code_of(tournament_id@, timestamp),
{
    let bytes = tournament_id.as_bytes_vec();
    let mut h: u64 = 0;
    let mut i: usize = 0;
    while i < bytes.len()
        invariant
            i <= bytes@.len(),
            bytes@ == encode_utf8(tournament_id@),
            h == id_hash(bytes@.take(i as int)),
        decreases bytes@.len() - i,
    {
        assert(bytes@.take(i + 1).drop_last() =~= bytes@.take(i as int));
        h = ((h as u128 * 31 + bytes[i] as u128) % 0x1_0000_0000_0000_0000u128) as u64;
        i = i + 1;
    }
    assert(bytes@.take(bytes@.len() as int) =~= bytes@);
    let alphabet = "ABCDEFGHJKLMNPQRSTUVWXYZ23456789";
    proof {
        reveal_strlit("ABCDEFGHJKLMNPQRSTUVWXYZ23456789");
        assert(alphabet@ =~= code_alphabet());
    }
    proof {
        let a = timestamp as int;
        let b = h as int;
        assert(0 <= a * b <= 0xffff_ffff_ffff_ffff * 0xffff_ffff_ffff_ffff) by (nonlinear_arith)
            requires
                0 <= a <= 0xffff_ffff_ffff_ffff,
                0 <= b <= 0xffff_ffff_ffff_ffff,
        ;
    }
    let mut seed: u64 = ((timestamp as u128 * h as u128) % 0x1_0000_0000_0000_0000u128) as u64;
    let ghost seed0 = seed;
    let mut code = String::new();
    let mut k: u32 = 0;
    while k < 6
        invariant
            k <= 6,
            alphabet@ == code_alphabet(),
            code@ + code_from(seed, k as nat, (6 - k) as nat) == code_from(seed0, 0, 6),
        decreases 6 - k,
    {
        let idx = ((seed >> (k * 5)) % 32) as usize;
        let ghost before = code@;
        code.append(alphabet.substring_char(idx, idx + 1));
        proof {
            assert(alphabet@.subrange(idx as int, idx + 1) =~= seq![code_alphabet()[idx as int]]);
            assert(code_from(seed, k as nat, (6 - k) as nat) == seq![code_alphabet()[idx as int]]
                + code_from(next_seed(seed), (k + 1) as nat, (6 - k - 1) as nat));
            assert(code@ + code_from(next_seed(seed), (k + 1) as nat, (6 - k - 1) as nat) =~= before
                + code_from(seed, k as nat, (6 - k) as nat));
        }
        seed = ((seed as u128 * 1103515245 + 12345) % 0x1_0000_0000_0000_0000u128) as u64;
        k = k + 1;
    }
    assert(code@ =~= code@ + code_from(seed, 6, 0));
    code
}

/// A new tournament in registration with its creator registered; a private
/// one gets an invite code. The capacity must be between 2 and 64.
pub fn create_tournament(
    tournament_id: String,
    name: String,
    time_control: TimeControl,
    max_players: u32,
    is_public: bool,
    scheduled_start: Option<u64>,
    creator: String,
    now: u64,
) -> (r: Result<Tournament, TournamentError>)
    ensures
        (max_players < 2 || max_players > 64) <==> r is Err,
        r is Err ==> r == Err::<Tournament, TournamentError>(TournamentError::InvalidMaxPlayers),
        match r {
            Ok(t) => {
                &&& t.id == tournament_id
                &&& t.name == name
                &&& t.creator == creator
                &&& t.status == TournamentStatus::Registration
                &&& t.time_control == time_control
                &&& t.max_players == max_players
                &&& t.registered_players@ == seq![creator]
                &&& t.matches@.len() == 0
                &&& t.current_round == 0
                &&& t.total_rounds == floor_log2(max_players as nat)
                &&& t.winner.is_none()
                &&& t.created_at == now
                &&& t.started_at.is_none()
                &&& t.finished_at.is_none()
                &&& t.is_public == is_public
                &&& (is_public ==> t.invite_code.is_none())
                &&& (!is_public ==> opt_text(t.invite_code) == Some(
                    invite_code_of(tournament_id@, now),
                ))
                &&& t.scheduled_start == scheduled_start
                &&& t.format == TournamentFormat::Swiss
                &&& t.participants@.len() == 0
                &&& t.rounds@.len() == 0
                &&& t.num_rounds == 0
            },
            Err(_) => true,
        },
{
    if max_players < 2 || max_players > 64 {
        return Err(TournamentError::InvalidMaxPlayers);
    }
    let invite_code = if !is_public {
        Some(generate_invite_code(tournament_id.as_str(), now))
    } else {
        None
    };
    let mut registered: Vec<String> = Vec::new();
    registered.push(creator.clone());
    Ok(Tournament {
        id: tournament_id,
        name,
        creator,
        status: TournamentStatus::Registration,
        time_control,
        max_players,
        registered_players: registered,
        matches: Vec::new(),
        current_round: 0,
        total_rounds: floor_log2_exec(max_players),
        winner: None,
        created_at: now,
        started_at: None,
        finished_at: None,
        is_public,
        invite_code,
        scheduled_start,
        format: TournamentFormat::Swiss,
        participants: Vec::new(),
        rounds: Vec::new(),
        num_rounds: 0,
    })
}

/// A tournament ends only once its last round is reached, and then with the
/// first participant of highest score as winner: whatever advancing or
/// settling byes does to a tournament in progress, if it comes out finished,
/// its round is at least its number of rounds and its winner a top scorer.
pub proof fn law_finish_after_last_round(before: Tournament, after: Tournament)
    requires
        advanced(before, after),
        before.status != TournamentStatus::Finished,
        after.status == TournamentStatus::Finished,
    ensures
        after.current_round >= after.num_rounds,
        after.num_rounds == before.num_rounds,
        after.participants@.len() > 0 ==> exists|i: int|
            top_scorer(after.participants@, i) && after.winner == Some(
                #[trigger] after.participants@[i].player_id,
            ),
{
}

/// `after` is `before` with the first match of id `id`, in the first round
/// numbered `round`, claimed for the game `game_id` (when there is such a
/// match).
pub open spec fn claimed_in_rounds(
    before: Seq<TournamentRound>,
    after: Seq<TournamentRound>,
    round: u32,
    id: Seq<char>,
    game_id: String,
) -> bool {
    &&& after.len() == before.len()
    &&& forall|r: int|
        0 <= r < before.len() ==> {
            let b = #[trigger] before[r];
            let a = after[r];
            &&& a.round_number == b.round_number
            &&& a.completed == b.completed
            &&& a.matches@.len() == b.matches@.len()
            &&& forall|k: int|
                0 <= k < b.matches@.len() ==> {
                    let bm = #[trigger] b.matches@[k];
                    let am = a.matches@[k];
                    if b.round_number == round && (forall|r2: int|
                        0 <= r2 < r ==> (#[trigger] before[r2]).round_number != round) && bm.id@ == id
                        && (forall|k2: int|
                        0 <= k2 < k ==> (#[trigger] b.matches@[k2]).id@ != id) {
                        am == TournamentMatch {
                            game_id: Some(game_id),
                            status: MatchStatus::InProgress,
                            ..bm
                        }
                    } else {
                        am == bm
                    }
                }
        }
}

/// In the first round numbered `round`, the first match with id `id` is
/// claimed for the game `game_id`.
fn claim_in_round(rounds: &mut Vec<TournamentRound>, round: u32, id: &String, game_id: &String)
    ensures
        claimed_in_rounds(old(rounds)@, final(rounds)@, round, id@, *game_id),
{
    let mut r: usize = 0;
    while r < rounds.len()
        invariant
            r <= rounds@.len(),
            *rounds == *old(rounds),
            forall|r2: int| 0 <= r2 < r ==> (#[trigger] rounds@[r2]).round_number != round,
        decreases rounds@.len() - r,
    {
        if rounds[r].round_number == round {
            let mut k: usize = 0;
            while k < rounds[r].matches.len()
                invariant
                    r < rounds@.len(),
                    *rounds == *old(rounds),
                    rounds@[r as int].round_number == round,
                    forall|r2: int| 0 <= r2 < r ==> (#[trigger] rounds@[r2]).round_number != round,
                    k <= rounds@[r as int].matches@.len(),
                    forall|k2: int| 0 <= k2 < k ==> (#[trigger] rounds@[r as int].matches@[k2]).id@ != id@,
                decreases rounds@[r as int].matches@.len() - k,
            {
                if rounds[r].matches[k].id == *id {
                    rounds[r].matches[k].game_id = Some(game_id.clone());
                    rounds[r].matches[k].status = MatchStatus::InProgress;
                    proof {
                        assert forall|rr: int| 0 <= rr < old(rounds)@.len() && rr != r implies #[trigger] rounds@[rr] == old(rounds)@[rr] by {}
                    }
                    return;
                }
                k = k + 1;
            }
            return;
        }
        r = r + 1;
    }
}

} // verus!
