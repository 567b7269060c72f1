//! The computer player: a one-ply scorer over every legal move.
use vstd::prelude::*;
use crate::board::{board_at, dark_square};
use crate::board::get_piece;
use crate::game::CheckersGame;
use crate::rules::{
    abs, capture_available, has_capture_available, jump_open, may_go, move_error, on_board,
    step_open, MoveError,
};
use crate::types::{Piece, Turn};

verus! {

/// The directions a piece may take, in the order they are tried.
pub open spec fn directions(t: Turn, p: Piece) -> Seq<(int, int)> {
    if p.king() {
        seq![(-1int, -1int), (-1int, 1int), (1int, -1int), (1int, 1int)]
    } else {
        match t {
            Turn::Red => seq![(1int, -1int), (1int, 1int)],
            Turn::Black => seq![(-1int, -1int), (-1int, 1int)],
        }
    }
}

/// The jumps open from (`r`, `c`) along `ds`, in order.
pub open spec fn jumps_along(s: Seq<char>, t: Turn, r: int, c: int, ds: Seq<(int, int)>) -> Seq<(u8, u8, bool)>
    decreases ds.len(),
{
    if ds.len() == 0 {
        Seq::empty()
    } else {
        let rest = jumps_along(s, t, r, c, ds.drop_last());
        let (dr, dc) = ds.last();
        if jump_open(s, t, r, c, dr, dc) {
            rest.push(((r + 2 * dr) as u8, (c + 2 * dc) as u8, true))
        } else {
            rest
        }
    }
}

/// The one-square moves open from (`r`, `c`) along `ds`, in order.
pub open spec fn steps_along(s: Seq<char>, r: int, c: int, ds: Seq<(int, int)>) -> Seq<(u8, u8, bool)>
    decreases ds.len(),
{
    if ds.len() == 0 {
        Seq::empty()
    } else {
        let rest = steps_along(s, r, c, ds.drop_last());
        let (dr, dc) = ds.last();
        if step_open(s, r, c, dr, dc) {
            rest.push(((r + dr) as u8, (c + dc) as u8, false))
        } else {
            rest
        }
    }
}

/// The destinations of piece `p` on (`r`, `c`), with whether each captures:
/// its jumps, then its one-square moves when no capture is available anywhere.
pub open spec fn piece_moves(s: Seq<char>, t: Turn, r: int, c: int, p: Piece) -> Seq<(u8, u8, bool)> {
    let ds = directions(t, p);
    if capture_available(s, t) {
        jumps_along(s, t, r, c, ds)
    } else {
        jumps_along(s, t, r, c, ds) + steps_along(s, r, c, ds)
    }
}

fn direction_list(turn: Turn, piece: Piece) -> (v: Vec<(i8, i8)>)
    ensures
        v@.len() == directions(turn, piece).len(),
        forall|k: int|
            0 <= k < v@.len() ==> (#[trigger] v@[k]).0 as int == directions(turn, piece)[k].0
                && v@[k].1 as int == directions(turn, piece)[k].1,
{
    if piece.is_king() {
        vec![(-1, -1), (-1, 1), (1, -1), (1, 1)]
    } else {
        match turn {
            Turn::Red => vec![(1, -1), (1, 1)],
            Turn::Black => vec![(-1, -1), (-1, 1)],
        }
    }
}

/// Every destination of `piece` on (`row`, `col`) with `turn` to move, jumps
/// first; one-square moves only when no capture exists anywhere.
pub fn get_valid_moves_for_piece(board: &str, turn: Turn, row: u8, col: u8, piece: Piece) -> (v: Vec<(u8, u8, bool)>)
    requires
        row < 8,
        col < 8,
    ensures
        v@ == piece_moves(board@, turn, row as int, col as int, piece),
{
    let has_capture = has_capture_available(board, turn);
    let dirs = direction_list(turn, piece);
    let ghost ds = directions(turn, piece);
    let mut moves: Vec<(u8, u8, bool)> = Vec::new();
    let mut k: usize = 0;
    while k < dirs.len()
        invariant
            k <= dirs@.len(),
            dirs@.len() == ds.len(),
            ds == directions(turn, piece),
            forall|j: int| 0 <= j < dirs@.len() ==> (#[trigger] dirs@[j]).0 as int == ds[j].0 && dirs@[j].1 as int == ds[j].1,
            row < 8,
            col < 8,
            moves@ == jumps_along(board@, turn, row as int, col as int, ds.take(k as int)),
        decreases dirs@.len() - k,
    {
        let (dr, dc) = dirs[k];
        assert(ds.take(k + 1).drop_last() =~= ds.take(k as int));
        let to_r = row as i8 + 2 * dr;
        let to_c = col as i8 + 2 * dc;
        if to_r >= 0 && to_r < 8 && to_c >= 0 && to_c < 8 {
            let mid_piece = get_piece(board, (row as i8 + dr) as u8, (col as i8 + dc) as u8);
            let to_piece = get_piece(board, to_r as u8, to_c as u8);
            let is_enemy = match turn {
                Turn::Red => mid_piece.is_black(),
                Turn::Black => mid_piece.is_red(),
            };
            if is_enemy && to_piece.is_empty() {
                moves.push((to_r as u8, to_c as u8, true));
            }
        }
        k = k + 1;
    }
    assert(ds.take(dirs@.len() as int) =~= ds);
    if !has_capture {
        let ghost jumps = moves@;
        let mut k: usize = 0;
        while k < dirs.len()
            invariant
                k <= dirs@.len(),
                dirs@.len() == ds.len(),
                ds == directions(turn, piece),
                forall|j: int| 0 <= j < dirs@.len() ==> (#[trigger] dirs@[j]).0 as int == ds[j].0 && dirs@[j].1 as int == ds[j].1,
                row < 8,
                col < 8,
                moves@ == jumps + steps_along(board@, row as int, col as int, ds.take(k as int)),
            decreases dirs@.len() - k,
        {
            let (dr, dc) = dirs[k];
            assert(ds.take(k + 1).drop_last() =~= ds.take(k as int));
            let to_r = row as i8 + dr;
            let to_c = col as i8 + dc;
            if to_r >= 0 && to_r < 8 && to_c >= 0 && to_c < 8 {
                if get_piece(board, to_r as u8, to_c as u8).is_empty() {
                    moves.push((to_r as u8, to_c as u8, false));
                    assert(moves@ =~= jumps + steps_along(board@, row as int, col as int, ds.take(k + 1)));
                }
            }
            k = k + 1;
        }
    }
    moves
}

/// The heuristic value of moving piece `p` from (`r`, `c`) to (`tr`, `tc`):
/// 100 for a capture, twice the rows advanced and 50 for reaching the far row
/// (men only), less the distance from the centre, plus a small tiebreak fixed
/// by the square and the move count.
pub open spec fn move_score(t: Turn, p: Piece, r: int, c: int, tr: int, tc: int, cap: bool, mc: int) -> int {
    (if cap {
        100int
    } else {
        0int
    }) + (if p.king() {
        0int
    } else {
        match t {
            Turn::Red => 2 * tr + if tr == 7 {
                50int
            } else {
                0int
            },
            Turn::Black => 2 * (7 - tr) + if tr == 0 {
                50int
            } else {
                0int
            },
        }
    }) - (abs(tr - 4) + abs(tc - 4)) + (r * 13 + c * 17 + mc) % 5
}

/// Moving from (`r`, `c`) to `m` is one of the moves of the side to move.
pub open spec fn ai_candidate(s: Seq<char>, t: Turn, r: int, c: int, m: (u8, u8, bool)) -> bool {
    &&& on_board(r, c)
    &&& t.owns(board_at(s, r, c))
    &&& piece_moves(s, t, r, c, board_at(s, r, c)).contains(m)
}

pub open spec fn candidate_score(s: Seq<char>, t: Turn, r: int, c: int, m: (u8, u8, bool), mc: int) -> int {
    move_score(t, board_at(s, r, c), r, c, m.0 as int, m.1 as int, m.2, mc)
}

/// Moving the piece on (`fr`, `fc`) by its `q`-th move is the computer's
/// choice: no move of the side scores higher, and every move found before it
/// (on an earlier square, or earlier for the same piece) scores lower.
pub open spec fn ai_choice(s: Seq<char>, t: Turn, mc: int, fr: int, fc: int, q: int) -> bool {
    let ms = piece_moves(s, t, fr, fc, board_at(s, fr, fc));
    &&& on_board(fr, fc)
    &&& t.owns(board_at(s, fr, fc))
    &&& 0 <= q < ms.len()
    &&& forall|r2: int, c2: int, m: (u8, u8, bool)|
        #[trigger] ai_candidate(s, t, r2, c2, m) ==> candidate_score(s, t, r2, c2, m, mc)
            <= candidate_score(s, t, fr, fc, ms[q], mc)
    &&& forall|r2: int, c2: int, m: (u8, u8, bool)|
        #[trigger] ai_candidate(s, t, r2, c2, m) && 8 * r2 + c2 < 8 * fr + fc ==> candidate_score(
            s,
            t,
            r2,
            c2,
            m,
            mc,
        ) < candidate_score(s, t, fr, fc, ms[q], mc)
    &&& forall|q2: int|
        0 <= q2 < q ==> candidate_score(s, t, fr, fc, #[trigger] ms[q2], mc) < candidate_score(
            s,
            t,
            fr,
            fc,
            ms[q],
            mc,
        )
}

/// The computer's move for the side to move: the first move found, squares
/// in row order and each piece's moves in order, among those of highest
/// score; `None` when the side has no move.
pub fn calculate_ai_move(game: &CheckersGame) -> (r: Option<(u8, u8, u8, u8)>)
    ensures
        match r {
            None => forall|fr: int, fc: int, m: (u8, u8, bool)|
                !#[trigger] ai_candidate(game.board_state@, game.current_turn, fr, fc, m),
            Some((fr, fc, tr, tc)) => exists|q: int|
                #[trigger] ai_choice(
                    game.board_state@,
                    game.current_turn,
                    game.move_count as int,
                    fr as int,
                    fc as int,
                    q,
                ) && piece_moves(
                    game.board_state@,
                    game.current_turn,
                    fr as int,
                    fc as int,
                    board_at(game.board_state@, fr as int, fc as int),
                )[q].0 == tr && piece_moves(
                    game.board_state@,
                    game.current_turn,
                    fr as int,
                    fc as int,
                    board_at(game.board_state@, fr as int, fc as int),
                )[q].1 == tc,
        },
{
    let board = game.board_state.as_str();
    let turn = game.current_turn;
    let ghost s = game.board_state@;
    let ghost mc = game.move_count as int;
    let mut best_move: Option<(u8, u8, u8, u8)> = None;
    let mut best_score: i64 = i64::MIN;
    let ghost mut best_q: int = 0;
    let mut i: u8 = 0;
    while i < 64
        invariant
            i <= 64,
            board@ == s,
            turn == game.current_turn,
            mc == game.move_count as int,
            forall|j: int, m: (u8, u8, bool)|
                0 <= j < i && #[trigger] ai_candidate(s, turn, j / 8, j % 8, m) ==> best_move.is_some()
                    && candidate_score(s, turn, j / 8, j % 8, m, mc) <= best_score,
            match best_move {
                Some((fr, fc, tr, tc)) => {
                    let ms = piece_moves(s, turn, fr as int, fc as int, board_at(s, fr as int, fc as int));
                    &&& on_board(fr as int, fc as int)
                    &&& 8 * fr + fc < i
                    &&& turn.owns(board_at(s, fr as int, fc as int))
                    &&& 0 <= best_q < ms.len()
                    &&& ms[best_q].0 == tr && ms[best_q].1 == tc
                    &&& candidate_score(s, turn, fr as int, fc as int, ms[best_q], mc) == best_score
                    &&& forall|j: int, m: (u8, u8, bool)|
                        0 <= j < 8 * fr + fc && #[trigger] ai_candidate(s, turn, j / 8, j % 8, m)
                            ==> candidate_score(s, turn, j / 8, j % 8, m, mc) < best_score
                    &&& forall|q2: int| 0 <= q2 < best_q ==> candidate_score(s, turn, fr as int, fc as int, #[trigger] ms[q2], mc) < best_score
                },
                None => best_score == i64::MIN,
            },
        decreases 64 - i,
    {
        let row = i / 8;
        let col = i % 8;
        let piece = get_piece(board, row, col);
        let is_ai = match turn {
            Turn::Red => piece.is_red(),
            Turn::Black => piece.is_black(),
        };
        if is_ai {
            let moves = get_valid_moves_for_piece(board, turn, row, col, piece);
            let mut k: usize = 0;
            while k < moves.len()
                invariant
                    i < 64,
                    row == i / 8,
                    col == i % 8,
                    board@ == s,
                    turn == game.current_turn,
                    mc == game.move_count as int,
                            piece == board_at(s, row as int, col as int),
                    turn.owns(piece),
                    moves@ == piece_moves(s, turn, row as int, col as int, piece),
                    k <= moves@.len(),
                    forall|j: int, m: (u8, u8, bool)|
                        0 <= j < i && #[trigger] ai_candidate(s, turn, j / 8, j % 8, m) ==> best_move.is_some()
                            && candidate_score(s, turn, j / 8, j % 8, m, mc) <= best_score,
                    forall|q: int|
                        0 <= q < k ==> best_move.is_some() && candidate_score(
                            s,
                            turn,
                            row as int,
                            col as int,
                            #[trigger] moves@[q],
                            mc,
                        ) <= best_score,
                    match best_move {
                        Some((fr, fc, tr, tc)) => {
                            let ms = piece_moves(s, turn, fr as int, fc as int, board_at(s, fr as int, fc as int));
                            &&& on_board(fr as int, fc as int)
                            &&& 8 * fr + fc <= i
                            &&& (8 * fr + fc == i ==> best_q < k)
                            &&& turn.owns(board_at(s, fr as int, fc as int))
                            &&& 0 <= best_q < ms.len()
                            &&& ms[best_q].0 == tr && ms[best_q].1 == tc
                            &&& candidate_score(s, turn, fr as int, fc as int, ms[best_q], mc) == best_score
                            &&& forall|j: int, m: (u8, u8, bool)|
                                0 <= j < 8 * fr + fc && #[trigger] ai_candidate(s, turn, j / 8, j % 8, m)
                                    ==> candidate_score(s, turn, j / 8, j % 8, m, mc) < best_score
                            &&& forall|q2: int| 0 <= q2 < best_q ==> candidate_score(s, turn, fr as int, fc as int, #[trigger] ms[q2], mc) < best_score
                        },
                        None => best_score == i64::MIN,
                    },
                decreases moves@.len() - k,
            {
                let (to_row, to_col, is_capture) = moves[k];
                proof {
                    assert(piece_moves(s, turn, row as int, col as int, piece).contains(moves@[k as int]));
                    lemma_move_on_board(s, turn, row as int, col as int, piece, moves@[k as int]);
                }
                let mut score: i64 = 0;
                if is_capture {
                    score = score + 100;
                }
                match turn {
                    Turn::Red => {
                        if !piece.is_king() {
                            score = score + (to_row as i64) * 2;
                            if to_row == 7 {
                                score = score + 50;
                            }
                        }
                    },
                    Turn::Black => {
                        if !piece.is_king() {
                            score = score + (7 - to_row as i64) * 2;
                            if to_row == 0 {
                                score = score + 50;
                            }
                        }
                    },
                }
                let dr: i64 = if to_row >= 4 { to_row as i64 - 4 } else { 4 - to_row as i64 };
                let dc: i64 = if to_col >= 4 { to_col as i64 - 4 } else { 4 - to_col as i64 };
                score = score - (dr + dc);
                let random_factor = (row as i64 * 13 + col as i64 * 17 + game.move_count as i64) % 5;
                score = score + random_factor;
                assert(score == candidate_score(s, turn, row as int, col as int, moves@[k as int], mc));
                assert(score > i64::MIN);
                if score > best_score {
                    proof {
                        assert(8 * row + col == i);
                        assert forall|j: int, m: (u8, u8, bool)|
                            0 <= j < i && #[trigger] ai_candidate(s, turn, j / 8, j % 8, m) implies candidate_score(s, turn, j / 8, j % 8, m, mc) < score by {}
                        best_q = k as int;
                    }
                    best_score = score;
                    best_move = Some((row, col, to_row, to_col));
                }
                k = k + 1;
            }
            proof {
                assert forall|m: (u8, u8, bool)| #[trigger] ai_candidate(s, turn, i as int / 8, i as int % 8, m) implies best_move.is_some()
                    && candidate_score(s, turn, i as int / 8, i as int % 8, m, mc) <= best_score by {
                    let q = choose|q: int| 0 <= q < moves@.len() && moves@[q] == m;
                    assert(candidate_score(s, turn, row as int, col as int, moves@[q], mc) <= best_score);
                }
            }
        }
        i = i + 1;
    }
    proof {
        assert forall|r2: int, c2: int, m: (u8, u8, bool)| #[trigger] ai_candidate(s, turn, r2, c2, m) implies best_move.is_some()
            && candidate_score(s, turn, r2, c2, m, mc) <= best_score by {
            let j = 8 * r2 + c2;
            assert(j / 8 == r2 && j % 8 == c2);
            assert(ai_candidate(s, turn, j / 8, j % 8, m));
        }
    }
    match best_move {
        Some((fr, fc, tr, tc)) => {
            proof {
                assert forall|r2: int, c2: int, m: (u8, u8, bool)|
                    #[trigger] ai_candidate(s, turn, r2, c2, m) && 8 * r2 + c2 < 8 * fr + fc implies candidate_score(s, turn, r2, c2, m, mc) < best_score by {
                    let j = 8 * r2 + c2;
                    assert(j / 8 == r2 && j % 8 == c2);
                    assert(ai_candidate(s, turn, j / 8, j % 8, m));
                }
                assert(ai_choice(s, turn, mc, fr as int, fc as int, best_q));
            }
        },
        None => {},
    }
    best_move
}

proof fn lemma_jumps_on_board(s: Seq<char>, t: Turn, r: int, c: int, ds: Seq<(int, int)>, m: (u8, u8, bool))
    requires
        forall|k: int| 0 <= k < ds.len() ==> -1 <= (#[trigger] ds[k]).0 <= 1 && -1 <= ds[k].1 <= 1,
        jumps_along(s, t, r, c, ds).contains(m),
    ensures
        m.0 < 8 && m.1 < 8,
    decreases ds.len(),
{
    let rest = jumps_along(s, t, r, c, ds.drop_last());
    if rest.contains(m) {
        lemma_jumps_on_board(s, t, r, c, ds.drop_last(), m);
    } else {
        let (dr, dc) = ds.last();
        assert(jump_open(s, t, r, c, dr, dc));
        assert(jumps_along(s, t, r, c, ds) == rest.push(((r + 2 * dr) as u8, (c + 2 * dc) as u8, true)));
        assert(m == ((r + 2 * dr) as u8, (c + 2 * dc) as u8, true)) by {
            let q = choose|q: int| 0 <= q < rest.len() + 1 && jumps_along(s, t, r, c, ds)[q] == m;
            if q < rest.len() {
                assert(rest[q] == m);
            }
        }
    }
}

proof fn lemma_steps_on_board(s: Seq<char>, r: int, c: int, ds: Seq<(int, int)>, m: (u8, u8, bool))
    requires
        forall|k: int| 0 <= k < ds.len() ==> -1 <= (#[trigger] ds[k]).0 <= 1 && -1 <= ds[k].1 <= 1,
        steps_along(s, r, c, ds).contains(m),
    ensures
        m.0 < 8 && m.1 < 8,
    decreases ds.len(),
{
    let rest = steps_along(s, r, c, ds.drop_last());
    if rest.contains(m) {
        lemma_steps_on_board(s, r, c, ds.drop_last(), m);
    } else {
        let (dr, dc) = ds.last();
        assert(step_open(s, r, c, dr, dc));
        assert(m == ((r + dr) as u8, (c + dc) as u8, false)) by {
            let q = choose|q: int| 0 <= q < rest.len() + 1 && steps_along(s, r, c, ds)[q] == m;
            if q < rest.len() {
                assert(rest[q] == m);
            }
        }
    }
}

proof fn lemma_move_on_board(s: Seq<char>, t: Turn, r: int, c: int, p: Piece, m: (u8, u8, bool))
    requires
        piece_moves(s, t, r, c, p).contains(m),
    ensures
        m.0 < 8 && m.1 < 8,
{
    let ds = directions(t, p);
    let js = jumps_along(s, t, r, c, ds);
    if js.contains(m) {
        lemma_jumps_on_board(s, t, r, c, ds, m);
    } else {
        let ss = steps_along(s, r, c, ds);
        let q = choose|q: int| 0 <= q < piece_moves(s, t, r, c, p).len() && piece_moves(s, t, r, c, p)[q] == m;
        assert(!capture_available(s, t));
        assert(q >= js.len()) by {
            if q < js.len() {
                assert(js[q] == m);
            }
        }
        assert(ss[q - js.len()] == m);
        lemma_steps_on_board(s, r, c, ds, m);
    }
}

/// Every square holding a piece is a dark square.
pub open spec fn pieces_on_dark(s: Seq<char>) -> bool {
    forall|r: int, c: int|
        on_board(r, c) && #[trigger] board_at(s, r, c) != Piece::Empty ==> dark_square(r, c)
}

proof fn lemma_directions(t: Turn, p: Piece)
    ensures
        forall|k: int|
            0 <= k < directions(t, p).len() ==> {
                let (dr, dc) = #[trigger] directions(t, p)[k];
                &&& (dr == 1 || dr == -1)
                &&& (dc == 1 || dc == -1)
                &&& may_go(t, p, dr)
            },
{
}

proof fn lemma_jump_member(s: Seq<char>, t: Turn, r: int, c: int, ds: Seq<(int, int)>, m: (u8, u8, bool))
    requires
        jumps_along(s, t, r, c, ds).contains(m),
    ensures
        exists|k: int|
            0 <= k < ds.len() && jump_open(s, t, r, c, (#[trigger] ds[k]).0, ds[k].1) && m == (
                (r + 2 * ds[k].0) as u8,
                (c + 2 * ds[k].1) as u8,
                true,
            ),
    decreases ds.len(),
{
    let rest = jumps_along(s, t, r, c, ds.drop_last());
    if rest.contains(m) {
        lemma_jump_member(s, t, r, c, ds.drop_last(), m);
        let k = choose|k: int|
            0 <= k < ds.drop_last().len() && jump_open(s, t, r, c, (#[trigger] ds.drop_last()[k]).0, ds.drop_last()[k].1) && m == (
                (r + 2 * ds.drop_last()[k].0) as u8,
                (c + 2 * ds.drop_last()[k].1) as u8,
                true,
            );
        assert(ds[k] == ds.drop_last()[k]);
    } else {
        let (dr, dc) = ds.last();
        assert(jump_open(s, t, r, c, dr, dc));
        assert(m == ((r + 2 * dr) as u8, (c + 2 * dc) as u8, true)) by {
            let q = choose|q: int| 0 <= q < rest.len() + 1 && jumps_along(s, t, r, c, ds)[q] == m;
            if q < rest.len() {
                assert(rest[q] == m);
            }
        }
        assert(ds[ds.len() - 1] == ds.last());
    }
}

proof fn lemma_step_member(s: Seq<char>, r: int, c: int, ds: Seq<(int, int)>, m: (u8, u8, bool))
    requires
        steps_along(s, r, c, ds).contains(m),
    ensures
        exists|k: int|
            0 <= k < ds.len() && step_open(s, r, c, (#[trigger] ds[k]).0, ds[k].1) && m == (
                (r + ds[k].0) as u8,
                (c + ds[k].1) as u8,
                false,
            ),
    decreases ds.len(),
{
    let rest = steps_along(s, r, c, ds.drop_last());
    if rest.contains(m) {
        lemma_step_member(s, r, c, ds.drop_last(), m);
        let k = choose|k: int|
            0 <= k < ds.drop_last().len() && step_open(s, r, c, (#[trigger] ds.drop_last()[k]).0, ds.drop_last()[k].1) && m == (
                (r + ds.drop_last()[k].0) as u8,
                (c + ds.drop_last()[k].1) as u8,
                false,
            );
        assert(ds[k] == ds.drop_last()[k]);
    } else {
        let (dr, dc) = ds.last();
        assert(step_open(s, r, c, dr, dc));
        assert(m == ((r + dr) as u8, (c + dc) as u8, false)) by {
            let q = choose|q: int| 0 <= q < rest.len() + 1 && steps_along(s, r, c, ds)[q] == m;
            if q < rest.len() {
                assert(rest[q] == m);
            }
        }
        assert(ds[ds.len() - 1] == ds.last());
    }
}

/// A move the computer may choose, from a dark square, passes every rule.
pub proof fn lemma_candidate_legal(s: Seq<char>, t: Turn, fr: int, fc: int, m: (u8, u8, bool))
    requires
        ai_candidate(s, t, fr, fc, m),
        dark_square(fr, fc),
    ensures
        move_error(s, t, fr, fc, m.0 as int, m.1 as int) == None::<MoveError>,
{
    let p = board_at(s, fr, fc);
    let ds = directions(t, p);
    lemma_directions(t, p);
    let js = jumps_along(s, t, fr, fc, ds);
    if js.contains(m) {
        lemma_jump_member(s, t, fr, fc, ds, m);
        let k = choose|k: int|
            0 <= k < ds.len() && jump_open(s, t, fr, fc, (#[trigger] ds[k]).0, ds[k].1) && m == (
                (fr + 2 * ds[k].0) as u8,
                (fc + 2 * ds[k].1) as u8,
                true,
            );
        let (dr, dc) = ds[k];
        assert(m.0 as int == fr + 2 * dr && m.1 as int == fc + 2 * dc);
        assert((fr + 2 * dr + fc + 2 * dc) % 2 == 1);
        assert((fr + m.0 as int) / 2 == fr + dr);
        assert((fc + m.1 as int) / 2 == fc + dc);
    } else {
        let q = choose|q: int| 0 <= q < piece_moves(s, t, fr, fc, p).len() && piece_moves(s, t, fr, fc, p)[q] == m;
        assert(!capture_available(s, t)) by {
            if capture_available(s, t) {
                assert(js[q] == m);
            }
        }
        let ss = steps_along(s, fr, fc, ds);
        assert(q >= js.len()) by {
            if q < js.len() {
                assert(js[q] == m);
            }
        }
        assert(ss[q - js.len()] == m);
        lemma_step_member(s, fr, fc, ds, m);
        let k = choose|k: int|
            0 <= k < ds.len() && step_open(s, fr, fc, (#[trigger] ds[k]).0, ds[k].1) && m == (
                (fr + ds[k].0) as u8,
                (fc + ds[k].1) as u8,
                false,
            );
        let (dr, dc) = ds[k];
        assert(m.0 as int == fr + dr && m.1 as int == fc + dc);
        assert((fr + dr + fc + dc) % 2 == 1);
    }
}

} // verus!
