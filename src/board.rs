//! The textual board: rows of squares separated by `'/'`, one character per
//! square. Rows are counted from the top of the string, columns from the left.
use vstd::prelude::*;
use crate::types::Piece;

verus! {

/// The opening position.
pub const STARTING_BOARD: &'static str = " r r r r/r r r r / r r r r/        /        /b b b b / b b b b/b b b b ";

/// The rows of a board string: the runs of characters between `'/'` separators.
pub open spec fn rows_of(s: Seq<char>) -> Seq<Seq<char>>
    decreases s.len(),
{
    if s.len() == 0 {
        seq![Seq::<char>::empty()]
    } else {
        let prev = rows_of(s.drop_last());
        if s.last() == '/' {
            prev.push(Seq::<char>::empty())
        } else {
            prev.update(prev.len() - 1, prev.last().push(s.last()))
        }
    }
}

pub open spec fn piece_of_char(ch: char) -> Piece {
    if ch == 'r' {
        Piece::Red
    } else if ch == 'b' {
        Piece::Black
    } else if ch == 'R' {
        Piece::RedKing
    } else if ch == 'B' {
        Piece::BlackKing
    } else {
        Piece::Empty
    }
}

/// The character written for `p` on square (`row`, `col`); an empty square is
/// written `'.'` on dark squares and `' '` on light ones.
pub open spec fn char_of_piece(p: Piece, row: int, col: int) -> char {
    match p {
        Piece::Red => 'r',
        Piece::Black => 'b',
        Piece::RedKing => 'R',
        Piece::BlackKing => 'B',
        Piece::Empty => if (row + col) % 2 == 1 {
            '.'
        } else {
            ' '
        },
    }
}

pub open spec fn in_range(rows: Seq<Seq<char>>, r: int, c: int) -> bool {
    0 <= r < rows.len() && 0 <= c < rows[r].len()
}

/// The piece that the board string `s` holds at (`r`, `c`); `Empty` off the board.
pub open spec fn board_at(s: Seq<char>, r: int, c: int) -> Piece {
    let rows = rows_of(s);
    if in_range(rows, r, c) {
        piece_of_char(rows[r][c])
    } else {
        Piece::Empty
    }
}

/// `s` with the character at (`r`, `c`) replaced by `ch`; `s` itself when there
/// is no such square.
pub open spec fn put_char(s: Seq<char>, r: int, c: int, ch: char) -> Seq<char>
    decreases s.len(),
{
    if s.len() == 0 {
        s
    } else {
        let prev = put_char(s.drop_last(), r, c, ch);
        let rows = rows_of(s.drop_last());
        if s.last() != '/' && r == rows.len() - 1 && c == rows.last().len() {
            prev.push(ch)
        } else {
            prev.push(s.last())
        }
    }
}

pub open spec fn put_piece(s: Seq<char>, r: int, c: int, p: Piece) -> Seq<char> {
    put_char(s, r, c, char_of_piece(p, r, c))
}

pub open spec fn set_rows(rows: Seq<Seq<char>>, r: int, c: int, ch: char) -> Seq<Seq<char>> {
    if in_range(rows, r, c) {
        rows.update(r, rows[r].update(c, ch))
    } else {
        rows
    }
}

pub open spec fn red_count(s: Seq<char>) -> nat
    decreases s.len(),
{
    if s.len() == 0 {
        0
    } else {
        red_count(s.drop_last()) + if piece_of_char(s.last()).red() {
            1nat
        } else {
            0nat
        }
    }
}

pub open spec fn black_count(s: Seq<char>) -> nat
    decreases s.len(),
{
    if s.len() == 0 {
        0
    } else {
        black_count(s.drop_last()) + if piece_of_char(s.last()).black() {
            1nat
        } else {
            0nat
        }
    }
}

/// Eight rows of eight squares.
pub open spec fn well_formed(s: Seq<char>) -> bool {
    &&& rows_of(s).len() == 8
    &&& forall|r: int| 0 <= r < 8 ==> #[trigger] rows_of(s)[r].len() == 8
}

pub open spec fn dark_square(row: int, col: int) -> bool {
    0 <= row < 8 && 0 <= col < 8 && (row + col) % 2 == 1
}

pub proof fn lemma_rows_nonempty(s: Seq<char>)
    ensures
        rows_of(s).len() >= 1,
    decreases s.len(),
{
    if s.len() > 0 {
        lemma_rows_nonempty(s.drop_last());
    }
}

pub proof fn lemma_piece_char_round_trip(p: Piece, r: int, c: int)
    ensures
        piece_of_char(char_of_piece(p, r, c)) == p,
        char_of_piece(p, r, c) != '/',
{
}

/// Replacing one square keeps the rows, but for that square.
pub proof fn lemma_put_rows(s: Seq<char>, r: int, c: int, ch: char)
    requires
        ch != '/',
    ensures
        rows_of(put_char(s, r, c, ch)) == set_rows(rows_of(s), r, c, ch),
        put_char(s, r, c, ch).len() == s.len(),
    decreases s.len(),
{
    if s.len() > 0 {
        let p = s.drop_last();
        lemma_put_rows(p, r, c, ch);
        lemma_rows_nonempty(p);
        let out = put_char(s, r, c, ch);
        assert(out.drop_last() =~= put_char(p, r, c, ch));
        let rows = rows_of(p);
        let new_rows = rows_of(s);
        if s.last() == '/' {
            assert(set_rows(new_rows, r, c, ch) =~= set_rows(rows, r, c, ch).push(Seq::<char>::empty()));
        } else if r == rows.len() - 1 && c == rows.last().len() {
            assert(rows.last().push(s.last()).update(c, ch) =~= rows.last().push(ch));
            assert(set_rows(new_rows, r, c, ch) =~~= rows.update(r, rows.last().push(ch)));
            assert(rows_of(out) =~~= rows.update(r, rows.last().push(ch)));
        } else {
            let sr = set_rows(rows, r, c, ch);
            assert(rows_of(out) =~= sr.update(sr.len() - 1, sr.last().push(s.last())));
            if in_range(rows, r, c) {
                if r == rows.len() - 1 {
                    assert(rows[r].push(s.last()).update(c, ch) =~= rows[r].update(c, ch).push(s.last()));
                }
                assert(set_rows(new_rows, r, c, ch) =~~= sr.update(sr.len() - 1, sr.last().push(s.last())));
            } else {
                assert(set_rows(new_rows, r, c, ch) =~~= sr.update(sr.len() - 1, sr.last().push(s.last())));
            }
        }
    }
}

pub open spec fn red_bit(p: Piece) -> int {
    if p.red() {
        1
    } else {
        0
    }
}

pub open spec fn black_bit(p: Piece) -> int {
    if p.black() {
        1
    } else {
        0
    }
}

/// Replacing one square changes the piece counts by what left and what came.
pub proof fn lemma_put_counts(s: Seq<char>, r: int, c: int, ch: char)
    requires
        ch != '/',
    ensures
        red_count(put_char(s, r, c, ch)) == red_count(s) + (if in_range(rows_of(s), r, c) {
            red_bit(piece_of_char(ch)) - red_bit(board_at(s, r, c))
        } else {
            0
        }),
        black_count(put_char(s, r, c, ch)) == black_count(s) + (if in_range(rows_of(s), r, c) {
            black_bit(piece_of_char(ch)) - black_bit(board_at(s, r, c))
        } else {
            0
        }),
    decreases s.len(),
{
    if s.len() > 0 {
        let p = s.drop_last();
        lemma_put_counts(p, r, c, ch);
        lemma_rows_nonempty(p);
        let out = put_char(s, r, c, ch);
        assert(out.drop_last() =~= put_char(p, r, c, ch));
        let rows = rows_of(p);
        if s.last() == '/' {
        } else if r == rows.len() - 1 && c == rows.last().len() {
            assert(!in_range(rows, r, c));
            assert(rows_of(s)[r][c] == s.last());
        } else {
            if in_range(rows, r, c) {
                assert(rows_of(s)[r][c] == rows[r][c]);
            }
        }
    }
}

/// What the board holds after one square is replaced.
pub proof fn lemma_board_after_put(s: Seq<char>, r: int, c: int, p: Piece)
    ensures
        forall|r2: int, c2: int|
            #[trigger] board_at(put_piece(s, r, c, p), r2, c2) == if r2 == r && c2 == c
                && in_range(rows_of(s), r, c) {
                p
            } else {
                board_at(s, r2, c2)
            },
        forall|r2: int, c2: int|
            #[trigger] in_range(rows_of(put_piece(s, r, c, p)), r2, c2) == in_range(
                rows_of(s),
                r2,
                c2,
            ),
        well_formed(s) ==> well_formed(put_piece(s, r, c, p)),
{
    lemma_put_rows(s, r, c, char_of_piece(p, r, c));
    lemma_piece_char_round_trip(p, r, c);
}

fn piece_from_char(ch: char) -> (p: Piece)
    ensures
        p == piece_of_char(ch),
{
    if ch == 'r' {
        Piece::Red
    } else if ch == 'b' {
        Piece::Black
    } else if ch == 'R' {
        Piece::RedKing
    } else if ch == 'B' {
        Piece::BlackKing
    } else {
        Piece::Empty
    }
}

/// The piece at (`row`, `col`) of a board string; `Empty` for any square that
/// the string does not hold.
pub fn get_piece(board_state: &str, row: u8, col: u8) -> (p: Piece)
    ensures
        p == board_at(board_state@, row as int, col as int),
{
    let ghost s = board_state@;
    let n = board_state.unicode_len();
    let mut i: usize = 0;
    let mut cur_row: usize = 0;
    let mut cur_col: usize = 0;
    let mut found = Piece::Empty;
    assert(s.take(0) =~= Seq::<char>::empty());
    while i < n
        invariant
            n == s.len(),
            s == board_state@,
            i <= n,
            cur_row <= i,
            cur_col <= i,
            rows_of(s.take(i as int)).len() == cur_row + 1,
            rows_of(s.take(i as int)).last().len() == cur_col,
            found == board_at(s.take(i as int), row as int, col as int),
        decreases n - i,
    {
        let ch = board_state.get_char(i);
        let ghost before = s.take(i as int);
        let ghost after = s.take(i + 1);
        proof {
            assert(after.drop_last() =~= before);
            lemma_rows_nonempty(before);
        }
        if ch == '/' {
            cur_row = cur_row + 1;
            cur_col = 0;
        } else {
            if cur_row == row as usize && cur_col == col as usize {
                found = piece_from_char(ch);
            }
            cur_col = cur_col + 1;
        }
        i = i + 1;
        proof {
            let rb = rows_of(before);
            let ra = rows_of(after);
            if ch != '/' {
                assert(ra[cur_row as int] == rb[cur_row as int].push(ch));
            }
        }
    }
    assert(s.take(n as int) =~= s);
    found
}

fn empty_square_text(row: u8, col: u8) -> (t: &'static str)
    ensures
        t@ == seq![char_of_piece(Piece::Empty, row as int, col as int)],
{
    proof {
        reveal_strlit(".");
        reveal_strlit(" ");
    }
    if (row as u16 + col as u16) % 2 == 1 {
        "."
    } else {
        " "
    }
}

fn piece_text(piece: Piece, row: u8, col: u8) -> (t: &'static str)
    ensures
        t@ == seq![char_of_piece(piece, row as int, col as int)],
{
    proof {
        reveal_strlit("r");
        reveal_strlit("b");
        reveal_strlit("R");
        reveal_strlit("B");
    }
    match piece {
        Piece::Red => "r",
        Piece::Black => "b",
        Piece::RedKing => "R",
        Piece::BlackKing => "B",
        Piece::Empty => empty_square_text(row, col),
    }
}

/// The board string with (`row`, `col`) holding `piece`; unchanged when the
/// string has no such square.
pub fn set_piece(board_state: &str, row: u8, col: u8, piece: Piece) -> (r: String)
    ensures
        r@ == put_piece(board_state@, row as int, col as int, piece),
{
    let ghost s = board_state@;
    let ghost ch = char_of_piece(piece, row as int, col as int);
    let n = board_state.unicode_len();
    let mut out = String::new();
    let mut i: usize = 0;
    let mut cur_row: usize = 0;
    let mut cur_col: usize = 0;
    assert(s.take(0) =~= Seq::<char>::empty());
    while i < n
        invariant
            n == s.len(),
            s == board_state@,
            i <= n,
            cur_row <= i,
            cur_col <= i,
            rows_of(s.take(i as int)).len() == cur_row + 1,
            rows_of(s.take(i as int)).last().len() == cur_col,
            ch == char_of_piece(piece, row as int, col as int),
            out@ == put_char(s.take(i as int), row as int, col as int, ch),
        decreases n - i,
    {
        let c = board_state.get_char(i);
        let ghost before = s.take(i as int);
        let ghost after = s.take(i + 1);
        proof {
            assert(after.drop_last() =~= before);
            lemma_rows_nonempty(before);
        }
        let ghost out_before = out@;
        proof {
            assert(out_before == put_char(before, row as int, col as int, ch));
            assert(after.last() == c);
        }
        if c != '/' && cur_row == row as usize && cur_col == col as usize {
            out.append(piece_text(piece, row, col));
            assert(out@ =~= out_before.push(ch));
        } else {
            out.append(board_state.substring_char(i, i + 1));
            assert(board_state@.subrange(i as int, i + 1) =~= seq![c]);
            assert(out@ =~= out_before.push(c));
        }
        if c == '/' {
            cur_row = cur_row + 1;
            cur_col = 0;
        } else {
            cur_col = cur_col + 1;
        }
        i = i + 1;
        proof {
            assert(out@ =~= put_char(after, row as int, col as int, ch));
        }
    }
    assert(s.take(n as int) =~= s);
    out
}

/// True for the 32 dark squares, the only ones that pieces stand on.
pub fn is_valid_square(row: u8, col: u8) -> (r: bool)
    ensures
        r == dark_square(row as int, col as int),
{
    row < 8 && col < 8 && (row + col) % 2 == 1
}

/// The numbers of red and of black pieces (kings included) in a board string.
pub fn count_pieces(board_state: &str) -> (r: (u8, u8))
    requires
        red_count(board_state@) <= 255,
        black_count(board_state@) <= 255,
    ensures
        r.0 == red_count(board_state@),
        r.1 == black_count(board_state@),
{
    let ghost s = board_state@;
    let n = board_state.unicode_len();
    let mut red: usize = 0;
    let mut black: usize = 0;
    let mut i: usize = 0;
    assert(s.take(0) =~= Seq::<char>::empty());
    while i < n
        invariant
            n == s.len(),
            s == board_state@,
            i <= n,
            red <= i,
            black <= i,
            red == red_count(s.take(i as int)),
            black == black_count(s.take(i as int)),
        decreases n - i,
    {
        let ch = board_state.get_char(i);
        proof {
            assert(s.take(i + 1).drop_last() =~= s.take(i as int));
        }
        if ch == 'r' || ch == 'R' {
            red = red + 1;
        } else if ch == 'b' || ch == 'B' {
            black = black + 1;
        }
        i = i + 1;
    }
    assert(s.take(n as int) =~= s);
    (red as u8, black as u8)
}

/// The characters of row `r` of the row-major board `b`.
pub open spec fn row_text(b: Seq<Piece>, r: int) -> Seq<char> {
    Seq::new(8, |c: int| char_of_piece(b[8 * r + c], r, c))
}

/// The first `n` rows of `b`, separated by `'/'`.
pub open spec fn encoded_rows(b: Seq<Piece>, n: nat) -> Seq<char>
    decreases n,
{
    if n <= 1 {
        row_text(b, 0)
    } else {
        encoded_rows(b, (n - 1) as nat) + seq!['/'] + row_text(b, n - 1)
    }
}

/// The text of a row-major board of 64 squares.
pub open spec fn encoded(b: Seq<Piece>) -> Seq<char> {
    encoded_rows(b, 8)
}

/// The 64 squares, row-major, that a board string holds.
pub open spec fn decoded(s: Seq<char>) -> Seq<Piece> {
    Seq::new(64, |i: int| board_at(s, i / 8, i % 8))
}

pub proof fn lemma_rows_append_plain(p: Seq<char>, q: Seq<char>)
    requires
        forall|i: int| 0 <= i < q.len() ==> q[i] != '/',
    ensures
        rows_of(p + q) == rows_of(p).update(rows_of(p).len() - 1, rows_of(p).last() + q),
    decreases q.len(),
{
    lemma_rows_nonempty(p);
    if q.len() == 0 {
        assert(p + q =~= p);
        assert(rows_of(p).last() + q =~= rows_of(p).last());
        assert(rows_of(p).update(rows_of(p).len() - 1, rows_of(p).last()) =~= rows_of(p));
    } else {
        let q0 = q.drop_last();
        lemma_rows_append_plain(p, q0);
        assert((p + q).drop_last() =~= p + q0);
        assert((rows_of(p).last() + q0).push(q.last()) =~= rows_of(p).last() + q);
        assert(rows_of(p + q) =~~= rows_of(p).update(rows_of(p).len() - 1, rows_of(p).last() + q));
    }
}

pub proof fn lemma_rows_after_slash(p: Seq<char>, q: Seq<char>)
    requires
        forall|i: int| 0 <= i < q.len() ==> q[i] != '/',
    ensures
        rows_of(p + seq!['/'] + q) == rows_of(p).push(q),
{
    let ps = p + seq!['/'];
    assert(ps.drop_last() =~= p);
    assert(rows_of(ps) == rows_of(p).push(Seq::<char>::empty()));
    lemma_rows_append_plain(ps, q);
    assert(Seq::<char>::empty() + q =~= q);
    assert(rows_of(ps + q) =~~= rows_of(p).push(q));
}

proof fn lemma_row_text_plain(b: Seq<Piece>, r: int)
    ensures
        forall|i: int| 0 <= i < row_text(b, r).len() ==> row_text(b, r)[i] != '/',
{
    assert forall|i: int| 0 <= i < row_text(b, r).len() implies row_text(b, r)[i] != '/' by {
        lemma_piece_char_round_trip(b[8 * r + i], r, i);
    }
}

proof fn lemma_encoded_rows(b: Seq<Piece>, n: nat)
    requires
        1 <= n <= 8,
    ensures
        rows_of(encoded_rows(b, n)) == Seq::new(n, |r: int| row_text(b, r)),
    decreases n,
{
    if n == 1 {
        lemma_row_text_plain(b, 0);
        lemma_rows_append_plain(Seq::<char>::empty(), row_text(b, 0));
        assert(Seq::<char>::empty() + row_text(b, 0) =~= row_text(b, 0));
        assert(Seq::<char>::empty() + row_text(b, 0) =~= row_text(b, 0));
        assert(rows_of(row_text(b, 0)) =~~= Seq::new(1, |r: int| row_text(b, r)));
    } else {
        lemma_encoded_rows(b, (n - 1) as nat);
        lemma_row_text_plain(b, n - 1);
        lemma_rows_after_slash(encoded_rows(b, (n - 1) as nat), row_text(b, n - 1));
        assert(rows_of(encoded_rows(b, n)) =~~= Seq::new(n, |r: int| row_text(b, r)));
    }
}

/// Decoding the text of a board gives back the same 64 squares.
pub proof fn law_decode_encode(b: Seq<Piece>)
    requires
        b.len() == 64,
    ensures
        decoded(encoded(b)) == b,
        well_formed(encoded(b)),
{
    lemma_encoded_rows(b, 8);
    assert forall|i: int| 0 <= i < 64 implies decoded(encoded(b))[i] == b[i] by {
        let r = i / 8;
        let c = i % 8;
        assert(8 * r + c == i);
        lemma_piece_char_round_trip(b[i], r, c);
    }
    assert(decoded(encoded(b)) =~= b);
}

/// The text of a row-major board of 64 squares: eight rows of eight
/// characters separated by `'/'`.
pub fn encode_board(cells: &Vec<Piece>) -> (r: String)
    requires
        cells@.len() == 64,
    ensures
        r@ == encoded(cells@),
{
    let ghost b = cells@;
    let mut out = String::new();
    let mut row: usize = 0;
    while row < 8
        invariant
            b == cells@,
            b.len() == 64,
            row <= 8,
            row == 0 ==> out@.len() == 0,
            row > 0 ==> out@ == encoded_rows(b, row as nat),
        decreases 8 - row,
    {
        if row > 0 {
            proof {
                reveal_strlit("/");
            }
            out.append("/");
        }
        let ghost base = out@;
        let mut col: usize = 0;
        while col < 8
            invariant
                b == cells@,
                b.len() == 64,
                row < 8,
                col <= 8,
                out@ == base + row_text(b, row as int).take(col as int),
            decreases 8 - col,
        {
            let txt = piece_text(cells[row * 8 + col], row as u8, col as u8);
            out.append(txt);
            assert(out@ =~= base + row_text(b, row as int).take(col + 1));
            col = col + 1;
        }
        assert(row_text(b, row as int).take(8) =~= row_text(b, row as int));
        row = row + 1;
        if row == 1 {
            assert(out@ =~= encoded_rows(b, 1));
        } else {
            assert(out@ =~= encoded_rows(b, row as nat));
        }
    }
    out
}

/// The 64 squares, row-major, that a board string holds.
pub fn decode_board(board_state: &str) -> (r: Vec<Piece>)
    ensures
        r@ == decoded(board_state@),
{
    let mut cells: Vec<Piece> = Vec::new();
    let mut i: usize = 0;
    while i < 64
        invariant
            i <= 64,
            cells@ == decoded(board_state@).take(i as int),
        decreases 64 - i,
    {
        let p = get_piece(board_state, (i / 8) as u8, (i % 8) as u8);
        cells.push(p);
        assert(cells@ =~= decoded(board_state@).take(i + 1));
        i = i + 1;
    }
    assert(decoded(board_state@).take(64) =~= decoded(board_state@));
    cells
}

} // verus!
