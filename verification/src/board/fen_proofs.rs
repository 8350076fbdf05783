//! Reading back what `to_fen` writes: the FEN text of a position parses to
//! the position's own fields.

use vstd::prelude::*;

use crate::board::{FenError, Position};
use crate::types::{Color, Piece, Square, spec_file_char, spec_rank_char};
use crate::board::fen::{
    castling_bit, fen_parse, fen_text, fen_tokens, tokens_from, ep_field, ep_text, castling_field, castling_from, castling_text, decimal_text, digit_char, digit_value, digits_upto, digits_value, is_digit, is_space,
    parse_u32_spec, placement_board, placement_valid, row_cells, row_ok, split_at_char, piece_letter, piece_of_char, pieces_from, rank_text_from, ranks_text,
    row_cells_from,
};

verus! {

/// A decimal digit character.
proof fn lemma_digit_char(d: int)
    requires
        0 <= d <= 9,
    ensures
        is_digit(digit_char(d)),
        digit_value(digit_char(d)) == d,
        !is_space(digit_char(d)),
        digit_char(d) != '/',
        digit_char(d) != '+',
{
}

/// The value of the first `i` digits depends on those digits alone.
proof fn lemma_digits_prefix(t: Seq<char>, u: Seq<char>, i: int)
    requires
        0 <= i <= t.len(),
        i <= u.len(),
        forall|k: int| 0 <= k < i ==> t[k] == u[k],
    ensures
        digits_value(t, i) == digits_value(u, i),
    decreases i,
{
    if i > 0 {
        lemma_digits_prefix(t, u, i - 1);
    }
}

/// The decimal text of `n` is a non-empty run of digits worth `n`.
proof fn lemma_decimal_text(n: nat)
    ensures
        decimal_text(n).len() > 0,
        forall|k: int| 0 <= k < decimal_text(n).len() ==> is_digit(#[trigger] decimal_text(n)[k]),
        forall|k: int| 0 <= k < decimal_text(n).len() ==> !is_space(#[trigger] decimal_text(n)[k]),
        digits_value(decimal_text(n), decimal_text(n).len() as int) == n,
    decreases n,
{
    if n < 10 {
        lemma_digit_char(n as int);
        let t = seq![digit_char(n as int)];
        assert(decimal_text(n) == t);
        assert(digits_value(t, 0) == 0);
        assert(digits_value(t, 1) == n);
    } else {
        let t = decimal_text(n / 10);
        let d = (n % 10) as int;
        lemma_decimal_text(n / 10);
        lemma_digit_char(d);
        let u = t.push(digit_char(d));
        assert(decimal_text(n) == u);
        lemma_digits_prefix(t, u, t.len() as int);
        assert(digits_value(u, u.len() as int) == digits_value(u, t.len() as int) * 10 + d);
        assert(n == (n / 10) * 10 + d);
        assert forall|k: int| 0 <= k < u.len() implies is_digit(#[trigger] u[k]) && !is_space(u[k]) by {
            if k < t.len() {
                assert(u[k] == t[k]);
            }
        }
    }
}

/// A clock written in decimal reads back as itself.
pub proof fn lemma_clock_roundtrip(n: u32)
    ensures
        parse_u32_spec(decimal_text(n as nat)) == Some(n),
{
    let t = decimal_text(n as nat);
    lemma_decimal_text(n as nat);
    assert(is_digit(t[0]));
    assert(!(t.len() > 1 && t[0] == '+'));
    assert(digits_upto(t, u32::MAX as int) == Some(n as int));
}

/// The four castling bits of a right set below 16.
proof fn lemma_castle_bits(c: u8)
    by (bit_vector)
    requires
        c < 16,
    ensures
        c & 1 == 0 || c & 1 == 1,
        c & 2 == 0 || c & 2 == 2,
        c & 4 == 0 || c & 4 == 4,
        c & 8 == 0 || c & 8 == 8,
        (((0u8 | (c & 1)) | (c & 2)) | (c & 4)) | (c & 8) == c,
        c == 0 ==> (c & 1 == 0 && c & 2 == 0 && c & 4 == 0 && c & 8 == 0),
{
}

proof fn lemma_or_zero(x: u8)
    by (bit_vector)
    ensures
        x | 0 == x,
{
}

/// Reading past a first letter.
proof fn lemma_castling_shift(l: char, y: Seq<char>, j: int, a: u8)
    requires
        0 <= j <= y.len(),
    ensures
        castling_from(seq![l] + y, j + 1, a) == castling_from(y, j, a),
    decreases y.len() - j,
{
    let s = seq![l] + y;
    if j < y.len() {
        assert(s[j + 1] == y[j]);
        match castling_bit(y[j]) {
            Some(b) => lemma_castling_shift(l, y, j + 1, a | b),
            None => {},
        }
    }
}

/// The rights text, letter group by letter group: `m` is the bit of letter
/// `l`, present when `c` holds it.
proof fn lemma_castling_group(c: u8, m: u8, l: char, y: Seq<char>, acc: u8)
    requires
        castling_bit(l) == Some(m),
        c & m == 0 || c & m == m,
    ensures
        castling_from((if c & m != 0 { seq![l] } else { seq![] }) + y, 0, acc) == castling_from(
            y,
            0,
            acc | (c & m),
        ),
{
    if c & m != 0 {
        lemma_castling_shift(l, y, 0, acc | m);
    } else {
        lemma_or_zero(acc);
        assert((seq![] + y) =~= y);
    }
}

/// Castling rights written as letters read back as themselves.
pub proof fn lemma_castling_roundtrip(c: u8)
    requires
        c < 16,
    ensures
        castling_field(castling_text(c)) == Some(c),
        castling_text(c).len() > 0,
        forall|k: int| 0 <= k < castling_text(c).len() ==> !is_space(#[trigger] castling_text(c)[k]),
{
    lemma_castle_bits(c);
    if c != 0 {
        let g0 = if c & 1 != 0 { seq!['K'] } else { seq![] };
        let g1 = if c & 2 != 0 { seq!['Q'] } else { seq![] };
        let g2 = if c & 4 != 0 { seq!['k'] } else { seq![] };
        let g3 = if c & 8 != 0 { seq!['q'] } else { seq![] };
        let t = castling_text(c);
        assert(t == g0 + (g1 + (g2 + (g3 + seq![])))) by {
            assert(t =~= g0 + (g1 + (g2 + (g3 + seq![]))));
        }
        lemma_castling_group(c, 1, 'K', g1 + (g2 + (g3 + seq![])), 0);
        lemma_castling_group(c, 2, 'Q', g2 + (g3 + seq![]), 0u8 | (c & 1));
        lemma_castling_group(c, 4, 'k', g3 + seq![], (0u8 | (c & 1)) | (c & 2));
        lemma_castling_group(c, 8, 'q', seq![], ((0u8 | (c & 1)) | (c & 2)) | (c & 4));
        assert(t.len() > 0);
        assert(t[0] != '-');
        assert forall|k: int| 0 <= k < t.len() implies !is_space(#[trigger] t[k]) by {
            assert(t[k] == 'K' || t[k] == 'Q' || t[k] == 'k' || t[k] == 'q');
        }
    } else {
        assert(castling_text(c) == seq!['-']);
    }
}

/// The en-passant field reads back as the square it names (or none).
pub proof fn lemma_ep_roundtrip(ep: Option<Square>)
    requires
        ep matches Some(e) ==> e.0 < 64,
    ensures
        ep_field(ep_text(ep)) == Some(ep),
        ep_text(ep).len() > 0,
        forall|k: int| 0 <= k < ep_text(ep).len() ==> !is_space(#[trigger] ep_text(ep)[k]),
{
    if let Some(e) = ep {
        let s = e.0 as int;
        let f = s % 8;
        let r = s / 8;
        assert(spec_file_char(f) as int == 'a' as int + f);
        assert(spec_rank_char(r) as int == '1' as int + r);
        let t = ep_text(ep);
        assert(t == seq![spec_file_char(f), spec_rank_char(r)]);
        assert(((t[1] as int - '1' as int) * 8 + (t[0] as int - 'a' as int)) == s);
    } else {
        assert(ep_text(ep) == seq!['-']);
    }
}

/// A piece letter reads back as its piece.
proof fn lemma_letter(c: Color, p: Piece)
    ensures
        piece_of_char(piece_letter(c, p)) == Some((c, p)),
        !is_digit(piece_letter(c, p)),
        !is_space(piece_letter(c, p)),
        piece_letter(c, p) != '/',
{
}

/// Reading a row text past a prefix `x`.
proof fn lemma_row_shift(x: Seq<char>, y: Seq<char>, j: int, acc: Seq<Option<(Color, Piece)>>)
    requires
        0 <= j <= y.len(),
    ensures
        row_cells_from(x + y, x.len() + j, acc) == row_cells_from(y, j, acc),
    decreases y.len() - j,
{
    if j < y.len() {
        assert((x + y)[x.len() + j] == y[j]);
        if is_digit(y[j]) {
            lemma_row_shift(x, y, j + 1, acc + Seq::new(digit_value(y[j]) as nat, |k: int| None));
        } else if piece_of_char(y[j]) is Some {
            lemma_row_shift(x, y, j + 1, acc.push(piece_of_char(y[j])));
        }
    }
}

/// Reading `x + y` reads `x`, then `y` onto what `x` gave.
proof fn lemma_row_concat(x: Seq<char>, y: Seq<char>, i: int, acc: Seq<Option<(Color, Piece)>>)
    requires
        0 <= i <= x.len(),
        row_cells_from(x, i, acc) is Some,
    ensures
        row_cells_from(x + y, i, acc) == row_cells_from(y, 0, row_cells_from(x, i, acc)->Some_0),
    decreases x.len() - i,
{
    if i == x.len() {
        lemma_row_shift(x, y, 0, acc);
    } else {
        assert((x + y)[i] == x[i]);
        if is_digit(x[i]) {
            lemma_row_concat(x, y, i + 1, acc + Seq::new(digit_value(x[i]) as nat, |k: int| None));
        } else {
            lemma_row_concat(x, y, i + 1, acc.push(piece_of_char(x[i])));
        }
    }
}

/// `n` empty squares.
pub open spec fn nones(n: int) -> Seq<Option<(Color, Piece)>> {
    Seq::new(n as nat, |k: int| None)
}

/// The text of a rank from file `f` on, with `e` empty squares pending,
/// reads back as those empty squares followed by the rank's squares from
/// `f` on; it holds no space and no '/'.
proof fn lemma_rank_text(board: Seq<Option<(Color, Piece)>>, r: int, f: int, e: int, acc: Seq<Option<(Color, Piece)>>)
    requires
        board.len() == 64,
        0 <= r < 8,
        0 <= e <= f <= 8,
    ensures
        row_cells_from(rank_text_from(board, r, f, e), 0, acc) == Some(
            acc + nones(e) + board.subrange(r * 8 + f, r * 8 + 8),
        ),
        forall|k: int| 0 <= k < rank_text_from(board, r, f, e).len() ==> {
            &&& !is_space(#[trigger] rank_text_from(board, r, f, e)[k])
            &&& rank_text_from(board, r, f, e)[k] != '/'
        },
        (e > 0 || f < 8) ==> rank_text_from(board, r, f, e).len() > 0,
    decreases 8 - f,
{
    let t = rank_text_from(board, r, f, e);
    if f >= 8 {
        if e > 0 {
            lemma_digit_char(e);
            assert(t == seq![digit_char(e)]);
            let a2 = acc + Seq::new(digit_value(t[0]) as nat, |k: int| None);
            assert(row_cells_from(t, 1, a2) == Some(a2));
            assert(a2 =~= acc + nones(e) + board.subrange(r * 8 + f, r * 8 + 8));
        } else {
            assert(acc + nones(e) + board.subrange(r * 8 + f, r * 8 + 8) =~= acc);
        }
    } else {
        match board[r * 8 + f] {
            Some((c, p)) => {
                let pre = if e > 0 { seq![digit_char(e)] } else { seq![] };
                let rest = rank_text_from(board, r, f + 1, 0);
                let a1 = acc + nones(e);
                let a2 = a1.push(Some((c, p)));
                lemma_letter(c, p);
                if e > 0 {
                    lemma_digit_char(e);
                    let a0 = acc + Seq::new(digit_value(pre[0]) as nat, |k: int| None);
                    assert(row_cells_from(pre, 1, a0) == Some(a0));
                    assert(a0 =~= a1);
                } else {
                    assert(row_cells_from(pre, 0, acc) == Some(acc));
                    assert(a1 =~= acc);
                }
                let mid = seq![piece_letter(c, p)];
                assert(row_cells_from(mid, 1, a2) == Some(a2));
                assert(row_cells_from(mid, 0, a1) == Some(a2));
                lemma_row_concat(pre, mid + rest, 0, acc);
                lemma_row_concat(mid, rest, 0, a1);
                lemma_rank_text(board, r, f + 1, 0, a2);
                assert(t == pre + (mid + rest)) by {
                    assert(t =~= pre + (mid + rest));
                }
                assert(a2 + nones(0) + board.subrange(r * 8 + f + 1, r * 8 + 8) =~= acc + nones(e)
                    + board.subrange(r * 8 + f, r * 8 + 8));
                assert forall|k: int| 0 <= k < t.len() implies {
                    &&& !is_space(#[trigger] t[k])
                    &&& t[k] != '/'
                } by {
                    if k < pre.len() {
                        assert(t[k] == pre[k]);
                    } else if k == pre.len() {
                        assert(t[k] == piece_letter(c, p));
                    } else {
                        assert(t[k] == rest[k - pre.len() - 1]);
                    }
                }
            },
            None => {
                lemma_rank_text(board, r, f + 1, e + 1, acc);
                assert(acc + nones(e + 1) + board.subrange(r * 8 + f + 1, r * 8 + 8) =~= acc + nones(e)
                    + board.subrange(r * 8 + f, r * 8 + 8));
            },
        }
    }
}

/// Splitting past a prefix `x`.
proof fn lemma_pieces_shift(x: Seq<char>, y: Seq<char>, sep: char, j: int, cur: Seq<char>, acc: Seq<Seq<char>>)
    requires
        0 <= j <= y.len(),
    ensures
        pieces_from(x + y, sep, x.len() + j, cur, acc) == pieces_from(y, sep, j, cur, acc),
    decreases y.len() - j,
{
    if j < y.len() {
        assert((x + y)[x.len() + j] == y[j]);
        if y[j] == sep {
            lemma_pieces_shift(x, y, sep, j + 1, seq![], acc.push(cur));
        } else {
            lemma_pieces_shift(x, y, sep, j + 1, cur.push(y[j]), acc);
        }
    }
}

/// A run without separators joins the current piece.
proof fn lemma_pieces_run(s: Seq<char>, sep: char, i: int, j: int, cur: Seq<char>, acc: Seq<Seq<char>>)
    requires
        0 <= i <= j <= s.len(),
        forall|k: int| i <= k < j ==> s[k] != sep,
    ensures
        pieces_from(s, sep, i, cur, acc) == pieces_from(s, sep, j, cur + s.subrange(i, j), acc),
    decreases j - i,
{
    if i < j {
        lemma_pieces_run(s, sep, i + 1, j, cur.push(s[i]), acc);
        assert(cur.push(s[i]) + s.subrange(i + 1, j) =~= cur + s.subrange(i, j));
    } else {
        assert(cur + s.subrange(i, j) =~= cur);
    }
}

/// Splitting `x`, a separator, then `y`: `x` is the next piece.
proof fn lemma_split_concat(x: Seq<char>, y: Seq<char>, sep: char, acc: Seq<Seq<char>>)
    requires
        forall|k: int| 0 <= k < x.len() ==> x[k] != sep,
    ensures
        pieces_from(x + seq![sep] + y, sep, 0, seq![], acc) == pieces_from(y, sep, 0, seq![], acc.push(x)),
{
    let s = x + seq![sep] + y;
    let z = x + seq![sep];
    assert(s =~= z + y);
    assert forall|k: int| 0 <= k < x.len() implies s[k] != sep by {
        assert(s[k] == x[k]);
    }
    lemma_pieces_run(s, sep, 0, x.len() as int, seq![], acc);
    assert(seq![] + s.subrange(0, x.len() as int) =~= x);
    assert(s[x.len() as int] == sep);
    lemma_pieces_shift(z, y, sep, 0, seq![], acc.push(x));
}

/// Splitting a last piece without separators.
proof fn lemma_split_last(x: Seq<char>, sep: char, acc: Seq<Seq<char>>)
    requires
        forall|k: int| 0 <= k < x.len() ==> x[k] != sep,
    ensures
        pieces_from(x, sep, 0, seq![], acc) == acc.push(x),
{
    lemma_pieces_run(x, sep, 0, x.len() as int, seq![], acc);
    assert(seq![] + x.subrange(0, x.len() as int) =~= x);
}

/// The rank text of rank `r`.
pub open spec fn rank_text(board: Seq<Option<(Color, Piece)>>, r: int) -> Seq<char> {
    rank_text_from(board, r, 0, 0)
}

/// The ranks text from rank `r` down splits into the rank texts, rank `r`
/// first; it holds no space.
proof fn lemma_ranks_split(board: Seq<Option<(Color, Piece)>>, r: int, acc: Seq<Seq<char>>)
    requires
        board.len() == 64,
        0 <= r < 8,
    ensures
        pieces_from(ranks_text(board, r), '/', 0, seq![], acc) == acc + Seq::new(
            (r + 1) as nat,
            |k: int| rank_text(board, r - k),
        ),
        forall|k: int| 0 <= k < ranks_text(board, r).len() ==> !is_space(#[trigger] ranks_text(board, r)[k]),
        ranks_text(board, r).len() > 0,
    decreases r,
{
    let x = rank_text(board, r);
    lemma_rank_text(board, r, 0, 0, seq![]);
    if r == 0 {
        assert(ranks_text(board, -1) == Seq::<char>::empty());
        assert(ranks_text(board, 0) =~= x);
        lemma_split_last(x, '/', acc);
        assert(acc.push(x) =~= acc + Seq::new(1, |k: int| rank_text(board, 0 - k)));
    } else {
        let y = ranks_text(board, r - 1);
        assert(ranks_text(board, r) == x + seq!['/'] + y);
        lemma_split_concat(x, y, '/', acc);
        lemma_ranks_split(board, r - 1, acc.push(x));
        assert(acc.push(x) + Seq::new(r as nat, |k: int| rank_text(board, r - 1 - k)) =~= acc + Seq::new(
            (r + 1) as nat,
            |k: int| rank_text(board, r - k),
        ));
        let t = ranks_text(board, r);
        assert forall|k: int| 0 <= k < t.len() implies !is_space(#[trigger] t[k]) by {
            if k < x.len() {
                assert(t[k] == x[k]);
            } else if k == x.len() {
                assert(t[k] == '/');
            } else {
                assert(t[k] == y[k - x.len() - 1]);
            }
        }
    }
}

/// The placement field written for a board reads back as that board.
pub proof fn lemma_placement_roundtrip(board: Seq<Option<(Color, Piece)>>)
    requires
        board.len() == 64,
    ensures
        placement_valid(ranks_text(board, 7)),
        placement_board(ranks_text(board, 7)) == board,
        ranks_text(board, 7).len() > 0,
        forall|k: int| 0 <= k < ranks_text(board, 7).len() ==> !is_space(#[trigger] ranks_text(board, 7)[k]),
{
    let field = ranks_text(board, 7);
    lemma_ranks_split(board, 7, seq![]);
    let ranks = split_at_char(field, '/');
    assert(ranks =~= Seq::new(8, |k: int| rank_text(board, 7 - k)));
    assert forall|r: int| 0 <= r < 8 implies row_ok(#[trigger] ranks[r]) && row_cells(ranks[r]) == Some(
        board.subrange((7 - r) * 8, (7 - r) * 8 + 8),
    ) by {
        lemma_rank_text(board, 7 - r, 0, 0, seq![]);
        assert(seq![] + nones(0) + board.subrange((7 - r) * 8, (7 - r) * 8 + 8) =~= board.subrange(
            (7 - r) * 8,
            (7 - r) * 8 + 8,
        ));
    }
    assert forall|sq: int| 0 <= sq < 64 implies #[trigger] placement_board(field)[sq] == board[sq] by {
        let r = 7 - sq / 8;
        assert(row_cells(ranks[r]) == Some(board.subrange(sq / 8 * 8, sq / 8 * 8 + 8)));
    }
    assert(placement_board(field) =~= board);
}

/// Tokenizing past a prefix `x`.
proof fn lemma_tokens_shift(x: Seq<char>, y: Seq<char>, j: int, cur: Seq<char>, acc: Seq<Seq<char>>)
    requires
        0 <= j <= y.len(),
    ensures
        tokens_from(x + y, x.len() + j, cur, acc) == tokens_from(y, j, cur, acc),
    decreases y.len() - j,
{
    if j < y.len() {
        assert((x + y)[x.len() + j] == y[j]);
        if is_space(y[j]) {
            lemma_tokens_shift(x, y, j + 1, seq![], if cur.len() > 0 { acc.push(cur) } else { acc });
        } else {
            lemma_tokens_shift(x, y, j + 1, cur.push(y[j]), acc);
        }
    }
}

/// A run without spaces joins the current token.
proof fn lemma_tokens_run(s: Seq<char>, i: int, j: int, cur: Seq<char>, acc: Seq<Seq<char>>)
    requires
        0 <= i <= j <= s.len(),
        forall|k: int| i <= k < j ==> !is_space(s[k]),
    ensures
        tokens_from(s, i, cur, acc) == tokens_from(s, j, cur + s.subrange(i, j), acc),
    decreases j - i,
{
    if i < j {
        lemma_tokens_run(s, i + 1, j, cur.push(s[i]), acc);
        assert(cur.push(s[i]) + s.subrange(i + 1, j) =~= cur + s.subrange(i, j));
    } else {
        assert(cur + s.subrange(i, j) =~= cur);
    }
}

/// A word without spaces, a space, then `y`: the word is the next token.
proof fn lemma_tokens_concat(x: Seq<char>, y: Seq<char>, acc: Seq<Seq<char>>)
    requires
        x.len() > 0,
        forall|k: int| 0 <= k < x.len() ==> !is_space(#[trigger] x[k]),
    ensures
        tokens_from(x + seq![' '] + y, 0, seq![], acc) == tokens_from(y, 0, seq![], acc.push(x)),
{
    let s = x + seq![' '] + y;
    let z = x + seq![' '];
    assert(s =~= z + y);
    assert forall|k: int| 0 <= k < x.len() implies !is_space(s[k]) by {
        assert(s[k] == x[k]);
    }
    lemma_tokens_run(s, 0, x.len() as int, seq![], acc);
    assert(seq![] + s.subrange(0, x.len() as int) =~= x);
    assert(s[x.len() as int] == ' ');
    assert(is_space(' '));
    lemma_tokens_shift(z, y, 0, seq![], acc.push(x));
}

/// A last word without spaces.
proof fn lemma_tokens_last(x: Seq<char>, acc: Seq<Seq<char>>)
    requires
        x.len() > 0,
        forall|k: int| 0 <= k < x.len() ==> !is_space(#[trigger] x[k]),
    ensures
        tokens_from(x, 0, seq![], acc) == acc.push(x),
{
    lemma_tokens_run(x, 0, x.len() as int, seq![], acc);
    assert(seq![] + x.subrange(0, x.len() as int) =~= x);
}

/// Reading back the FEN text of a position gives the position's fields:
/// its board, side to move, castling rights, en-passant square and clocks.
pub proof fn lemma_fen_roundtrip(pos: Position)
    requires
        pos.wf(),
    ensures
        fen_parse(fen_text(pos)) == Ok::<_, FenError>(
            (
                pos.board(),
                pos.spec_side(),
                pos.spec_castling(),
                pos.spec_ep(),
                pos.spec_halfmove(),
                pos.spec_fullmove(),
            ),
        ),
{
    let a = ranks_text(pos.board(), 7);
    let b = seq![if pos.spec_side() == Color::White { 'w' } else { 'b' }];
    let c = castling_text(pos.spec_castling());
    let d = ep_text(pos.spec_ep());
    let e = decimal_text(pos.spec_halfmove() as nat);
    let f = decimal_text(pos.spec_fullmove() as nat);
    lemma_placement_roundtrip(pos.board());
    lemma_castling_roundtrip(pos.spec_castling());
    lemma_ep_roundtrip(pos.spec_ep());
    lemma_decimal_text(pos.spec_halfmove() as nat);
    lemma_decimal_text(pos.spec_fullmove() as nat);
    lemma_clock_roundtrip(pos.spec_halfmove());
    lemma_clock_roundtrip(pos.spec_fullmove());
    let sp = seq![' '];
    let t5 = f;
    let t4 = e + sp + t5;
    let t3 = d + sp + t4;
    let t2 = c + sp + t3;
    let t1 = b + sp + t2;
    let t0 = a + sp + t1;
    assert(fen_text(pos) =~= t0);
    assert(!is_space(b[0]));
    assert(Seq::<Seq<char>>::empty().push(a) =~= seq![a]);
    assert(seq![a].push(b) =~= seq![a, b]);
    assert(seq![a, b].push(c) =~= seq![a, b, c]);
    assert(seq![a, b, c].push(d) =~= seq![a, b, c, d]);
    assert(seq![a, b, c, d].push(e) =~= seq![a, b, c, d, e]);
    assert(seq![a, b, c, d, e].push(f) =~= seq![a, b, c, d, e, f]);
    lemma_tokens_concat(a, t1, seq![]);
    lemma_tokens_concat(b, t2, seq![a]);
    lemma_tokens_concat(c, t3, seq![a, b]);
    lemma_tokens_concat(d, t4, seq![a, b, c]);
    lemma_tokens_concat(e, t5, seq![a, b, c, d]);
    lemma_tokens_last(f, seq![a, b, c, d, e]);
    let parts = fen_tokens(fen_text(pos));
    assert(parts =~= seq![a, b, c, d, e, f]);
}

/// Reading back the FEN text of a position gives the position itself: a
/// well-formed position with the fields the text reads as (what `from_fen`
/// returns for it) is equal to the position written.
pub proof fn lemma_position_roundtrip(pos: Position, q: Position)
    requires
        pos.wf(),
        q.wf(),
        fen_parse(fen_text(pos)) == Ok::<_, FenError>(
            (q.board(), q.spec_side(), q.spec_castling(), q.spec_ep(), q.spec_halfmove(), q.spec_fullmove()),
        ),
    ensures
        q == pos,
{
    lemma_fen_roundtrip(pos);
    q.lemma_fields_determine(pos);
}

} // verus!
