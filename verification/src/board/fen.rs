//! Forsyth–Edwards Notation: reading and writing positions.

use vstd::prelude::*;

use crate::board::{FenError, Position};
use crate::types::{CastlingRights, Color, Piece, Square, square_name, file_char, rank_char, chars_to_string, str_chars};

verus! {

// ---------------------------------------------------------------------------
// Text model
// ---------------------------------------------------------------------------

/// Unicode White_Space (what `char::is_whitespace` tests).
pub open spec fn is_space(c: char) -> bool {
    let u = c as u32;
    ||| (0x9 <= u <= 0xD)
    ||| u == 0x20
    ||| u == 0x85
    ||| u == 0xA0
    ||| u == 0x1680
    ||| (0x2000 <= u <= 0x200A)
    ||| u == 0x2028
    ||| u == 0x2029
    ||| u == 0x202F
    ||| u == 0x205F
    ||| u == 0x3000
}

/// Reading `s` from index `i`, with the token `cur` begun and the tokens
/// `acc` complete: the maximal runs of non-space characters.
pub open spec fn tokens_from(s: Seq<char>, i: int, cur: Seq<char>, acc: Seq<Seq<char>>) -> Seq<Seq<char>>
    decreases s.len() - i,
{
    if i >= s.len() {
        if cur.len() > 0 {
            acc.push(cur)
        } else {
            acc
        }
    } else if is_space(s[i]) {
        tokens_from(s, i + 1, seq![], if cur.len() > 0 { acc.push(cur) } else { acc })
    } else {
        tokens_from(s, i + 1, cur.push(s[i]), acc)
    }
}

/// The whitespace-separated fields of `s`.
pub open spec fn fen_tokens(s: Seq<char>) -> Seq<Seq<char>> {
    tokens_from(s, 0, seq![], seq![])
}

/// Reading `s` from index `i`, with the piece `cur` begun and the pieces
/// `acc` complete: the pieces of `s` between separators `sep`.
pub open spec fn pieces_from(s: Seq<char>, sep: char, i: int, cur: Seq<char>, acc: Seq<Seq<char>>) -> Seq<Seq<char>>
    decreases s.len() - i,
{
    if i >= s.len() {
        acc.push(cur)
    } else if s[i] == sep {
        pieces_from(s, sep, i + 1, seq![], acc.push(cur))
    } else {
        pieces_from(s, sep, i + 1, cur.push(s[i]), acc)
    }
}

/// `s` split at every `sep` (as `str::split` does).
pub open spec fn split_at_char(s: Seq<char>, sep: char) -> Seq<Seq<char>> {
    pieces_from(s, sep, 0, seq![], seq![])
}

/// The piece a FEN letter stands for.
pub open spec fn piece_of_char(c: char) -> Option<(Color, Piece)> {
    if c == 'P' {
        Some((Color::White, Piece::Pawn))
    } else if c == 'N' {
        Some((Color::White, Piece::Knight))
    } else if c == 'B' {
        Some((Color::White, Piece::Bishop))
    } else if c == 'R' {
        Some((Color::White, Piece::Rook))
    } else if c == 'Q' {
        Some((Color::White, Piece::Queen))
    } else if c == 'K' {
        Some((Color::White, Piece::King))
    } else if c == 'p' {
        Some((Color::Black, Piece::Pawn))
    } else if c == 'n' {
        Some((Color::Black, Piece::Knight))
    } else if c == 'b' {
        Some((Color::Black, Piece::Bishop))
    } else if c == 'r' {
        Some((Color::Black, Piece::Rook))
    } else if c == 'q' {
        Some((Color::Black, Piece::Queen))
    } else if c == 'k' {
        Some((Color::Black, Piece::King))
    } else {
        None
    }
}

pub open spec fn is_digit(c: char) -> bool {
    '0' <= c <= '9'
}

pub open spec fn digit_value(c: char) -> int {
    c as int - '0' as int
}

/// The squares of one FEN rank read from index `i` onto the squares `acc`:
/// a digit stands for that many empty squares, a letter for a piece;
/// anything else makes the rank invalid.
pub open spec fn row_cells_from(row: Seq<char>, i: int, acc: Seq<Option<(Color, Piece)>>) -> Option<Seq<Option<(Color, Piece)>>>
    decreases row.len() - i,
{
    if i >= row.len() {
        Some(acc)
    } else if is_digit(row[i]) {
        row_cells_from(row, i + 1, acc + Seq::new(digit_value(row[i]) as nat, |j: int| None))
    } else if piece_of_char(row[i]) is Some {
        row_cells_from(row, i + 1, acc.push(piece_of_char(row[i])))
    } else {
        None
    }
}

/// The squares of one FEN rank, a-file first.
pub open spec fn row_cells(row: Seq<char>) -> Option<Seq<Option<(Color, Piece)>>> {
    row_cells_from(row, 0, seq![])
}

/// A rank text describes exactly eight squares.
pub open spec fn row_ok(row: Seq<char>) -> bool {
    row_cells(row) matches Some(c) && c.len() == 8
}

/// The piece-placement field is valid: eight ranks of eight squares.
pub open spec fn placement_valid(field: Seq<char>) -> bool {
    let ranks = split_at_char(field, '/');
    ranks.len() == 8 && forall|r: int| 0 <= r < 8 ==> row_ok(#[trigger] ranks[r])
}

/// The 64 squares the placement field describes (rank 8 is written first).
pub open spec fn placement_board(field: Seq<char>) -> Seq<Option<(Color, Piece)>> {
    let ranks = split_at_char(field, '/');
    Seq::new(64, |s: int| row_cells(ranks[7 - s / 8])->Some_0[s % 8])
}

/// The castling bit a FEN letter stands for.
pub open spec fn castling_bit(c: char) -> Option<u8> {
    if c == 'K' {
        Some(CastlingRights::WK)
    } else if c == 'Q' {
        Some(CastlingRights::WQ)
    } else if c == 'k' {
        Some(CastlingRights::BK)
    } else if c == 'q' {
        Some(CastlingRights::BQ)
    } else {
        None
    }
}

/// The castling rights of the letters of `t` from index `i` on, or-ed onto `acc`.
pub open spec fn castling_from(t: Seq<char>, i: int, acc: u8) -> Option<u8>
    decreases t.len() - i,
{
    if i >= t.len() {
        Some(acc)
    } else {
        match castling_bit(t[i]) {
            Some(b) => castling_from(t, i + 1, acc | b),
            None => None,
        }
    }
}

/// The castling field: "-" or letters from "KQkq".
pub open spec fn castling_field(t: Seq<char>) -> Option<u8> {
    if t == seq!['-'] {
        Some(0)
    } else {
        castling_from(t, 0, 0)
    }
}

/// The en-passant field: "-" or a square name; `None` when invalid.
pub open spec fn ep_field(t: Seq<char>) -> Option<Option<Square>> {
    if t == seq!['-'] {
        Some(None)
    } else if t.len() == 2 && 'a' <= t[0] <= 'h' && '1' <= t[1] <= '8' {
        Some(Some(Square(((t[1] as int - '1' as int) * 8 + (t[0] as int - 'a' as int)) as u8)))
    } else {
        None
    }
}

/// The value of the decimal digits `t[..i]`.
pub open spec fn digits_value(t: Seq<char>, i: int) -> int
    decreases i,
{
    if i <= 0 {
        0
    } else {
        digits_value(t, i - 1) * 10 + digit_value(t[i - 1])
    }
}

/// A `u32` in decimal, as `str::parse::<u32>` reads it: an optional '+',
/// then at least one digit, the value at most `u32::MAX`.
pub open spec fn parse_u32_spec(t: Seq<char>) -> Option<u32> {
    match digits_upto(if t.len() > 1 && t[0] == '+' { t.drop_first() } else { t }, u32::MAX as int) {
        Some(v) => Some(v as u32),
        None => None,
    }
}

/// What a FEN text gives: the board, side to move, castling rights,
/// en-passant square and the two clocks, or the first error met (fields
/// are read in order; missing clocks default to 0 and 1).
pub open spec fn fen_parse(s: Seq<char>) -> Result<
    (Seq<Option<(Color, Piece)>>, Color, u8, Option<Square>, u32, u32),
    FenError,
> {
    let parts = fen_tokens(s);
    if parts.len() < 4 {
        Err(FenError::InvalidFormat)
    } else if !placement_valid(parts[0]) {
        Err(FenError::InvalidPiecePlacement)
    } else if parts[1] != seq!['w'] && parts[1] != seq!['b'] {
        Err(FenError::InvalidSideToMove)
    } else if castling_field(parts[2]) is None {
        Err(FenError::InvalidCastlingRights)
    } else if ep_field(parts[3]) is None {
        Err(FenError::InvalidEnPassant)
    } else if parts.len() > 4 && parse_u32_spec(parts[4]) is None {
        Err(FenError::InvalidClocks)
    } else if parts.len() > 5 && parse_u32_spec(parts[5]) is None {
        Err(FenError::InvalidClocks)
    } else {
        Ok(
            (
                placement_board(parts[0]),
                if parts[1] == seq!['w'] { Color::White } else { Color::Black },
                castling_field(parts[2])->Some_0,
                ep_field(parts[3])->Some_0,
                if parts.len() > 4 { parse_u32_spec(parts[4])->Some_0 } else { 0 },
                if parts.len() > 5 { parse_u32_spec(parts[5])->Some_0 } else { 1 },
            ),
        )
    }
}

// ---------------------------------------------------------------------------
// Reading
// ---------------------------------------------------------------------------

/// The views of a sequence of character vectors.
pub open spec fn views(v: Seq<Vec<char>>) -> Seq<Seq<char>> {
    v.map_values(|x: Vec<char>| x@)
}

proof fn lemma_views_push(v: Seq<Vec<char>>, x: Vec<char>)
    ensures
        views(v.push(x)) == views(v).push(x@),
{
    assert(views(v.push(x)) =~= views(v).push(x@));
}

pub(crate) fn is_space_char(c: char) -> (b: bool)
    ensures
        b == is_space(c),
{
    let u = c as u32;
    (0x9 <= u && u <= 0xD) || u == 0x20 || u == 0x85 || u == 0xA0 || u == 0x1680 || (0x2000 <= u
        && u <= 0x200A) || u == 0x2028 || u == 0x2029 || u == 0x202F || u == 0x205F || u == 0x3000
}

/// The whitespace-separated fields of `s`.
pub(crate) fn split_tokens(s: &Vec<char>) -> (parts: Vec<Vec<char>>)
    ensures
        views(parts@) == fen_tokens(s@),
{
    let mut acc: Vec<Vec<char>> = Vec::new();
    let mut cur: Vec<char> = Vec::new();
    let mut i: usize = 0;
    proof {
        assert(views(acc@) =~= seq![]);
        assert(cur@ =~= seq![]);
    }
    while i < s.len()
        invariant
            i <= s@.len(),
            fen_tokens(s@) == tokens_from(s@, i as int, cur@, views(acc@)),
        decreases s@.len() - i,
    {
        let c = s[i];
        if is_space_char(c) {
            if cur.len() > 0 {
                proof {
                    lemma_views_push(acc@, cur);
                }
                acc.push(cur);
            }
            cur = Vec::new();
            proof {
                assert(cur@ =~= seq![]);
            }
        } else {
            cur.push(c);
        }
        i = i + 1;
    }
    if cur.len() > 0 {
        proof {
            lemma_views_push(acc@, cur);
        }
        acc.push(cur);
    }
    acc
}

/// `s` split at every `sep`.
fn split_char(s: &Vec<char>, sep: char) -> (parts: Vec<Vec<char>>)
    ensures
        views(parts@) == split_at_char(s@, sep),
{
    let mut acc: Vec<Vec<char>> = Vec::new();
    let mut cur: Vec<char> = Vec::new();
    let mut i: usize = 0;
    proof {
        assert(views(acc@) =~= seq![]);
        assert(cur@ =~= seq![]);
    }
    while i < s.len()
        invariant
            i <= s@.len(),
            split_at_char(s@, sep) == pieces_from(s@, sep, i as int, cur@, views(acc@)),
        decreases s@.len() - i,
    {
        let c = s[i];
        if c == sep {
            proof {
                lemma_views_push(acc@, cur);
            }
            acc.push(cur);
            cur = Vec::new();
            proof {
                assert(cur@ =~= seq![]);
            }
        } else {
            cur.push(c);
        }
        i = i + 1;
    }
    proof {
        lemma_views_push(acc@, cur);
    }
    acc.push(cur);
    acc
}

/// The piece a FEN letter stands for.
pub fn piece_from_char(c: char) -> (r: Option<(Color, Piece)>)
    ensures
        r == piece_of_char(c),
{
    match c {
        'P' => Some((Color::White, Piece::Pawn)),
        'N' => Some((Color::White, Piece::Knight)),
        'B' => Some((Color::White, Piece::Bishop)),
        'R' => Some((Color::White, Piece::Rook)),
        'Q' => Some((Color::White, Piece::Queen)),
        'K' => Some((Color::White, Piece::King)),
        'p' => Some((Color::Black, Piece::Pawn)),
        'n' => Some((Color::Black, Piece::Knight)),
        'b' => Some((Color::Black, Piece::Bishop)),
        'r' => Some((Color::Black, Piece::Rook)),
        'q' => Some((Color::Black, Piece::Queen)),
        'k' => Some((Color::Black, Piece::King)),
        _ => None,
    }
}

/// Reading a rank never shortens the squares read so far.
proof fn lemma_row_cells_grow(row: Seq<char>, i: int, acc: Seq<Option<(Color, Piece)>>)
    requires
        0 <= i,
    ensures
        row_cells_from(row, i, acc) matches Some(c) ==> c.len() >= acc.len(),
    decreases row.len() - i,
{
    if i < row.len() {
        if is_digit(row[i]) {
            lemma_row_cells_grow(row, i + 1, acc + Seq::new(digit_value(row[i]) as nat, |j: int| None));
        } else if piece_of_char(row[i]) is Some {
            lemma_row_cells_grow(row, i + 1, acc.push(piece_of_char(row[i])));
        }
    }
}

/// The eight squares of a FEN rank, or `None` when it is invalid.
fn parse_row(row: &Vec<char>) -> (r: Option<Vec<Option<(Color, Piece)>>>)
    ensures
        r is Some <==> row_ok(row@),
        r matches Some(c) ==> c@ == row_cells(row@)->Some_0,
{
    let mut acc: Vec<Option<(Color, Piece)>> = Vec::new();
    let mut i: usize = 0;
    while i < row.len()
        invariant
            i <= row@.len(),
            acc@.len() <= 8,
            row_cells(row@) == row_cells_from(row@, i as int, acc@),
        decreases row@.len() - i,
    {
        let c = row[i];
        if '0' <= c && c <= '9' {
            let n = (c as u32 - '0' as u32) as usize;
            if acc.len() + n > 8 {
                proof {
                    lemma_row_cells_grow(row@, i + 1, acc@ + Seq::new(n as nat, |j: int| None));
                }
                return None;
            }
            let ghost before = acc@;
            let mut k: usize = 0;
            while k < n
                invariant
                    k <= n,
                    acc@ == before + Seq::new(k as nat, |j: int| None::<(Color, Piece)>),
                decreases n - k,
            {
                acc.push(None);
                k = k + 1;
                proof {
                    assert(acc@ =~= before + Seq::new(k as nat, |j: int| None::<(Color, Piece)>));
                }
            }
        } else {
            match piece_from_char(c) {
                Some(pc) => {
                    if acc.len() >= 8 {
                        proof {
                            lemma_row_cells_grow(row@, i + 1, acc@.push(Some(pc)));
                        }
                        return None;
                    }
                    acc.push(Some(pc));
                },
                None => {
                    return None;
                },
            }
        }
        i = i + 1;
    }
    if acc.len() != 8 {
        return None;
    }
    Some(acc)
}

/// The castling field, or `None` when invalid.
fn parse_castling(t: &Vec<char>) -> (r: Option<CastlingRights>)
    ensures
        r is Some <==> castling_field(t@) is Some,
        r matches Some(c) ==> c.0 == castling_field(t@)->Some_0 && c.0 < 16,
{
    if t.len() == 1 && t[0] == '-' {
        proof {
            assert(t@ =~= seq!['-']);
        }
        return Some(CastlingRights(0));
    }
    proof {
        if t@ == seq!['-'] {
            assert(t@.len() == 1 && t@[0] == '-');
        }
    }
    let mut rights: u8 = 0;
    let mut i: usize = 0;
    while i < t.len()
        invariant
            i <= t@.len(),
            rights < 16,
            castling_field(t@) == castling_from(t@, i as int, rights),
            t@ != seq!['-'],
        decreases t@.len() - i,
    {
        let b: u8 = match t[i] {
            'K' => CastlingRights::WK,
            'Q' => CastlingRights::WQ,
            'k' => CastlingRights::BK,
            'q' => CastlingRights::BQ,
            _ => {
                return None;
            },
        };
        proof {
            assert(rights | b < 16) by (bit_vector)
                requires
                    rights < 16,
                    b == 1 || b == 2 || b == 4 || b == 8,
            ;
        }
        rights = rights | b;
        i = i + 1;
    }
    Some(CastlingRights(rights))
}

/// The en-passant field, or `None` when invalid.
fn parse_ep(t: &Vec<char>) -> (r: Option<Option<Square>>)
    ensures
        r == ep_field(t@),
{
    if t.len() == 1 && t[0] == '-' {
        proof {
            assert(t@ =~= seq!['-']);
        }
        return Some(None);
    }
    proof {
        if t@ == seq!['-'] {
            assert(t@.len() == 1 && t@[0] == '-');
        }
    }
    if t.len() == 2 {
        let f = t[0];
        let r = t[1];
        if 'a' <= f && f <= 'h' && '1' <= r && r <= '8' {
            let file = (f as u32 - 'a' as u32) as u8;
            let rank = (r as u32 - '1' as u32) as u8;
            return Some(Some(Square::from_file_rank(file, rank)));
        }
    }
    None
}

/// Digits read so far stay within `u64` while the value fits in `u32`.
pub proof fn lemma_digits_step(t: Seq<char>, i: int)
    requires
        0 < i <= t.len(),
    ensures
        digits_value(t, i) == digits_value(t, i - 1) * 10 + digit_value(t[i - 1]),
{
}

pub proof fn lemma_digits_monotone(t: Seq<char>, i: int, j: int)
    requires
        0 <= i <= j <= t.len(),
        forall|k: int| 0 <= k < t.len() ==> is_digit(#[trigger] t[k]),
    ensures
        digits_value(t, i) <= digits_value(t, j),
        0 <= digits_value(t, i),
    decreases j - i,
{
    if i < j {
        lemma_digits_monotone(t, i, j - 1);
        lemma_digits_nonneg(t, j - 1);
    } else {
        lemma_digits_nonneg(t, i);
    }
}

pub proof fn lemma_digits_nonneg(t: Seq<char>, i: int)
    requires
        0 <= i <= t.len(),
        forall|k: int| 0 <= k < t.len() ==> is_digit(#[trigger] t[k]),
    ensures
        0 <= digits_value(t, i),
    decreases i,
{
    if i > 0 {
        lemma_digits_nonneg(t, i - 1);
    }
}

/// The value of the digits `d`, if there is at least one, all are digits
/// and the value is at most `max`.
pub open spec fn digits_upto(d: Seq<char>, max: int) -> Option<int> {
    if d.len() > 0 && (forall|i: int| 0 <= i < d.len() ==> is_digit(#[trigger] d[i]))
        && digits_value(d, d.len() as int) <= max {
        Some(digits_value(d, d.len() as int))
    } else {
        None
    }
}

/// The digits `t[start..]` as a number at most `max` (see `digits_upto`).
pub(crate) fn parse_digits(t: &Vec<char>, start: usize, max: u64) -> (r: Option<u64>)
    requires
        start <= t@.len(),
    ensures
        r matches Some(v) ==> digits_upto(t@.subrange(start as int, t@.len() as int), max as int) == Some(
            v as int,
        ),
        r is None ==> digits_upto(t@.subrange(start as int, t@.len() as int), max as int) is None,
{
    let ghost d = t@.subrange(start as int, t@.len() as int);
    if start >= t.len() {
        return None;
    }
    let mut value: u128 = 0;
    let mut i: usize = start;
    while i < t.len()
        invariant
            start <= i <= t@.len(),
            d == t@.subrange(start as int, t@.len() as int),
            forall|k: int| 0 <= k < i - start ==> is_digit(#[trigger] d[k]),
            value == digits_value(d, i - start),
            value <= max,
        decreases t@.len() - i,
    {
        let c = t[i];
        proof {
            assert(d[i - start] == t@[i as int]);
        }
        if !('0' <= c && c <= '9') {
            proof {
                assert(!is_digit(d[i - start]));
                assert(!(forall|k: int| 0 <= k < d.len() ==> is_digit(#[trigger] d[k])));
            }
            return None;
        }
        let dv = (c as u32 - '0' as u32) as u128;
        proof {
            lemma_digits_step(d, i - start + 1);
        }
        assert(dv == digit_value(d[i - start]));
        value = value * 10 + dv;
        assert(value == digits_value(d, i - start + 1));
        if value > max as u128 {
            proof {
                assert forall|k: int| 0 <= k < i + 1 - start implies is_digit(#[trigger] d[k]) by {}
                if forall|k: int| 0 <= k < d.len() ==> is_digit(#[trigger] d[k]) {
                    lemma_digits_monotone(d, i + 1 - start, d.len() as int);
                }
            }
            return None;
        }
        i = i + 1;
    }
    proof {
        assert(d.len() > 0);
    }
    Some(value as u64)
}

/// A `u32` in decimal (see `parse_u32_spec`), or `None`.
fn parse_u32(t: &Vec<char>) -> (r: Option<u32>)
    ensures
        r == parse_u32_spec(t@),
{
    let start: usize = if t.len() > 1 && t[0] == '+' { 1 } else { 0 };
    let ghost d = if t@.len() > 1 && t@[0] == '+' { t@.drop_first() } else { t@ };
    proof {
        assert(d =~= t@.subrange(start as int, t@.len() as int));
    }
    match parse_digits(t, start, 0xFFFF_FFFF) {
        Some(v) => Some(v as u32),
        None => None,
    }
}

/// The piece on file `f` of a back rank at the start.
pub open spec fn back_rank_spec(f: int) -> Piece {
    if f == 0 || f == 7 {
        Piece::Rook
    } else if f == 1 || f == 6 {
        Piece::Knight
    } else if f == 2 || f == 5 {
        Piece::Bishop
    } else if f == 3 {
        Piece::Queen
    } else {
        Piece::King
    }
}

fn back_rank_piece(f: u8) -> (p: Piece)
    ensures
        p == back_rank_spec(f as int),
{
    if f == 0 || f == 7 {
        Piece::Rook
    } else if f == 1 || f == 6 {
        Piece::Knight
    } else if f == 2 || f == 5 {
        Piece::Bishop
    } else if f == 3 {
        Piece::Queen
    } else {
        Piece::King
    }
}

/// The squares of the starting position.
pub open spec fn start_board() -> Seq<Option<(Color, Piece)>> {
    Seq::new(
        64,
        |s: int|
            if s < 8 {
                Some((Color::White, back_rank_spec(s)))
            } else if s < 16 {
                Some((Color::White, Piece::Pawn))
            } else if s >= 56 {
                Some((Color::Black, back_rank_spec(s - 56)))
            } else if s >= 48 {
                Some((Color::Black, Piece::Pawn))
            } else {
                None
            },
    )
}

// ---------------------------------------------------------------------------
// Writing
// ---------------------------------------------------------------------------

/// The FEN letter of a piece: upper case for White.
pub open spec fn piece_letter(c: Color, p: Piece) -> char {
    match (c, p) {
        (Color::White, Piece::Pawn) => 'P',
        (Color::White, Piece::Knight) => 'N',
        (Color::White, Piece::Bishop) => 'B',
        (Color::White, Piece::Rook) => 'R',
        (Color::White, Piece::Queen) => 'Q',
        (Color::White, Piece::King) => 'K',
        (Color::Black, Piece::Pawn) => 'p',
        (Color::Black, Piece::Knight) => 'n',
        (Color::Black, Piece::Bishop) => 'b',
        (Color::Black, Piece::Rook) => 'r',
        (Color::Black, Piece::Queen) => 'q',
        (Color::Black, Piece::King) => 'k',
    }
}

/// The decimal digit of `d` (0..9).
pub open spec fn digit_char(d: int) -> char {
    ('0' as int + d) as char
}

/// Text of rank `r` from file `f` on, with `empty` empty squares pending.
pub open spec fn rank_text_from(board: Seq<Option<(Color, Piece)>>, r: int, f: int, empty: int) -> Seq<char>
    decreases 8 - f,
{
    if f >= 8 {
        if empty > 0 {
            seq![digit_char(empty)]
        } else {
            seq![]
        }
    } else {
        match board[r * 8 + f] {
            Some((c, p)) => (if empty > 0 {
                seq![digit_char(empty)]
            } else {
                seq![]
            }) + seq![piece_letter(c, p)] + rank_text_from(board, r, f + 1, 0),
            None => rank_text_from(board, r, f + 1, empty + 1),
        }
    }
}

/// Text of ranks `r` down to 1, separated by '/'.
pub open spec fn ranks_text(board: Seq<Option<(Color, Piece)>>, r: int) -> Seq<char>
    decreases r + 1,
{
    if r < 0 {
        seq![]
    } else {
        rank_text_from(board, r, 0, 0) + (if r > 0 {
            seq!['/']
        } else {
            seq![]
        }) + ranks_text(board, r - 1)
    }
}

/// The castling field of rights `c`.
pub open spec fn castling_text(c: u8) -> Seq<char> {
    if c == 0 {
        seq!['-']
    } else {
        (if c & 1 != 0 { seq!['K'] } else { seq![] }) + (if c & 2 != 0 { seq!['Q'] } else { seq![] })
            + (if c & 4 != 0 { seq!['k'] } else { seq![] }) + (if c & 8 != 0 { seq!['q'] } else { seq![] })
    }
}

/// The en-passant field.
pub open spec fn ep_text(ep: Option<Square>) -> Seq<char> {
    match ep {
        Some(s) => square_name(s.0 as int),
        None => seq!['-'],
    }
}

/// `n` in decimal.
pub open spec fn decimal_text(n: nat) -> Seq<char>
    decreases n,
{
    if n < 10 {
        seq![digit_char(n as int)]
    } else {
        decimal_text(n / 10).push(digit_char((n % 10) as int))
    }
}

/// The FEN text of a position.
pub open spec fn fen_text(pos: Position) -> Seq<char> {
    ranks_text(pos.board(), 7) + seq![' '] + seq![
        if pos.spec_side() == Color::White {
            'w'
        } else {
            'b'
        },
    ] + seq![' '] + castling_text(pos.spec_castling()) + seq![' '] + ep_text(pos.spec_ep()) + seq![' ']
        + decimal_text(pos.spec_halfmove() as nat) + seq![' '] + decimal_text(pos.spec_fullmove() as nat)
}

fn piece_to_char(color: Color, piece: Piece) -> (ch: char)
    ensures
        ch == piece_letter(color, piece),
{
    match (color, piece) {
        (Color::White, Piece::Pawn) => 'P',
        (Color::White, Piece::Knight) => 'N',
        (Color::White, Piece::Bishop) => 'B',
        (Color::White, Piece::Rook) => 'R',
        (Color::White, Piece::Queen) => 'Q',
        (Color::White, Piece::King) => 'K',
        (Color::Black, Piece::Pawn) => 'p',
        (Color::Black, Piece::Knight) => 'n',
        (Color::Black, Piece::Bishop) => 'b',
        (Color::Black, Piece::Rook) => 'r',
        (Color::Black, Piece::Queen) => 'q',
        (Color::Black, Piece::King) => 'k',
    }
}

fn digit_to_char(d: u8) -> (ch: char)
    requires
        d < 10,
    ensures
        ch == digit_char(d as int),
{
    (48u8 + d) as char
}

/// Appends `n` in decimal.
fn push_decimal(out: &mut Vec<char>, n: u32)
    ensures
        final(out)@ == old(out)@ + decimal_text(n as nat),
    decreases n,
{
    if n >= 10 {
        push_decimal(out, n / 10);
    }
    out.push(digit_to_char((n % 10) as u8));
    proof {
        if n >= 10 {
            assert(final(out)@ =~= old(out)@ + decimal_text(n as nat));
        } else {
            assert(final(out)@ =~= old(out)@ + decimal_text(n as nat));
        }
    }
}

/// Appends the castling field.
fn push_castling(fen: &mut Vec<char>, rights: CastlingRights)
    ensures
        final(fen)@ == old(fen)@ + castling_text(rights.0),
{
    let ghost start = fen@;
    if rights.0 == 0 {
        fen.push('-');
    } else {
        if rights.has(CastlingRights::WK) {
            fen.push('K');
        }
        if rights.has(CastlingRights::WQ) {
            fen.push('Q');
        }
        if rights.has(CastlingRights::BK) {
            fen.push('k');
        }
        if rights.has(CastlingRights::BQ) {
            fen.push('q');
        }
    }
    proof {
        assert(fen@ =~= start + castling_text(rights.0));
    }
}

/// Appends the en-passant field.
fn push_ep(fen: &mut Vec<char>, ep: Option<Square>)
    requires
        ep matches Some(e) ==> e.0 < 64,
    ensures
        final(fen)@ == old(fen)@ + ep_text(ep),
{
    let ghost start = fen@;
    match ep {
        Some(e) => {
            fen.push(file_char(e.file()));
            fen.push(rank_char(e.rank()));
        },
        None => {
            fen.push('-');
        },
    }
    proof {
        assert(fen@ =~= start + ep_text(ep));
    }
}

impl Position {
    /// Parse a FEN string into a `Position` (see `fen_parse`).
    #[verifier::spinoff_prover]
    #[verifier::rlimit(30)]
    pub fn from_fen(fen: &str) -> (r: Result<Position, FenError>)
        ensures
            match fen_parse(fen@) {
                Ok((board, side, castling, ep, halfmove, fullmove)) => {
                    &&& r is Ok
                    &&& r->Ok_0.wf()
                    &&& r->Ok_0.board() == board
                    &&& r->Ok_0.spec_side() == side
                    &&& r->Ok_0.spec_castling() == castling
                    &&& r->Ok_0.spec_ep() == ep
                    &&& r->Ok_0.spec_halfmove() == halfmove
                    &&& r->Ok_0.spec_fullmove() == fullmove
                },
                Err(e) => r == Err::<Position, FenError>(e),
            },
    {
        let chars = str_chars(fen);
        let parts = split_tokens(&chars);
        let ghost toks = fen_tokens(fen@);
        if parts.len() < 4 {
            return Err(FenError::InvalidFormat);
        }
        proof {
            assert(toks[0] == parts@[0]@);
            assert(toks[1] == parts@[1]@);
            assert(toks[2] == parts@[2]@);
            assert(toks[3] == parts@[3]@);
        }
        // --- piece placement ---
        let ranks = split_char(&parts[0], '/');
        let ghost rs = split_at_char(toks[0], '/');
        if ranks.len() != 8 {
            return Err(FenError::InvalidPiecePlacement);
        }
        let mut rows: Vec<Vec<Option<(Color, Piece)>>> = Vec::new();
        let mut r: usize = 0;
        while r < 8
            invariant
                r <= 8,
                toks == fen_tokens(fen@),
                toks.len() >= 4,
                rs == split_at_char(toks[0], '/'),
                ranks@.len() == 8,
                views(ranks@) == rs,
                rows@.len() == r,
                forall|k: int| 0 <= k < r ==> row_ok(#[trigger] rs[k]),
                forall|k: int| 0 <= k < r ==> (#[trigger] rows@[k])@ == row_cells(rs[k])->Some_0,
            decreases 8 - r,
        {
            proof {
                assert(rs[r as int] == ranks@[r as int]@);
            }
            match parse_row(&ranks[r]) {
                Some(cells) => {
                    rows.push(cells);
                },
                None => {
                    proof {
                        assert(!row_ok(rs[r as int]));
                        assert(!placement_valid(toks[0]));
                    }
                    return Err(FenError::InvalidPiecePlacement);
                },
            }
            r = r + 1;
        }
        proof {
            assert(placement_valid(toks[0]));
        }
        let mut cells: Vec<Option<(Color, Piece)>> = Vec::new();
        let mut s: usize = 0;
        while s < 64
            invariant
                s <= 64,
                rows@.len() == 8,
                forall|k: int| 0 <= k < 8 ==> row_ok(#[trigger] rs[k]),
                forall|k: int| 0 <= k < 8 ==> (#[trigger] rows@[k])@ == row_cells(rs[k])->Some_0,
                cells@.len() == s,
                forall|k: int| 0 <= k < s ==> cells@[k] == row_cells(rs[7 - k / 8])->Some_0[k % 8],
            decreases 64 - s,
        {
            let row = &rows[7 - s / 8];
            proof {
                assert(row_ok(rs[7 - s / 8]));
            }
            cells.push(row[s % 8]);
            s = s + 1;
        }
        proof {
            assert(cells@ =~= placement_board(toks[0]));
        }
        // --- side to move ---
        let side = if parts[1].len() == 1 && parts[1][0] == 'w' {
            proof {
                assert(toks[1] =~= seq!['w']);
            }
            Color::White
        } else if parts[1].len() == 1 && parts[1][0] == 'b' {
            proof {
                assert(toks[1] =~= seq!['b']);
            }
            Color::Black
        } else {
            proof {
                assert(toks[1] != seq!['w']) by {
                    if toks[1] == seq!['w'] {
                        assert(toks[1].len() == 1 && toks[1][0] == 'w');
                    }
                }
                assert(toks[1] != seq!['b']) by {
                    if toks[1] == seq!['b'] {
                        assert(toks[1].len() == 1 && toks[1][0] == 'b');
                    }
                }
            }
            return Err(FenError::InvalidSideToMove);
        };
        // --- castling rights ---
        let castling = match parse_castling(&parts[2]) {
            Some(c) => c,
            None => {
                return Err(FenError::InvalidCastlingRights);
            },
        };
        // --- en passant ---
        let en_passant = match parse_ep(&parts[3]) {
            Some(e) => e,
            None => {
                return Err(FenError::InvalidEnPassant);
            },
        };
        proof {
            if let Some(e) = en_passant {
                assert(e.0 < 64);
            }
        }
        // --- clocks (optional; default 0/1) ---
        let halfmove_clock = if parts.len() > 4 {
            proof {
                assert(toks[4] == parts@[4]@);
            }
            match parse_u32(&parts[4]) {
                Some(v) => v,
                None => {
                    return Err(FenError::InvalidClocks);
                },
            }
        } else {
            0
        };
        let fullmove_number = if parts.len() > 5 {
            proof {
                assert(toks[5] == parts@[5]@);
            }
            match parse_u32(&parts[5]) {
                Some(v) => v,
                None => {
                    return Err(FenError::InvalidClocks);
                },
            }
        } else {
            1
        };
        Ok(Position::from_parts(&cells, side, castling, en_passant, halfmove_clock, fullmove_number))
    }

    /// Standard chess starting position
    /// ("rnbqkbnr/pppppppp/8/8/8/8/PPPPPPPP/RNBQKBNR w KQkq - 0 1").
    pub fn startpos() -> (p: Position)
        ensures
            p.wf(),
            p.board() == start_board(),
            p.spec_side() == Color::White,
            p.spec_castling() == CastlingRights::ALL,
            p.spec_ep() is None,
            p.spec_halfmove() == 0,
            p.spec_fullmove() == 1,
    {
        let mut cells: Vec<Option<(Color, Piece)>> = Vec::new();
        let mut s: u8 = 0;
        while s < 64
            invariant
                s <= 64,
                cells@.len() == s,
                forall|k: int| 0 <= k < s ==> cells@[k] == start_board()[k],
            decreases 64 - s,
        {
            let cell = if s < 8 {
                Some((Color::White, back_rank_piece(s)))
            } else if s < 16 {
                Some((Color::White, Piece::Pawn))
            } else if s >= 56 {
                Some((Color::Black, back_rank_piece(s - 56)))
            } else if s >= 48 {
                Some((Color::Black, Piece::Pawn))
            } else {
                None
            };
            cells.push(cell);
            s = s + 1;
        }
        proof {
            assert(cells@ =~= start_board());
        }
        Position::from_parts(
            &cells,
            Color::White,
            CastlingRights(CastlingRights::ALL),
            None,
            0,
            1,
        )
    }
    /// Appends the text of rank `r`.
    fn push_rank(&self, r: u8, out: &mut Vec<char>)
        requires
            self.wf(),
            r < 8,
        ensures
            final(out)@ == old(out)@ + rank_text_from(self.board(), r as int, 0, 0),
    {
        let ghost board = self.board();
        let ghost start = out@;
        let mut empty: u8 = 0;
        let mut file: u8 = 0;
        while file < 8
            invariant
                self.wf(),
                board == self.board(),
                r < 8,
                file <= 8,
                empty <= file,
                out@ + rank_text_from(board, r as int, file as int, empty as int) == start
                    + rank_text_from(board, r as int, 0, 0),
            decreases 8 - file,
        {
            let ghost before = out@;
            let ghost e0 = empty;
            let sq = Square::from_file_rank(file, r);
            proof {
                assert(board[r * 8 + file] == self.piece_on(sq.0 as int));
            }
            match self.piece_at(sq) {
                Some((color, piece)) => {
                    if empty > 0 {
                        out.push(digit_to_char(empty));
                        empty = 0;
                    }
                    out.push(piece_to_char(color, piece));
                    proof {
                        assert(out@ + rank_text_from(board, r as int, file + 1, 0) =~= before
                            + rank_text_from(board, r as int, file as int, e0 as int));
                    }
                },
                None => {
                    empty = empty + 1;
                },
            }
            file = file + 1;
        }
        if empty > 0 {
            out.push(digit_to_char(empty));
        }
        proof {
            assert(out@ =~= start + rank_text_from(board, r as int, 0, 0));
        }
    }

    /// Appends the piece-placement field.
    fn push_placement(&self, fen: &mut Vec<char>)
        requires
            self.wf(),
        ensures
            final(fen)@ == old(fen)@ + ranks_text(self.board(), 7),
    {
        let ghost board = self.board();
        let ghost start = fen@;
        let mut rank: u8 = 8;
        while rank > 0
            invariant
                self.wf(),
                board == self.board(),
                rank <= 8,
                fen@ + ranks_text(board, rank - 1) == start + ranks_text(board, 7),
            decreases rank,
        {
            let r = rank - 1;
            let ghost before = fen@;
            self.push_rank(r, fen);
            if r > 0 {
                fen.push('/');
            }
            proof {
                assert(fen@ + ranks_text(board, r - 1) =~= before + ranks_text(board, r as int));
            }
            rank = r;
        }
        proof {
            assert(fen@ =~= start + ranks_text(board, 7));
        }
    }

    /// Serialize the position to a FEN string.
    #[verifier::spinoff_prover]
    pub fn to_fen(&self) -> (s: String)
        requires
            self.wf(),
        ensures
            s@ == fen_text(*self),
    {
        let mut fen: Vec<char> = Vec::new();
        self.push_placement(&mut fen);
        fen.push(' ');
        fen.push(if self.side_to_move() == Color::White { 'w' } else { 'b' });
        fen.push(' ');
        push_castling(&mut fen, self.castling_rights());
        fen.push(' ');
        push_ep(&mut fen, self.en_passant_square());
        fen.push(' ');
        push_decimal(&mut fen, self.halfmove_clock());
        fen.push(' ');
        push_decimal(&mut fen, self.fullmove_number());
        proof {
            assert(fen@ =~= fen_text(*self));
        }
        chars_to_string(&fen)
    }
}

} // verus!
