use vstd::prelude::*;

verus! {

/// Square index 0..63 using Little-Endian Rank-File (LERF): a1=0, h1=7, a2=8, h8=63.
#[derive(Copy, Clone, Debug, PartialEq, Eq, Hash, Structural)]
pub struct Square(pub u8);

impl Square {
    /// File (column) of the square, 0 = a .. 7 = h.
    pub open spec fn spec_file(self) -> int {
        self.0 as int % 8
    }

    /// Rank (row) of the square, 0 = rank 1 .. 7 = rank 8.
    pub open spec fn spec_rank(self) -> int {
        self.0 as int / 8
    }

    pub fn from_file_rank(file: u8, rank: u8) -> (sq: Square)
        requires
            file < 8,
            rank < 8,
        ensures
            sq.0 == rank * 8 + file,
            sq.spec_file() == file,
            sq.spec_rank() == rank,
    {
        Square(rank * 8 + file)
    }

    pub fn file(self) -> (f: u8)
        ensures
            f == self.spec_file(),
    {
        self.0 % 8
    }

    pub fn rank(self) -> (r: u8)
        ensures
            r == self.spec_rank(),
    {
        self.0 / 8
    }
}

#[derive(Copy, Clone, Debug, PartialEq, Eq, Structural)]
pub enum Color {
    White,
    Black,
}

impl Color {
    /// Index of the colour in colour-indexed tables (White = 0, Black = 1).
    pub open spec fn idx(self) -> int {
        match self {
            Color::White => 0,
            Color::Black => 1,
        }
    }

    pub open spec fn spec_opposite(self) -> Color {
        match self {
            Color::White => Color::Black,
            Color::Black => Color::White,
        }
    }

    pub fn opposite(self) -> (c: Color)
        ensures
            c == self.spec_opposite(),
            c != self,
    {
        match self {
            Color::White => Color::Black,
            Color::Black => Color::White,
        }
    }

    pub fn index(self) -> (i: usize)
        ensures
            i == self.idx(),
    {
        match self {
            Color::White => 0,
            Color::Black => 1,
        }
    }
}

#[derive(Copy, Clone, Debug, PartialEq, Eq, Structural)]
pub enum Piece {
    Pawn,
    Knight,
    Bishop,
    Rook,
    Queen,
    King,
}

impl Piece {
    /// Index of the piece kind in piece-indexed tables (Pawn = 0 .. King = 5).
    pub open spec fn idx(self) -> int {
        match self {
            Piece::Pawn => 0,
            Piece::Knight => 1,
            Piece::Bishop => 2,
            Piece::Rook => 3,
            Piece::Queen => 4,
            Piece::King => 5,
        }
    }

    pub open spec fn from_idx(i: int) -> Piece {
        if i == 0 {
            Piece::Pawn
        } else if i == 1 {
            Piece::Knight
        } else if i == 2 {
            Piece::Bishop
        } else if i == 3 {
            Piece::Rook
        } else if i == 4 {
            Piece::Queen
        } else {
            Piece::King
        }
    }

    pub fn index(self) -> (i: usize)
        ensures
            i == self.idx(),
    {
        match self {
            Piece::Pawn => 0,
            Piece::Knight => 1,
            Piece::Bishop => 2,
            Piece::Rook => 3,
            Piece::Queen => 4,
            Piece::King => 5,
        }
    }

    pub fn from_index(i: usize) -> (p: Piece)
        requires
            i < 6,
        ensures
            p == Piece::from_idx(i as int),
            p.idx() == i,
    {
        if i == 0 {
            Piece::Pawn
        } else if i == 1 {
            Piece::Knight
        } else if i == 2 {
            Piece::Bishop
        } else if i == 3 {
            Piece::Rook
        } else if i == 4 {
            Piece::Queen
        } else {
            Piece::King
        }
    }
}

/// The packed value of a move with the given fields.
pub open spec fn move_bits(from: u8, to: u8, flags: u8, promo: u8) -> u16 {
    (from as u16) | ((to as u16) << 6u16) | ((flags as u16) << 12u16) | ((promo as u16) << 14u16)
}

/// The piece that promotion code `c` (0..3) stands for.
pub open spec fn promo_piece_of(c: u16) -> Piece {
    if c == 0 {
        Piece::Knight
    } else if c == 1 {
        Piece::Bishop
    } else if c == 2 {
        Piece::Rook
    } else {
        Piece::Queen
    }
}

/// Packed u16 move: bits 0-5=from, 6-11=to, 12-13=flags, 14-15=promo piece.
/// Flags: 0=normal, 1=promotion, 2=en passant, 3=castling.
/// Promo: 0=Knight, 1=Bishop, 2=Rook, 3=Queen.
#[derive(Copy, Clone, Debug, PartialEq, Eq, Structural)]
pub struct Move(pub u16);

impl Move {
    /// The null move (all bits zero), used as "no move".
    pub fn none() -> (m: Move)
        ensures
            m.0 == 0,
    {
        Move(0)
    }

    pub open spec fn spec_from(self) -> u16 {
        self.0 & 63
    }

    pub open spec fn spec_to(self) -> u16 {
        (self.0 >> 6u16) & 63
    }

    pub open spec fn spec_flags(self) -> u16 {
        (self.0 >> 12u16) & 3
    }

    pub open spec fn spec_promo(self) -> u16 {
        (self.0 >> 14u16) & 3
    }

    pub fn new(from: Square, to: Square, flags: u8, promo: u8) -> (m: Move)
        ensures
            m.0 == move_bits(from.0, to.0, flags, promo),
    {
        Move((from.0 as u16) | ((to.0 as u16) << 6u16) | ((flags as u16) << 12u16) | ((
        promo as u16) << 14u16))
    }

    pub fn from_sq(self) -> (s: Square)
        ensures
            s.0 == self.spec_from(),
            s.0 < 64,
    {
        let v = self.0 & 63;
        proof {
            lemma_u16_and_le(self.0, 63);
        }
        Square(v as u8)
    }

    pub fn to_sq(self) -> (s: Square)
        ensures
            s.0 == self.spec_to(),
            s.0 < 64,
    {
        let v = (self.0 >> 6u16) & 63;
        proof {
            lemma_u16_and_le(self.0 >> 6u16, 63);
        }
        Square(v as u8)
    }

    pub fn flags(self) -> (f: u8)
        ensures
            f == self.spec_flags(),
            f < 4,
    {
        let v = (self.0 >> 12u16) & 3;
        proof {
            lemma_u16_and_le(self.0 >> 12u16, 3);
        }
        v as u8
    }

    pub fn promotion_piece(self) -> (p: Piece)
        ensures
            p == promo_piece_of(self.spec_promo()),
    {
        let c = (self.0 >> 14u16) & 3;
        if c == 0 {
            Piece::Knight
        } else if c == 1 {
            Piece::Bishop
        } else if c == 2 {
            Piece::Rook
        } else {
            Piece::Queen
        }
    }

    pub fn is_promotion(self) -> (b: bool)
        ensures
            b == (self.spec_flags() == 1),
    {
        self.flags() == 1
    }

    pub fn is_en_passant(self) -> (b: bool)
        ensures
            b == (self.spec_flags() == 2),
    {
        self.flags() == 2
    }

    pub fn is_castling(self) -> (b: bool)
        ensures
            b == (self.spec_flags() == 3),
    {
        self.flags() == 3
    }

    /// The UCI long-algebraic text of the move, e.g. "e2e4" or "e7e8q".
    pub open spec fn spec_uci(self) -> Seq<char> {
        let base = square_name(self.spec_from() as int) + square_name(self.spec_to() as int);
        if self.spec_flags() == 1 {
            base.push(promo_char(self.spec_promo()))
        } else {
            base
        }
    }

    /// The characters of the UCI text of the move.
    pub fn uci_chars(self) -> (v: Vec<char>)
        ensures
            v@ == self.spec_uci(),
    {
        let from = self.from_sq();
        let to = self.to_sq();
        let mut v: Vec<char> = Vec::new();
        v.push(file_char(from.0 % 8));
        v.push(rank_char(from.0 / 8));
        v.push(file_char(to.0 % 8));
        v.push(rank_char(to.0 / 8));
        if self.is_promotion() {
            let c = (self.0 >> 14u16) & 3;
            v.push(promo_char_exec(c));
        }
        proof {
            let base = square_name(self.spec_from() as int) + square_name(self.spec_to() as int);
            if self.spec_flags() == 1 {
                assert(v@ =~= base.push(promo_char(self.spec_promo())));
            } else {
                assert(v@ =~= base);
            }
        }
        v
    }

    pub fn to_uci(self) -> (s: String)
        ensures
            s@ == self.spec_uci(),
    {
        chars_to_string(&self.uci_chars())
    }
}

/// The letter of file `f` ('a'..'h').
pub open spec fn spec_file_char(f: int) -> char {
    if f == 0 {
        'a'
    } else if f == 1 {
        'b'
    } else if f == 2 {
        'c'
    } else if f == 3 {
        'd'
    } else if f == 4 {
        'e'
    } else if f == 5 {
        'f'
    } else if f == 6 {
        'g'
    } else {
        'h'
    }
}

/// The digit of rank `r` ('1'..'8').
pub open spec fn spec_rank_char(r: int) -> char {
    if r == 0 {
        '1'
    } else if r == 1 {
        '2'
    } else if r == 2 {
        '3'
    } else if r == 3 {
        '4'
    } else if r == 4 {
        '5'
    } else if r == 5 {
        '6'
    } else if r == 6 {
        '7'
    } else {
        '8'
    }
}

/// Algebraic name of square `s`, e.g. "e4".
pub open spec fn square_name(s: int) -> Seq<char> {
    seq![spec_file_char(s % 8), spec_rank_char(s / 8)]
}

/// UCI letter of promotion code `c`.
pub open spec fn promo_char(c: u16) -> char {
    if c == 0 {
        'n'
    } else if c == 1 {
        'b'
    } else if c == 2 {
        'r'
    } else {
        'q'
    }
}

pub fn file_char(f: u8) -> (c: char)
    ensures
        c == spec_file_char(f as int),
{
    if f == 0 {
        'a'
    } else if f == 1 {
        'b'
    } else if f == 2 {
        'c'
    } else if f == 3 {
        'd'
    } else if f == 4 {
        'e'
    } else if f == 5 {
        'f'
    } else if f == 6 {
        'g'
    } else {
        'h'
    }
}

pub fn rank_char(r: u8) -> (c: char)
    ensures
        c == spec_rank_char(r as int),
{
    if r == 0 {
        '1'
    } else if r == 1 {
        '2'
    } else if r == 2 {
        '3'
    } else if r == 3 {
        '4'
    } else if r == 4 {
        '5'
    } else if r == 5 {
        '6'
    } else if r == 6 {
        '7'
    } else {
        '8'
    }
}

fn promo_char_exec(c: u16) -> (ch: char)
    ensures
        ch == promo_char(c),
{
    if c == 0 {
        'n'
    } else if c == 1 {
        'b'
    } else if c == 2 {
        'r'
    } else {
        'q'
    }
}

/// Collects characters into a `String` (std `String: FromIterator<char>`).
#[verifier::external_body]
pub(crate) fn chars_to_string(v: &Vec<char>) -> (s: String)
    ensures
        s@ == v@,
{
    v.iter().collect()
}

proof fn lemma_u16_and_le(x: u16, m: u16)
    ensures
        x & m <= m,
{
    assert(x & m <= m) by (bit_vector);
}

/// Decoding a packed move gives back the fields it was built from.
pub proof fn lemma_move_fields_roundtrip(from: u8, to: u8, flags: u8, promo: u8)
    requires
        from < 64,
        to < 64,
        flags < 4,
        promo < 4,
    ensures
        Move(move_bits(from, to, flags, promo)).spec_from() == from,
        Move(move_bits(from, to, flags, promo)).spec_to() == to,
        Move(move_bits(from, to, flags, promo)).spec_flags() == flags,
        Move(move_bits(from, to, flags, promo)).spec_promo() == promo,
{
    let f = from as u16;
    let t = to as u16;
    let fl = flags as u16;
    let p = promo as u16;
    assert(((f | (t << 6u16) | (fl << 12u16) | (p << 14u16)) & 63) == f) by (bit_vector)
        requires
            f < 64,
            t < 64,
            fl < 4,
            p < 4,
    ;
    assert((((f | (t << 6u16) | (fl << 12u16) | (p << 14u16)) >> 6u16) & 63) == t)
        by (bit_vector)
        requires
            f < 64,
            t < 64,
            fl < 4,
            p < 4,
    ;
    assert((((f | (t << 6u16) | (fl << 12u16) | (p << 14u16)) >> 12u16) & 3) == fl)
        by (bit_vector)
        requires
            f < 64,
            t < 64,
            fl < 4,
            p < 4,
    ;
    assert((((f | (t << 6u16) | (fl << 12u16) | (p << 14u16)) >> 14u16) & 3) == p)
        by (bit_vector)
        requires
            f < 64,
            t < 64,
            fl < 4,
            p < 4,
    ;
}

/// A move is determined by its four fields.
pub proof fn lemma_move_canonical(m: Move)
    ensures
        m.spec_from() < 64,
        m.spec_to() < 64,
        m.spec_flags() < 4,
        m.spec_promo() < 4,
        m.0 == move_bits(
            m.spec_from() as u8,
            m.spec_to() as u8,
            m.spec_flags() as u8,
            m.spec_promo() as u8,
        ),
{
    let x = m.0;
    assert(x & 63 < 64) by (bit_vector);
    assert((x >> 6u16) & 63 < 64) by (bit_vector);
    assert((x >> 12u16) & 3 < 4) by (bit_vector);
    assert((x >> 14u16) & 3 < 4) by (bit_vector);
    let f = (x & 63) as u8;
    let t = ((x >> 6u16) & 63) as u8;
    let fl = ((x >> 12u16) & 3) as u8;
    let p = ((x >> 14u16) & 3) as u8;
    assert(x == ((x & 63) | (((x >> 6u16) & 63) << 6u16) | (((x >> 12u16) & 3) << 12u16) | (((x
        >> 14u16) & 3) << 14u16))) by (bit_vector);
    assert(f as u16 == x & 63);
    assert(t as u16 == (x >> 6u16) & 63);
    assert(fl as u16 == (x >> 12u16) & 3);
    assert(p as u16 == (x >> 14u16) & 3);
}

/// The characters of a string, in order.
pub(crate) fn str_chars(s: &str) -> (v: Vec<char>)
    ensures
        v@ == s@,
{
    broadcast use vstd::string::axiom_spec_iter;
    let mut v: Vec<char> = Vec::new();
    for c in it: s.chars()
        invariant
            v@ == it.seq().take(it.index() as int),
            it.seq() == s@,
    {
        v.push(c);
    }
    v
}

/// Whether two character vectors hold the same text.
pub fn same_chars(a: &Vec<char>, b: &Vec<char>) -> (r: bool)
    ensures
        r == (a@ == b@),
{
    if a.len() != b.len() {
        return false;
    }
    let mut i: usize = 0;
    while i < a.len()
        invariant
            i <= a@.len(),
            a@.len() == b@.len(),
            forall|k: int| 0 <= k < i ==> a@[k] == b@[k],
        decreases a@.len() - i,
    {
        if a[i] != b[i] {
            return false;
        }
        i = i + 1;
    }
    proof {
        assert(a@ =~= b@);
    }
    true
}

/// Two moves with the same fields are the same move.
pub proof fn lemma_move_eq(a: Move, b: Move)
    requires
        a.spec_from() == b.spec_from(),
        a.spec_to() == b.spec_to(),
        a.spec_flags() == b.spec_flags(),
        a.spec_promo() == b.spec_promo(),
    ensures
        a == b,
{
    lemma_move_canonical(a);
    lemma_move_canonical(b);
}

/// Bitmask for castling rights: WK=1, WQ=2, BK=4, BQ=8.
#[derive(Copy, Clone, Debug, PartialEq, Eq, Structural)]
pub struct CastlingRights(pub u8);

impl CastlingRights {
    pub const WK: u8 = 1;

    pub const WQ: u8 = 2;

    pub const BK: u8 = 4;

    pub const BQ: u8 = 8;

    pub const ALL: u8 = 15;

    pub fn has(self, flag: u8) -> (b: bool)
        ensures
            b == (self.0 & flag != 0),
    {
        self.0 & flag != 0
    }

    pub fn remove(&mut self, flag: u8)
        ensures
            final(self).0 == old(self).0 & !flag,
    {
        self.0 = self.0 & !flag;
    }
}

} // verus!
