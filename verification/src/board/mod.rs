pub mod fen;
pub mod zobrist;
pub mod fen_proofs;


use vstd::prelude::*;

use crate::bitboard::{bit, bits_set, popcount, Bitboard, lemma_bit_and, lemma_bit_or, lemma_bit_not,
    lemma_bit_single};
use crate::types::{CastlingRights, Color, Move, Piece, Square, promo_piece_of, same_chars, str_chars};
use crate::movegen::{crowded, in_check_on, is_square_attacked, lemma_king_lsb, gen_ready, legal_move,
    generate_moves};
use self::zobrist::{
    key_of, kinds_fold, lemma_kinds_fold_toggle, lemma_kinds_fold_same, lemma_xor, lemma_xor_swap,
    sq_fold, lemma_sq_fold_skip, CASTLING_KEYS, EN_PASSANT_KEYS, SIDE_KEY,
};

verus! {

#[derive(Debug, PartialEq, Eq, Structural)]
pub enum FenError {
    InvalidFormat,
    InvalidPiecePlacement,
    InvalidSideToMove,
    InvalidCastlingRights,
    InvalidEnPassant,
    InvalidClocks,
}

/// Index of (colour, piece) in the piece-bitboard table.
pub open spec fn kind(c: Color, p: Piece) -> int {
    c.idx() * 6 + p.idx()
}

/// Colour of piece-table index `k`.
pub open spec fn color_of_kind(k: int) -> Color {
    if k < 6 {
        Color::White
    } else {
        Color::Black
    }
}

/// Piece of piece-table index `k`.
pub open spec fn piece_of_kind(k: int) -> Piece {
    Piece::from_idx(k % 6)
}

/// Hash contribution of an en-passant square.
pub open spec fn ep_hash(ep: Option<Square>) -> u64 {
    match ep {
        Some(s) => EN_PASSANT_KEYS@[s.0 as int % 8],
        None => 0,
    }
}

/// Hash contribution of the side to move.
pub open spec fn side_hash(c: Color) -> u64 {
    match c {
        Color::White => 0,
        Color::Black => SIDE_KEY,
    }
}

/// Square of the pawn taken by an en-passant move from `from` to `to`.
pub open spec fn ep_victim(from: int, to: int) -> int {
    (from / 8) * 8 + to % 8
}

/// Rook origin of a castling move with king target `to`.
pub open spec fn rook_from_of(to: int) -> int {
    if to == 6 {
        7
    } else if to == 2 {
        0
    } else if to == 62 {
        63
    } else {
        56
    }
}

/// Rook destination of a castling move with king target `to`.
pub open spec fn rook_to_of(to: int) -> int {
    if to == 6 {
        5
    } else if to == 2 {
        3
    } else if to == 62 {
        61
    } else {
        59
    }
}

/// The twelve piece bitboards as words.
pub open spec fn bbs_of(pb: [Bitboard; 12]) -> Seq<u64> {
    Seq::new(12, |k: int| pb[k].0)
}

/// First piece-table index at or after `k` whose bitboard holds `s` (12 if none).
pub open spec fn first_kind_in(pb: [Bitboard; 12], s: int, k: int) -> int
    decreases 12 - k,
{
    if k >= 12 {
        12
    } else if bit(pb[k].0, s) {
        k
    } else {
        first_kind_in(pb, s, k + 1)
    }
}

/// The piece standing on square `s` of the piece bitboards `pb`.
pub open spec fn piece_on_in(pb: [Bitboard; 12], s: int) -> Option<(Color, Piece)> {
    let k = first_kind_in(pb, s, 0);
    if k < 12 {
        Some((color_of_kind(k), piece_of_kind(k)))
    } else {
        None
    }
}

/// Whether some piece bitboard of colour index `c` holds `s`.
pub open spec fn any_of_color_in(pb: [Bitboard; 12], c: int, s: int) -> bool {
    bit(pb[c * 6].0, s) || bit(pb[c * 6 + 1].0, s) || bit(pb[c * 6 + 2].0, s) || bit(
        pb[c * 6 + 3].0,
        s,
    ) || bit(pb[c * 6 + 4].0, s) || bit(pb[c * 6 + 5].0, s)
}

/// No square is in two piece bitboards, and each colour bitboard is the
/// union of that colour's piece bitboards.
#[verifier::opaque]
pub open spec fn placement_ok_in(pb: [Bitboard; 12], cb: [Bitboard; 2]) -> bool {
    &&& forall|s: int, i: int, j: int|
        0 <= s < 64 && 0 <= i < 12 && 0 <= j < 12 && i != j && #[trigger] bit(pb[i].0, s)
            ==> !#[trigger] bit(pb[j].0, s)
    &&& forall|c: int, s: int|
        0 <= c < 2 && 0 <= s < 64 ==> (#[trigger] bit(cb[c].0, s) == any_of_color_in(pb, c, s))
}

/// Full board state: 12 piece bitboards, 2 color occupancy bitboards, side to
/// move, castling rights, en-passant square, clocks, and Zobrist hash.
///
/// Indexed as `piece_bb[color * 6 + piece]`.
#[derive(Copy, Clone, Debug, PartialEq, Eq)]
pub struct Position {
    piece_bb: [Bitboard; 12],
    color_bb: [Bitboard; 2],
    side: Color,
    castling: CastlingRights,
    en_passant: Option<Square>,
    halfmove_clock: u32,
    fullmove_number: u32,
    hash: u64,
}

impl Position {
    // -----------------------------------------------------------------------
    // Model
    // -----------------------------------------------------------------------
    /// The piece bitboards.
    pub closed spec fn pbb(self) -> [Bitboard; 12] {
        self.piece_bb
    }

    /// The colour occupancy bitboards.
    pub closed spec fn cbb(self) -> [Bitboard; 2] {
        self.color_bb
    }

    /// Bitboard of piece-table index `k`.
    #[verifier::inline]
    pub open spec fn bb(self, k: int) -> u64 {
        self.pbb()[k].0
    }

    /// Occupancy bitboard of colour index `c`.
    #[verifier::inline]
    pub open spec fn occ_of(self, c: int) -> u64 {
        self.cbb()[c].0
    }

    pub closed spec fn spec_side(self) -> Color {
        self.side
    }

    pub closed spec fn spec_castling(self) -> u8 {
        self.castling.0
    }

    pub closed spec fn spec_ep(self) -> Option<Square> {
        self.en_passant
    }

    pub closed spec fn spec_halfmove(self) -> u32 {
        self.halfmove_clock
    }

    pub closed spec fn spec_fullmove(self) -> u32 {
        self.fullmove_number
    }

    pub closed spec fn spec_hash(self) -> u64 {
        self.hash
    }

    /// The twelve piece bitboards.
    #[verifier::inline]
    pub open spec fn bbs(self) -> Seq<u64> {
        bbs_of(self.pbb())
    }

    /// First piece-table index at or after `k` whose bitboard holds `s` (12 if none).
    #[verifier::inline]
    pub open spec fn first_kind(self, s: int, k: int) -> int {
        first_kind_in(self.pbb(), s, k)
    }

    /// The piece standing on square `s`.
    #[verifier::inline]
    pub open spec fn piece_on(self, s: int) -> Option<(Color, Piece)> {
        piece_on_in(self.pbb(), s)
    }

    /// The 64 squares of the board.
    pub open spec fn board(self) -> Seq<Option<(Color, Piece)>> {
        Seq::new(64, |s: int| self.piece_on(s))
    }

    /// The 64 squares of the board after `mv`.
    pub open spec fn board_after(self, mv: Move) -> Seq<Option<(Color, Piece)>> {
        Seq::new(64, |s: int| self.placement_after(mv, s))
    }

    /// The occupied squares.
    pub open spec fn occupied(self) -> Set<int> {
        Set::new(|s: int| 0 <= s < 64 && self.piece_on(s) is Some)
    }

    /// Whether a piece of colour `c` stands on `s`.
    pub open spec fn owned_by(self, s: int, c: Color) -> bool {
        match self.piece_on(s) {
            Some((c2, _)) => c2 == c,
            None => false,
        }
    }

    /// Whether some piece bitboard of colour index `c` holds `s`.
    #[verifier::inline]
    pub open spec fn any_of_color(self, c: int, s: int) -> bool {
        any_of_color_in(self.pbb(), c, s)
    }

    /// No square is in two piece bitboards, and each colour bitboard is the
    /// union of that colour's piece bitboards.
    #[verifier::inline]
    pub open spec fn placement_ok(self) -> bool {
        placement_ok_in(self.pbb(), self.cbb())
    }

    /// The Zobrist hash of the position, computed from scratch.
    #[verifier::opaque]
    pub open spec fn hash_spec(self) -> u64 {
        ((kinds_fold(self.bbs(), 12) ^ CASTLING_KEYS@[self.spec_castling() as int]) ^ ep_hash(
            self.spec_ep(),
        )) ^ side_hash(self.spec_side())
    }

    /// Well-formedness: consistent bitboards, castling rights and en-passant
    /// square in range, and the stored hash equal to the hash from scratch.
    pub open spec fn wf(self) -> bool {
        &&& self.placement_ok()
        &&& self.spec_castling() < 16
        &&& (self.spec_ep() matches Some(e) ==> e.0 < 64)
        &&& self.spec_hash() == self.hash_spec()
    }

    /// The piece kind a move moves.
    pub open spec fn moving_piece(self, mv: Move) -> Piece {
        self.piece_on(mv.spec_from() as int)->Some_0.1
    }

    /// `mv` is pseudo-legal here in the sense `make_move` needs: the mover
    /// owns the from-square, captures only enemy pieces, en-passant takes an
    /// enemy pawn, castling moves king and rook onto empty squares, and the
    /// clocks do not overflow.
    pub open spec fn move_ok(self, mv: Move) -> bool {
        let from = mv.spec_from() as int;
        let to = mv.spec_to() as int;
        let us = self.spec_side();
        let flags = mv.spec_flags();
        let moving = self.moving_piece(mv);
        &&& self.owned_by(from, us)
        &&& from != to
        &&& !self.owned_by(to, us)
        &&& flags == 1 ==> moving == Piece::Pawn
        &&& flags == 2 ==> {
            &&& moving == Piece::Pawn
            &&& self.piece_on(to) is None
            &&& self.piece_on(ep_victim(from, to)) == Some((us.spec_opposite(), Piece::Pawn))
        }
        &&& flags == 3 ==> {
            &&& moving == Piece::King
            &&& (to == 6 || to == 2 || to == 62 || to == 58)
            &&& self.piece_on(to) is None
            &&& self.piece_on(rook_from_of(to)) == Some((us, Piece::Rook))
            &&& self.piece_on(rook_to_of(to)) is None
        }
        &&& self.spec_halfmove() < u32::MAX
        &&& (us == Color::Black ==> self.spec_fullmove() < u32::MAX)
    }

    /// The piece on `s` after `mv` is made.
    pub open spec fn placement_after(self, mv: Move, s: int) -> Option<(Color, Piece)> {
        let from = mv.spec_from() as int;
        let to = mv.spec_to() as int;
        let us = self.spec_side();
        let flags = mv.spec_flags();
        if s == from {
            None
        } else if s == to {
            if flags == 1 {
                Some((us, promo_piece_of(mv.spec_promo())))
            } else {
                Some((us, self.moving_piece(mv)))
            }
        } else if flags == 2 && s == ep_victim(from, to) {
            None
        } else if flags == 3 && s == rook_from_of(to) {
            None
        } else if flags == 3 && s == rook_to_of(to) {
            Some((us, Piece::Rook))
        } else {
            self.piece_on(s)
        }
    }

    /// Castling rights after `mv` (see `castling_update`).
    pub open spec fn castling_after(self, mv: Move) -> u8 {
        castling_update(
            self.spec_castling(),
            mv.spec_from() as int,
            mv.spec_to() as int,
            self.moving_piece(mv),
            self.spec_side(),
        )
    }

    /// En-passant square after `mv`: the square passed over by a double
    /// pawn push, otherwise none.
    pub open spec fn ep_after(self, mv: Move) -> Option<Square> {
        let from = mv.spec_from() as int;
        let to = mv.spec_to() as int;
        if mv.spec_flags() == 0 && self.moving_piece(mv) == Piece::Pawn && to / 8 - from / 8 == 2 {
            Some(Square((from + 8) as u8))
        } else if mv.spec_flags() == 0 && self.moving_piece(mv) == Piece::Pawn && to / 8 - from
            / 8 == -2 {
            Some(Square((from - 8) as u8))
        } else {
            None
        }
    }

    /// Halfmove clock after `mv`: reset by captures, pawn moves and
    /// promotions, otherwise incremented.
    pub open spec fn halfmove_after(self, mv: Move) -> u32 {
        let flags = mv.spec_flags();
        if flags == 1 || flags == 2 {
            0
        } else if flags == 0 && (self.piece_on(mv.spec_to() as int) is Some || self.moving_piece(mv)
            == Piece::Pawn) {
            0
        } else {
            (self.spec_halfmove() + 1) as u32
        }
    }

    // -----------------------------------------------------------------------
    // Model lemmas
    // -----------------------------------------------------------------------
    #[verifier::spinoff_prover]
    proof fn lemma_first_kind_none(self, s: int, k: int)
        requires
            0 <= k <= 12,
            forall|j: int| k <= j < 12 ==> !bit(self.bb(j), s),
        ensures
            self.first_kind(s, k) == 12,
        decreases 12 - k,
    {
        if k < 12 {
            self.lemma_first_kind_none(s, k + 1);
            assert(!bit(self.bb(k), s));
        }
    }

    #[verifier::spinoff_prover]
    proof fn lemma_first_kind_at(self, s: int, k: int, owner: int)
        requires
            0 <= k <= owner < 12,
            bit(self.bb(owner), s),
            forall|j: int| k <= j < owner ==> !bit(self.bb(j), s),
        ensures
            self.first_kind(s, k) == owner,
        decreases owner - k,
    {
        if k < owner {
            self.lemma_first_kind_at(s, k + 1, owner);
            assert(!bit(self.bb(k), s));
        }
    }

    #[verifier::spinoff_prover]
    proof fn lemma_first_kind_same(self, other: Position, s: int, k: int)
        requires
            0 <= k <= 12,
            forall|j: int| k <= j < 12 ==> bit(self.bb(j), s) == bit(other.bb(j), s),
        ensures
            self.first_kind(s, k) == other.first_kind(s, k),
        decreases 12 - k,
    {
        if k < 12 {
            self.lemma_first_kind_same(other, s, k + 1);
            assert(bit(self.bb(k), s) == bit(other.bb(k), s));
        }
    }

    #[verifier::spinoff_prover]
    proof fn lemma_first_kind_range(self, s: int, k: int)
        requires
            0 <= k <= 12,
        ensures
            k <= self.first_kind(s, k) <= 12,
            self.first_kind(s, k) < 12 ==> bit(self.bb(self.first_kind(s, k)), s),
            forall|j: int| k <= j < self.first_kind(s, k) ==> !bit(self.bb(j), s),
        decreases 12 - k,
    {
        if k < 12 {
            self.lemma_first_kind_range(s, k + 1);
        }
    }

    /// Two well-formed positions with the same board, side to move, castling
    /// rights, en-passant square and clocks are the same position.
    pub proof fn lemma_fields_determine(self, other: Position)
        requires
            self.wf(),
            other.wf(),
            self.board() == other.board(),
            self.spec_side() == other.spec_side(),
            self.spec_castling() == other.spec_castling(),
            self.spec_ep() == other.spec_ep(),
            self.spec_halfmove() == other.spec_halfmove(),
            self.spec_fullmove() == other.spec_fullmove(),
        ensures
            self == other,
    {
        assert forall|k: int| 0 <= k < 12 implies self.piece_bb[k] == other.piece_bb[k] by {
            let c = color_of_kind(k);
            let pc = piece_of_kind(k);
            assert(kind(c, pc) == k);
            assert forall|s: int| 0 <= s < 64 implies bit(self.bb(k), s) == bit(other.bb(k), s) by {
                self.lemma_piece_on_kind(s, c, pc);
                other.lemma_piece_on_kind(s, c, pc);
                assert(self.board()[s] == other.board()[s]);
            }
            crate::bitboard::lemma_bits_ext(self.bb(k), other.bb(k));
        }
        assert(self.piece_bb =~= other.piece_bb);
        reveal(placement_ok_in);
        assert forall|c: int| 0 <= c < 2 implies self.color_bb[c] == other.color_bb[c] by {
            assert forall|s: int| 0 <= s < 64 implies bit(self.color_bb[c].0, s) == bit(other.color_bb[c].0, s) by {
                assert(bit(self.cbb()[c].0, s) == any_of_color_in(self.pbb(), c, s));
                assert(bit(other.cbb()[c].0, s) == any_of_color_in(other.pbb(), c, s));
            }
            crate::bitboard::lemma_bits_ext(self.color_bb[c].0, other.color_bb[c].0);
        }
        assert(self.color_bb =~= other.color_bb);
        assert(self.bbs() =~= other.bbs());
        reveal(Position::hash_spec);
        assert(self.hash == other.hash);
    }

    /// The Zobrist hash ignores the clocks: two well-formed positions with the
    /// same board, side to move, castling rights and en-passant square have
    /// the same hash.
    pub proof fn lemma_hash_ignores_clocks(self, other: Position)
        requires
            self.wf(),
            other.wf(),
            self.board() == other.board(),
            self.spec_side() == other.spec_side(),
            self.spec_castling() == other.spec_castling(),
            self.spec_ep() == other.spec_ep(),
        ensures
            self.hash_spec() == other.hash_spec(),
            self.spec_hash() == other.spec_hash(),
    {
        assert forall|k: int| 0 <= k < 12 implies self.piece_bb[k] == other.piece_bb[k] by {
            let c = color_of_kind(k);
            let pc = piece_of_kind(k);
            assert(kind(c, pc) == k);
            assert forall|s: int| 0 <= s < 64 implies bit(self.bb(k), s) == bit(other.bb(k), s) by {
                self.lemma_piece_on_kind(s, c, pc);
                other.lemma_piece_on_kind(s, c, pc);
                assert(self.board()[s] == other.board()[s]);
            }
            crate::bitboard::lemma_bits_ext(self.bb(k), other.bb(k));
        }
        assert(self.piece_bb =~= other.piece_bb);
        assert(self.bbs() =~= other.bbs());
        reveal(Position::hash_spec);
    }

    /// Under a consistent placement, the piece on `s` is the one whose
    /// bitboard holds `s`.
    #[verifier::spinoff_prover]
    pub proof fn lemma_piece_on_kind(self, s: int, c: Color, p: Piece)
        requires
            self.placement_ok(),
            0 <= s < 64,
        ensures
            self.piece_on(s) == Some((c, p)) <==> bit(self.bb(kind(c, p)), s),
    {
        reveal(placement_ok_in);
        let k = kind(c, p);
        self.lemma_first_kind_range(s, 0);
        if bit(self.bb(k), s) {
            assert forall|j: int| 0 <= j < k implies !bit(self.bb(j), s) by {
                assert(bit(self.bb(k), s));
            }
            self.lemma_first_kind_at(s, 0, k);
        }
        let f = self.first_kind(s, 0);
        if f < 12 && color_of_kind(f) == c && piece_of_kind(f) == p {
            assert(f == k);
        }
    }

    /// Under a consistent placement, a square is empty exactly when no
    /// bitboard holds it.
    #[verifier::spinoff_prover]
    pub proof fn lemma_piece_on_none(self, s: int)
        requires
            0 <= s < 64,
        ensures
            self.piece_on(s) is None <==> forall|j: int| 0 <= j < 12 ==> !bit(self.bb(j), s),
    {
        self.lemma_first_kind_range(s, 0);
        if forall|j: int| 0 <= j < 12 ==> !bit(self.bb(j), s) {
            self.lemma_first_kind_none(s, 0);
        }
    }

    /// A colour bitboard holds `s` exactly when a piece of that colour stands there.
    #[verifier::spinoff_prover]
    pub proof fn lemma_occ_owned(self, s: int, c: Color)
        requires
            self.placement_ok(),
            0 <= s < 64,
        ensures
            bit(self.occ_of(c.idx()), s) == self.owned_by(s, c),
    {
        reveal(placement_ok_in);
        self.lemma_first_kind_range(s, 0);
        let f = self.first_kind(s, 0);
        assert(bit(self.occ_of(c.idx()), s) == self.any_of_color(c.idx(), s));
        if f < 12 {
            assert(bit(self.bb(f), s));
            if color_of_kind(f) == c {
                assert(self.any_of_color(c.idx(), s));
            } else {
                assert forall|j: int| 0 <= j < 12 && j != f implies !bit(self.bb(j), s) by {
                    assert(bit(self.bb(f), s));
                }
            }
        } else {
            assert(!bit(self.bb(c.idx() * 6), s));
            assert(!bit(self.bb(c.idx() * 6 + 1), s));
            assert(!bit(self.bb(c.idx() * 6 + 2), s));
            assert(!bit(self.bb(c.idx() * 6 + 3), s));
            assert(!bit(self.bb(c.idx() * 6 + 4), s));
            assert(!bit(self.bb(c.idx() * 6 + 5), s));
        }
    }

    // -----------------------------------------------------------------------
    // Placement primitives
    // -----------------------------------------------------------------------
    /// `any_of_color` only depends on the bits at `s`.
    #[verifier::spinoff_prover]
    proof fn lemma_any_of_color_eq(self, other: Position, c: int, s: int)
        requires
            0 <= c < 2,
            forall|j: int| 0 <= j < 12 ==> bit(self.bb(j), s) == bit(other.bb(j), s),
        ensures
            self.any_of_color(c, s) == other.any_of_color(c, s),
    {
        assert(bit(self.bb(c * 6), s) == bit(other.bb(c * 6), s));
        assert(bit(self.bb(c * 6 + 1), s) == bit(other.bb(c * 6 + 1), s));
        assert(bit(self.bb(c * 6 + 2), s) == bit(other.bb(c * 6 + 2), s));
        assert(bit(self.bb(c * 6 + 3), s) == bit(other.bb(c * 6 + 3), s));
        assert(bit(self.bb(c * 6 + 4), s) == bit(other.bb(c * 6 + 4), s));
        assert(bit(self.bb(c * 6 + 5), s) == bit(other.bb(c * 6 + 5), s));
    }

    /// With no bitboard holding `s`, no colour holds it.
    #[verifier::spinoff_prover]
    proof fn lemma_any_of_color_none(self, c: int, s: int)
        requires
            0 <= c < 2,
            forall|j: int| 0 <= j < 12 ==> !bit(self.bb(j), s),
        ensures
            !self.any_of_color(c, s),
    {
        assert(!bit(self.bb(c * 6), s));
        assert(!bit(self.bb(c * 6 + 1), s));
        assert(!bit(self.bb(c * 6 + 2), s));
        assert(!bit(self.bb(c * 6 + 3), s));
        assert(!bit(self.bb(c * 6 + 4), s));
        assert(!bit(self.bb(c * 6 + 5), s));
    }

    /// With only bitboard `k` holding `s`, exactly the colour of `k` holds it.
    #[verifier::spinoff_prover]
    proof fn lemma_any_of_color_one(self, c: int, s: int, k: int)
        requires
            0 <= c < 2,
            0 <= k < 12,
            bit(self.bb(k), s),
            forall|j: int| 0 <= j < 12 && j != k ==> !bit(self.bb(j), s),
        ensures
            self.any_of_color(c, s) == (c * 6 <= k < c * 6 + 6),
    {
        assert(bit(self.bb(c * 6), s) == (k == c * 6));
        assert(bit(self.bb(c * 6 + 1), s) == (k == c * 6 + 1));
        assert(bit(self.bb(c * 6 + 2), s) == (k == c * 6 + 2));
        assert(bit(self.bb(c * 6 + 3), s) == (k == c * 6 + 3));
        assert(bit(self.bb(c * 6 + 4), s) == (k == c * 6 + 4));
        assert(bit(self.bb(c * 6 + 5), s) == (k == c * 6 + 5));
    }

    /// Removes piece `(c, p)` from `sq` and updates the hash.
    #[verifier::spinoff_prover]
    fn remove_piece(&mut self, c: Color, p: Piece, sq: Square)
        requires
            old(self).placement_ok(),
            sq.0 < 64,
            old(self).piece_on(sq.0 as int) == Some((c, p)),
        ensures
            final(self).placement_ok(),
            forall|s: int|
                0 <= s < 64 ==> #[trigger] final(self).piece_on(s) == (if s == sq.0 {
                    None
                } else {
                    old(self).piece_on(s)
                }),
            kinds_fold(final(self).bbs(), 12) == kinds_fold(old(self).bbs(), 12) ^ key_of(
                kind(c, p),
                sq.0 as int,
            ),
            final(self).hash == old(self).hash ^ key_of(kind(c, p), sq.0 as int),
            final(self).side == old(self).side,
            final(self).castling == old(self).castling,
            final(self).en_passant == old(self).en_passant,
            final(self).halfmove_clock == old(self).halfmove_clock,
            final(self).fullmove_number == old(self).fullmove_number,
    {
        let ghost pre = *self;
        let k = c.index() * 6 + p.index();
        let ci = c.index();
        proof {
            pre.lemma_piece_on_kind(sq.0 as int, c, p);
            reveal(placement_ok_in);
        }
        let mut b = self.piece_bb[k];
        b.clear(sq);
        self.piece_bb[k] = b;
        let mut o = self.color_bb[ci];
        o.clear(sq);
        self.color_bb[ci] = o;
        self.hash = self.hash ^ zobrist::piece_key(c, p, sq);
        proof {
            reveal(placement_ok_in);
            let post = *self;
            let t = sq.0 as int;
            assert forall|s: int| 0 <= s < 64 implies bit(post.bb(k as int), s) == (s != t && bit(
                pre.bb(k as int),
                s,
            )) by {
                assert(bits_set(post.bb(k as int)) == bits_set(pre.bb(k as int)).remove(t));
                assert(bits_set(post.bb(k as int)).contains(s) == bit(post.bb(k as int), s));
            }
            assert forall|s: int| 0 <= s < 64 implies bit(post.occ_of(ci as int), s) == (s != t
                && bit(pre.occ_of(ci as int), s)) by {
                assert(bits_set(post.occ_of(ci as int)) == bits_set(pre.occ_of(ci as int)).remove(
                    t,
                ));
                assert(bits_set(post.occ_of(ci as int)).contains(s) == bit(
                    post.occ_of(ci as int),
                    s,
                ));
            }
            assert forall|j: int| 0 <= j < 12 && j != k implies post.bb(j) == pre.bb(j) by {}
            // placement stays consistent
            assert forall|s: int, i: int, j: int|
                0 <= s < 64 && 0 <= i < 12 && 0 <= j < 12 && i != j && #[trigger] bit(
                    post.bb(i),
                    s,
                ) implies !#[trigger] bit(post.bb(j), s) by {
                assert(bit(pre.bb(i), s));
            }
            assert forall|cc: int, s: int| 0 <= cc < 2 && 0 <= s < 64 implies (#[trigger] bit(
                post.occ_of(cc),
                s,
            ) == post.any_of_color(cc, s)) by {
                assert(bit(pre.occ_of(cc), s) == pre.any_of_color(cc, s));
                if cc != ci {
                    assert(post.occ_of(cc) == pre.occ_of(cc));
                }
                if s == t {
                    assert forall|j: int| 0 <= j < 12 implies !bit(post.bb(j), s) by {
                        if j != k {
                            assert(bit(pre.bb(k as int), s));
                        }
                    }
                    post.lemma_any_of_color_none(cc, s);
                    assert forall|j: int| 0 <= j < 12 && j != k implies !bit(pre.bb(j), s) by {
                        assert(bit(pre.bb(k as int), s));
                    }
                    pre.lemma_any_of_color_one(cc, s, k as int);
                } else {
                    assert forall|j: int| 0 <= j < 12 implies bit(post.bb(j), s) == bit(pre.bb(j), s) by {}
                    post.lemma_any_of_color_eq(pre, cc, s);
                }
            }
            // the board view
            assert forall|s: int| 0 <= s < 64 implies #[trigger] post.piece_on(s) == (if s == t {
                None
            } else {
                pre.piece_on(s)
            }) by {
                if s == t {
                    assert forall|j: int| 0 <= j < 12 implies !bit(post.bb(j), s) by {
                        if j != k {
                            assert(bit(pre.bb(k as int), s));
                        }
                    }
                    post.lemma_first_kind_none(s, 0);
                } else {
                    post.lemma_first_kind_same(pre, s, 0);
                }
            }
            // the hash fold
            assert(pre.bbs()[k as int] == pre.bb(k as int));
            assert(post.bbs()[k as int] == post.bb(k as int));
            assert(bit(pre.bbs()[k as int], t) != bit(post.bbs()[k as int], t));
            assert forall|x: int| 0 <= x < 12 && x != k implies pre.bbs()[x] == post.bbs()[x] by {
                assert(pre.bbs()[x] == pre.bb(x));
                assert(post.bbs()[x] == post.bb(x));
            }
            lemma_kinds_fold_toggle(pre.bbs(), post.bbs(), k as int, t, 12);
            assert(post.placement_ok());
        }
    }

    /// Puts piece `(c, p)` on the empty square `sq` and updates the hash.
    #[verifier::spinoff_prover]
    fn put_piece(&mut self, c: Color, p: Piece, sq: Square)
        requires
            old(self).placement_ok(),
            sq.0 < 64,
            old(self).piece_on(sq.0 as int) is None,
        ensures
            final(self).placement_ok(),
            forall|s: int|
                0 <= s < 64 ==> #[trigger] final(self).piece_on(s) == (if s == sq.0 {
                    Some((c, p))
                } else {
                    old(self).piece_on(s)
                }),
            kinds_fold(final(self).bbs(), 12) == kinds_fold(old(self).bbs(), 12) ^ key_of(
                kind(c, p),
                sq.0 as int,
            ),
            final(self).hash == old(self).hash ^ key_of(kind(c, p), sq.0 as int),
            final(self).side == old(self).side,
            final(self).castling == old(self).castling,
            final(self).en_passant == old(self).en_passant,
            final(self).halfmove_clock == old(self).halfmove_clock,
            final(self).fullmove_number == old(self).fullmove_number,
    {
        let ghost pre = *self;
        let k = c.index() * 6 + p.index();
        let ci = c.index();
        proof {
            pre.lemma_piece_on_none(sq.0 as int);
        }
        let mut b = self.piece_bb[k];
        b.set(sq);
        self.piece_bb[k] = b;
        let mut o = self.color_bb[ci];
        o.set(sq);
        self.color_bb[ci] = o;
        self.hash = self.hash ^ zobrist::piece_key(c, p, sq);
        proof {
            reveal(placement_ok_in);
            let post = *self;
            let t = sq.0 as int;
            assert forall|s: int| 0 <= s < 64 implies bit(post.bb(k as int), s) == (s == t || bit(
                pre.bb(k as int),
                s,
            )) by {
                assert(bits_set(post.bb(k as int)) == bits_set(pre.bb(k as int)).insert(t));
                assert(bits_set(post.bb(k as int)).contains(s) == bit(post.bb(k as int), s));
            }
            assert forall|s: int| 0 <= s < 64 implies bit(post.occ_of(ci as int), s) == (s == t
                || bit(pre.occ_of(ci as int), s)) by {
                assert(bits_set(post.occ_of(ci as int)) == bits_set(pre.occ_of(ci as int)).insert(
                    t,
                ));
                assert(bits_set(post.occ_of(ci as int)).contains(s) == bit(
                    post.occ_of(ci as int),
                    s,
                ));
            }
            assert forall|j: int| 0 <= j < 12 && j != k implies post.bb(j) == pre.bb(j) by {}
            assert(forall|j: int| 0 <= j < 12 ==> !bit(pre.bb(j), t));
            assert forall|s: int, i: int, j: int|
                0 <= s < 64 && 0 <= i < 12 && 0 <= j < 12 && i != j && #[trigger] bit(
                    post.bb(i),
                    s,
                ) implies !#[trigger] bit(post.bb(j), s) by {
                if s != t {
                    assert(bit(pre.bb(i), s));
                }
            }
            assert forall|cc: int, s: int| 0 <= cc < 2 && 0 <= s < 64 implies (#[trigger] bit(
                post.occ_of(cc),
                s,
            ) == post.any_of_color(cc, s)) by {
                assert(bit(pre.occ_of(cc), s) == pre.any_of_color(cc, s));
                if cc != ci {
                    assert(post.occ_of(cc) == pre.occ_of(cc));
                }
                if s == t {
                    pre.lemma_any_of_color_none(cc, s);
                    assert forall|j: int| 0 <= j < 12 && j != k implies !bit(post.bb(j), s) by {}
                    post.lemma_any_of_color_one(cc, s, k as int);
                } else {
                    assert forall|j: int| 0 <= j < 12 implies bit(post.bb(j), s) == bit(pre.bb(j), s) by {}
                    post.lemma_any_of_color_eq(pre, cc, s);
                }
            }
            assert forall|s: int| 0 <= s < 64 implies #[trigger] post.piece_on(s) == (if s == t {
                Some((c, p))
            } else {
                pre.piece_on(s)
            }) by {
                if s == t {
                    assert forall|j: int| 0 <= j < k implies !bit(post.bb(j), s) by {}
                    post.lemma_first_kind_at(s, 0, k as int);
                    assert(k as int % 6 == p.idx());
                } else {
                    post.lemma_first_kind_same(pre, s, 0);
                }
            }
            assert(pre.bbs()[k as int] == pre.bb(k as int));
            assert(post.bbs()[k as int] == post.bb(k as int));
            assert(bit(pre.bbs()[k as int], t) != bit(post.bbs()[k as int], t));
            assert forall|x: int| 0 <= x < 12 && x != k implies pre.bbs()[x] == post.bbs()[x] by {
                assert(pre.bbs()[x] == pre.bb(x));
                assert(post.bbs()[x] == post.bb(x));
            }
            lemma_kinds_fold_toggle(pre.bbs(), post.bbs(), k as int, t, 12);
            assert(post.placement_ok());
        }
    }
}


/// The number of pieces `(c, p)` (set bits of its bitboard).
pub open spec fn piece_count(pos: Position, c: Color, p: Piece) -> nat {
    popcount(pos.bb(kind(c, p)))
}

/// Neither side can mate: no pawns, rooks or queens, and at most one
/// knight or bishop on the board.
pub open spec fn insufficient_material(pos: Position) -> bool {
    &&& piece_count(pos, Color::White, Piece::Pawn) + piece_count(pos, Color::Black, Piece::Pawn)
        + piece_count(pos, Color::White, Piece::Rook) + piece_count(pos, Color::Black, Piece::Rook)
        + piece_count(pos, Color::White, Piece::Queen) + piece_count(pos, Color::Black, Piece::Queen) == 0
    &&& piece_count(pos, Color::White, Piece::Knight) + piece_count(pos, Color::Black, Piece::Knight)
        + piece_count(pos, Color::White, Piece::Bishop) + piece_count(pos, Color::Black, Piece::Bishop) <= 1
}

/// Castling rights `c0` after `moving` of colour `us` goes from `from` to
/// `to`: a king move drops both rights of its side; moving from or onto a
/// rook corner drops that corner's right.
pub open spec fn castling_update(c0: u8, from: int, to: int, moving: Piece, us: Color) -> u8 {
    let c1 = if moving == Piece::King {
        if us == Color::White {
            c0 & !(CastlingRights::WK | CastlingRights::WQ)
        } else {
            c0 & !(CastlingRights::BK | CastlingRights::BQ)
        }
    } else {
        c0
    };
    let c2 = if from == 0 || to == 0 {
        c1 & !CastlingRights::WQ
    } else {
        c1
    };
    let c3 = if from == 7 || to == 7 {
        c2 & !CastlingRights::WK
    } else {
        c2
    };
    let c4 = if from == 56 || to == 56 {
        c3 & !CastlingRights::BQ
    } else {
        c3
    };
    if from == 63 || to == 63 {
        c4 & !CastlingRights::BK
    } else {
        c4
    }
}

/// The bit steps of a castling-right update: clearing a king's two rights,
/// then each corner's right in turn.
proof fn lemma_rights_bits(
    c0: u8,
    c1: u8,
    c2: u8,
    c3: u8,
    c4: u8,
    c5: u8,
    kw: bool,
    kb: bool,
    t0: bool,
    t7: bool,
    t56: bool,
    t63: bool,
)
    by (bit_vector)
    requires
        !(kw && kb),
        c1 == (if kw {
            c0 & !3u8
        } else if kb {
            c0 & !12u8
        } else {
            c0
        }),
        c2 == (if t0 { c1 & !2u8 } else { c1 }),
        c3 == (if t7 { c2 & !1u8 } else { c2 }),
        c4 == (if t56 { c3 & !8u8 } else { c3 }),
        c5 == (if t63 { c4 & !4u8 } else { c4 }),
    ensures
        c5 & !c0 == 0,
        c5 & 2u8 == (if t0 || kw { 0u8 } else { c0 & 2u8 }),
        c5 & 1u8 == (if t7 || kw { 0u8 } else { c0 & 1u8 }),
        c5 & 8u8 == (if t56 || kb { 0u8 } else { c0 & 8u8 }),
        c5 & 4u8 == (if t63 || kb { 0u8 } else { c0 & 4u8 }),
{
}

/// The castling rights a move leaves. Each right is that of a rook corner
/// (a1: white queenside, h1: white kingside, a8: black queenside, h8: black
/// kingside). A right is lost when a move leaves or lands on its corner (the
/// rook moves or is captured) or when its side's king moves; otherwise it is
/// kept as it was. No right is ever gained.
pub proof fn lemma_castling_rights_after(c0: u8, from: int, to: int, moving: Piece, us: Color)
    ensures
        castling_update(c0, from, to, moving, us) & !c0 == 0,
        castling_update(c0, from, to, moving, us) & CastlingRights::WQ == (if from == 0 || to == 0 || (
        moving == Piece::King && us == Color::White) {
            0u8
        } else {
            c0 & CastlingRights::WQ
        }),
        castling_update(c0, from, to, moving, us) & CastlingRights::WK == (if from == 7 || to == 7 || (
        moving == Piece::King && us == Color::White) {
            0u8
        } else {
            c0 & CastlingRights::WK
        }),
        castling_update(c0, from, to, moving, us) & CastlingRights::BQ == (if from == 56 || to == 56 || (
        moving == Piece::King && us == Color::Black) {
            0u8
        } else {
            c0 & CastlingRights::BQ
        }),
        castling_update(c0, from, to, moving, us) & CastlingRights::BK == (if from == 63 || to == 63 || (
        moving == Piece::King && us == Color::Black) {
            0u8
        } else {
            c0 & CastlingRights::BK
        }),
{
    let kw = moving == Piece::King && us == Color::White;
    let kb = moving == Piece::King && us == Color::Black;
    let c1: u8 = if kw {
        c0 & !(CastlingRights::WK | CastlingRights::WQ)
    } else if kb {
        c0 & !(CastlingRights::BK | CastlingRights::BQ)
    } else {
        c0
    };
    let c2: u8 = if from == 0 || to == 0 { c1 & !CastlingRights::WQ } else { c1 };
    let c3: u8 = if from == 7 || to == 7 { c2 & !CastlingRights::WK } else { c2 };
    let c4: u8 = if from == 56 || to == 56 { c3 & !CastlingRights::BQ } else { c3 };
    let c5: u8 = if from == 63 || to == 63 { c4 & !CastlingRights::BK } else { c4 };
    assert(CastlingRights::WK | CastlingRights::WQ == 3u8) by (bit_vector);
    assert(CastlingRights::BK | CastlingRights::BQ == 12u8) by (bit_vector);
    assert(castling_update(c0, from, to, moving, us) == c5);
    lemma_rights_bits(
        c0,
        c1,
        c2,
        c3,
        c4,
        c5,
        kw,
        kb,
        from == 0 || to == 0,
        from == 7 || to == 7,
        from == 56 || to == 56,
        from == 63 || to == 63,
    );
}

/// Applies the castling-right updates of a move.
fn update_castling(rights: CastlingRights, from: Square, to: Square, moving: Piece, us: Color) -> (r: CastlingRights)
    requires
        rights.0 < 16,
    ensures
        r.0 == castling_update(rights.0, from.0 as int, to.0 as int, moving, us),
        r.0 < 16,
{
    let mut r = rights;
    // King move: revoke both rights for that color
    if moving == Piece::King {
        match us {
            Color::White => r.remove(CastlingRights::WK | CastlingRights::WQ),
            Color::Black => r.remove(CastlingRights::BK | CastlingRights::BQ),
        }
    }
    proof {
        lemma_u8_and_le(rights.0, !(CastlingRights::WK | CastlingRights::WQ));
        lemma_u8_and_le(rights.0, !(CastlingRights::BK | CastlingRights::BQ));
    }
    // Rook origin squares: touching them (move or capture) revokes the right
    let ghost r1 = r.0;
    if from.0 == 0 || to.0 == 0 {
        r.remove(CastlingRights::WQ);
    }
    proof {
        lemma_u8_and_le(r1, !CastlingRights::WQ);
    }
    let ghost r2 = r.0;
    if from.0 == 7 || to.0 == 7 {
        r.remove(CastlingRights::WK);
    }
    proof {
        lemma_u8_and_le(r2, !CastlingRights::WK);
    }
    let ghost r3 = r.0;
    if from.0 == 56 || to.0 == 56 {
        r.remove(CastlingRights::BQ);
    }
    proof {
        lemma_u8_and_le(r3, !CastlingRights::BQ);
    }
    let ghost r4 = r.0;
    if from.0 == 63 || to.0 == 63 {
        r.remove(CastlingRights::BK);
    }
    proof {
        lemma_u8_and_le(r4, !CastlingRights::BK);
    }
    r
}

/// Lowering bits keeps a word no larger.
#[verifier::spinoff_prover]
pub proof fn lemma_u8_and_le(x: u8, y: u8)
    ensures
        x & y <= x,
{
    assert(x & y <= x) by (bit_vector);
}

/// Hash bookkeeping of `make_move`: XOR out the old castling and
/// en-passant keys, toggle piece keys (which keeps `h ^ f` fixed), XOR in
/// the new castling and en-passant keys and the side key.
#[verifier::spinoff_prover]
proof fn lemma_move_hash(f0: u64, ck0: u64, ep0: u64, s0: u64, f1: u64, h2: u64, ck1: u64, ep1: u64, k: u64)
    requires
        h2 ^ f1 == ((((((f0 ^ ck0) ^ ep0) ^ s0) ^ ck0) ^ ep0) ^ f0),
    ensures
        ((h2 ^ ck1) ^ ep1) ^ k == ((f1 ^ ck1) ^ ep1) ^ (s0 ^ k),
{
    assert(h2 ^ f1 == ((((((f0 ^ ck0) ^ ep0) ^ s0) ^ ck0) ^ ep0) ^ f0) ==> ((h2 ^ ck1) ^ ep1) ^ k
        == ((f1 ^ ck1) ^ ep1) ^ (s0 ^ k)) by (bit_vector);
}

/// Hash bookkeeping of `make_null_move`.
#[verifier::spinoff_prover]
proof fn lemma_null_hash(f: u64, ck: u64, ep0: u64, s0: u64, k: u64)
    ensures
        (((((f ^ ck) ^ ep0) ^ s0) ^ ep0) ^ k) == ((f ^ ck) ^ 0u64) ^ (s0 ^ k),
{
    assert((((((f ^ ck) ^ ep0) ^ s0) ^ ep0) ^ k) == ((f ^ ck) ^ 0u64) ^ (s0 ^ k)) by (bit_vector);
}

/// The side part of the hash flips with the side key.
#[verifier::spinoff_prover]
proof fn lemma_side_flip(c: Color)
    ensures
        side_hash(c) ^ SIDE_KEY == side_hash(c.spec_opposite()),
{
    lemma_xor(SIDE_KEY, SIDE_KEY, 0);
    lemma_xor(0, SIDE_KEY, 0);
}

/// Keeping `h ^ f` fixed while both are XORed with the same key.
#[verifier::spinoff_prover]
proof fn lemma_xor_pair(h: u64, f: u64, k: u64)
    ensures
        (h ^ k) ^ (f ^ k) == h ^ f,
{
    assert((h ^ k) ^ (f ^ k) == h ^ f) by (bit_vector);
}

impl Position {
    /// Shared postcondition of the per-flag placement steps of `make_move`.
    spec fn placed(self, pre: Position, mv: Move) -> bool {
        &&& self.placement_ok()
        &&& forall|s: int| 0 <= s < 64 ==> #[trigger] self.piece_on(s) == pre.placement_after(mv, s)
        &&& self.hash ^ kinds_fold(self.bbs(), 12) == pre.hash ^ kinds_fold(pre.bbs(), 12)
        &&& self.side == pre.side
        &&& self.castling == pre.castling
        &&& self.fullmove_number == pre.fullmove_number
        &&& self.halfmove_clock == pre.halfmove_after(mv)
        &&& self.en_passant == pre.ep_after(mv)
    }

    /// Placement step of a normal move (quiet or capture).
    #[verifier::spinoff_prover]
    fn move_normal(&mut self, mv: Move, moving_piece: Piece)
        requires
            old(self).placement_ok(),
            old(self).move_ok(mv),
            mv.spec_flags() == 0,
            moving_piece == old(self).moving_piece(mv),
        ensures
            final(self).placed(*old(self), mv),
    {
        let ghost pre = *self;
        let from = mv.from_sq();
        let to = mv.to_sq();
        let us = self.side;
        let new_halfmove = match self.piece_at(to) {
            Some((cc, cap)) => {
                let ghost a = *self;
                self.remove_piece(cc, cap, to);
                proof {
                    lemma_xor_pair(a.hash, kinds_fold(a.bbs(), 12), key_of(kind(cc, cap), to.0 as int));
                }
                0
            },
            None => {
                if moving_piece == Piece::Pawn {
                    0
                } else {
                    self.halfmove_clock + 1
                }
            },
        };
        let ghost a = *self;
        self.remove_piece(us, moving_piece, from);
        let ghost b = *self;
        self.put_piece(us, moving_piece, to);
        proof {
            lemma_xor_pair(a.hash, kinds_fold(a.bbs(), 12), key_of(kind(us, moving_piece), from.0 as int));
            lemma_xor_pair(b.hash, kinds_fold(b.bbs(), 12), key_of(kind(us, moving_piece), to.0 as int));
        }
        self.halfmove_clock = new_halfmove;
        // Set or clear en-passant square
        let fr = from.rank();
        let tr = to.rank();
        self.en_passant = if moving_piece == Piece::Pawn && tr == fr + 2 {
            Some(Square::from_file_rank(from.file(), fr + 1))
        } else if moving_piece == Piece::Pawn && fr == tr + 2 {
            Some(Square::from_file_rank(from.file(), fr - 1))
        } else {
            None
        };
    }

    /// Placement step of a promotion (with optional capture).
    #[verifier::spinoff_prover]
    fn move_promotion(&mut self, mv: Move)
        requires
            old(self).placement_ok(),
            old(self).move_ok(mv),
            mv.spec_flags() == 1,
        ensures
            final(self).placed(*old(self), mv),
    {
        let from = mv.from_sq();
        let to = mv.to_sq();
        let us = self.side;
        let promo = mv.promotion_piece();
        match self.piece_at(to) {
            Some((cc, cap)) => {
                let ghost a = *self;
                self.remove_piece(cc, cap, to);
                proof {
                    lemma_xor_pair(a.hash, kinds_fold(a.bbs(), 12), key_of(kind(cc, cap), to.0 as int));
                }
            },
            None => {},
        }
        let ghost a = *self;
        self.remove_piece(us, Piece::Pawn, from);
        let ghost b = *self;
        self.put_piece(us, promo, to);
        proof {
            lemma_xor_pair(a.hash, kinds_fold(a.bbs(), 12), key_of(kind(us, Piece::Pawn), from.0 as int));
            lemma_xor_pair(b.hash, kinds_fold(b.bbs(), 12), key_of(kind(us, promo), to.0 as int));
        }
        self.halfmove_clock = 0;
        self.en_passant = None;
    }

    /// Placement step of an en-passant capture: the captured pawn is on the
    /// same rank as the moving pawn, same file as the destination.
    #[verifier::spinoff_prover]
    fn move_en_passant(&mut self, mv: Move)
        requires
            old(self).placement_ok(),
            old(self).move_ok(mv),
            mv.spec_flags() == 2,
        ensures
            final(self).placed(*old(self), mv),
    {
        let from = mv.from_sq();
        let to = mv.to_sq();
        let us = self.side;
        let them = us.opposite();
        let cap_sq = Square::from_file_rank(to.file(), from.rank());
        let ghost a = *self;
        self.remove_piece(them, Piece::Pawn, cap_sq);
        let ghost b = *self;
        self.remove_piece(us, Piece::Pawn, from);
        let ghost c = *self;
        self.put_piece(us, Piece::Pawn, to);
        proof {
            lemma_xor_pair(a.hash, kinds_fold(a.bbs(), 12), key_of(kind(them, Piece::Pawn), cap_sq.0 as int));
            lemma_xor_pair(b.hash, kinds_fold(b.bbs(), 12), key_of(kind(us, Piece::Pawn), from.0 as int));
            lemma_xor_pair(c.hash, kinds_fold(c.bbs(), 12), key_of(kind(us, Piece::Pawn), to.0 as int));
        }
        self.halfmove_clock = 0;
        self.en_passant = None;
    }

    /// Placement step of castling (king moves; also move the rook).
    #[verifier::spinoff_prover]
    fn move_castling(&mut self, mv: Move)
        requires
            old(self).placement_ok(),
            old(self).move_ok(mv),
            mv.spec_flags() == 3,
        ensures
            final(self).placed(*old(self), mv),
    {
        let from = mv.from_sq();
        let to = mv.to_sq();
        let us = self.side;
        let (rook_from, rook_to) = if to.0 == 6 {
            (Square(7), Square(5))
        } else if to.0 == 2 {
            (Square(0), Square(3))
        } else if to.0 == 62 {
            (Square(63), Square(61))
        } else {
            (Square(56), Square(59))
        };
        let ghost a = *self;
        self.remove_piece(us, Piece::King, from);
        let ghost b = *self;
        self.put_piece(us, Piece::King, to);
        let ghost c = *self;
        self.remove_piece(us, Piece::Rook, rook_from);
        let ghost d = *self;
        self.put_piece(us, Piece::Rook, rook_to);
        proof {
            lemma_xor_pair(a.hash, kinds_fold(a.bbs(), 12), key_of(kind(us, Piece::King), from.0 as int));
            lemma_xor_pair(b.hash, kinds_fold(b.bbs(), 12), key_of(kind(us, Piece::King), to.0 as int));
            lemma_xor_pair(c.hash, kinds_fold(c.bbs(), 12), key_of(kind(us, Piece::Rook), rook_from.0 as int));
            lemma_xor_pair(d.hash, kinds_fold(d.bbs(), 12), key_of(kind(us, Piece::Rook), rook_to.0 as int));
        }
        self.halfmove_clock = self.halfmove_clock + 1;
        self.en_passant = None;
    }

    /// Positions with the same bitboards have the same placement.
    #[verifier::spinoff_prover]
    pub proof fn lemma_placement_same(self, other: Position)
        requires
            self.placement_ok(),
            self.pbb() == other.pbb(),
            self.cbb() == other.cbb(),
        ensures
            other.placement_ok(),
            forall|s: int| 0 <= s < 64 ==> #[trigger] other.piece_on(s) == self.piece_on(s),
            other.bbs() == self.bbs(),
    {
    }

    /// What piece (if any) occupies `sq`?
    #[verifier::spinoff_prover]
    pub fn piece_at(&self, sq: Square) -> (r: Option<(Color, Piece)>)
        requires
            sq.0 < 64,
        ensures
            r == self.piece_on(sq.0 as int),
    {
        let mut k: usize = 0;
        while k < 12
            invariant
                k <= 12,
                sq.0 < 64,
                self.first_kind(sq.0 as int, 0) == self.first_kind(sq.0 as int, k as int),
            decreases 12 - k,
        {
            if self.piece_bb[k].is_set(sq) {
                let c = if k < 6 {
                    Color::White
                } else {
                    Color::Black
                };
                return Some((c, Piece::from_index(k % 6)));
            }
            k = k + 1;
        }
        None
    }

    /// Bitboard for a given color/piece combination.
    #[verifier::spinoff_prover]
    pub fn pieces(&self, color: Color, piece: Piece) -> (b: Bitboard)
        ensures
            b.0 == self.bb(kind(color, piece)),
    {
        self.piece_bb[color.index() * 6 + piece.index()]
    }

    /// All occupied squares.
    #[verifier::spinoff_prover]
    pub fn occupancy(&self) -> (b: Bitboard)
        ensures
            b.0 == self.occ_of(0) | self.occ_of(1),
            self.placement_ok() ==> forall|s: int|
                0 <= s < 64 ==> (#[trigger] bit(b.0, s) <==> self.piece_on(s) is Some),
            self.placement_ok() ==> b@ == self.occupied(),
    {
        let b = Bitboard(self.color_bb[0].0 | self.color_bb[1].0);
        proof {
            if self.placement_ok() {
                assert forall|s: int| 0 <= s < 64 implies (#[trigger] bit(b.0, s) <==> self.piece_on(
                    s,
                ) is Some) by {
                    lemma_bit_or(self.occ_of(0), self.occ_of(1), s as u64);
                    self.lemma_occ_owned(s, Color::White);
                    self.lemma_occ_owned(s, Color::Black);
                }
                assert(b@ =~= self.occupied());
            }
        }
        b
    }

    #[verifier::spinoff_prover]
    pub fn occupancy_color(&self, color: Color) -> (b: Bitboard)
        ensures
            b.0 == self.occ_of(color.idx()),
            self.placement_ok() ==> forall|s: int|
                0 <= s < 64 ==> (#[trigger] bit(b.0, s) <==> self.owned_by(s, color)),
    {
        let b = self.color_bb[color.index()];
        proof {
            if self.placement_ok() {
                assert forall|s: int| 0 <= s < 64 implies (#[trigger] bit(b.0, s) <==> self.owned_by(
                    s,
                    color,
                )) by {
                    self.lemma_occ_owned(s, color);
                }
            }
        }
        b
    }

    #[verifier::spinoff_prover]
    pub fn side_to_move(&self) -> (c: Color)
        ensures
            c == self.spec_side(),
    {
        self.side
    }

    #[verifier::spinoff_prover]
    pub fn castling_rights(&self) -> (r: CastlingRights)
        ensures
            r.0 == self.spec_castling(),
    {
        self.castling
    }

    #[verifier::spinoff_prover]
    pub fn en_passant_square(&self) -> (e: Option<Square>)
        ensures
            e == self.spec_ep(),
    {
        self.en_passant
    }

    #[verifier::spinoff_prover]
    pub fn hash(&self) -> (h: u64)
        ensures
            h == self.spec_hash(),
    {
        self.hash
    }

    #[verifier::spinoff_prover]
    pub fn halfmove_clock(&self) -> (n: u32)
        ensures
            n == self.spec_halfmove(),
    {
        self.halfmove_clock
    }

    #[verifier::spinoff_prover]
    pub fn fullmove_number(&self) -> (n: u32)
        ensures
            n == self.spec_fullmove(),
    {
        self.fullmove_number
    }

    #[verifier::spinoff_prover]
    pub fn is_draw_by_fifty(&self) -> (b: bool)
        ensures
            b == (self.spec_halfmove() >= 100),
    {
        self.halfmove_clock >= 100
    }

    /// Is `color`'s king attacked? (The lowest king counts, should there be
    /// several; without a king, no.)
    #[verifier::spinoff_prover]
    pub fn is_in_check(&self, color: Color) -> (r: bool)
        requires
            self.wf(),
        ensures
            r == in_check_on(self.board(), color),
    {
        let king_bb = self.pieces(color, Piece::King);
        proof {
            lemma_king_lsb(*self, king_bb, color);
        }
        if king_bb.is_empty() {
            return false;
        }
        let king_sq = king_bb.lsb();
        is_square_attacked(self, king_sq, color.opposite())
    }

    /// The position with pieces `cells` (square by square, a1 first) and the
    /// given side to move, castling rights, en-passant square and clocks;
    /// its hash is computed from scratch.
    #[verifier::spinoff_prover]
    pub(crate) fn from_parts(
        cells: &Vec<Option<(Color, Piece)>>,
        side: Color,
        castling: CastlingRights,
        en_passant: Option<Square>,
        halfmove_clock: u32,
        fullmove_number: u32,
    ) -> (p: Position)
        requires
            cells@.len() == 64,
            castling.0 < 16,
            en_passant matches Some(e) ==> e.0 < 64,
        ensures
            p.wf(),
            p.board() == cells@,
            p.spec_side() == side,
            p.spec_castling() == castling.0,
            p.spec_ep() == en_passant,
            p.spec_halfmove() == halfmove_clock,
            p.spec_fullmove() == fullmove_number,
    {
        let mut pos = Position {
            piece_bb: [
                Bitboard(0),
                Bitboard(0),
                Bitboard(0),
                Bitboard(0),
                Bitboard(0),
                Bitboard(0),
                Bitboard(0),
                Bitboard(0),
                Bitboard(0),
                Bitboard(0),
                Bitboard(0),
                Bitboard(0),
            ],
            color_bb: [Bitboard(0), Bitboard(0)],
            side,
            castling,
            en_passant,
            halfmove_clock,
            fullmove_number,
            hash: 0,
        };
        proof {
            reveal(placement_ok_in);
            assert forall|s: int, i: int, j: int|
                0 <= s < 64 && 0 <= i < 12 && 0 <= j < 12 && i != j && #[trigger] bit(pos.pbb()[i].0, s)
                    implies !#[trigger] bit(pos.pbb()[j].0, s) by {
                crate::bitboard::lemma_zero_no_bits(s);
            }
            assert(pos.placement_ok());
            assert forall|s: int| 0 <= s < 64 implies #[trigger] pos.piece_on(s) is None by {
                assert forall|k: int| 0 <= k < 12 implies !bit(pos.pbb()[k].0, s) by {
                    crate::bitboard::lemma_zero_no_bits(s);
                }
                pos.lemma_piece_on_none(s);
            }
            assert forall|c: int, s: int| 0 <= c < 2 && 0 <= s < 64 implies (#[trigger] bit(
                pos.cbb()[c].0,
                s,
            ) == any_of_color_in(pos.pbb(), c, s)) by {
                crate::bitboard::lemma_zero_no_bits(s);
            }
        }
        let mut i: usize = 0;
        while i < 64
            invariant
                i <= 64,
                cells@.len() == 64,
                pos.placement_ok(),
                pos.side == side,
                pos.castling == castling,
                pos.en_passant == en_passant,
                pos.halfmove_clock == halfmove_clock,
                pos.fullmove_number == fullmove_number,
                forall|s: int| 0 <= s < i ==> #[trigger] pos.piece_on(s) == cells@[s],
                forall|s: int| i <= s < 64 ==> #[trigger] pos.piece_on(s) is None,
            decreases 64 - i,
        {
            if let Some((c, p)) = cells[i] {
                pos.put_piece(c, p, Square(i as u8));
            }
            i = i + 1;
        }
        let ghost before = pos;
        pos.hash = pos.compute_hash();
        proof {
            reveal(Position::hash_spec);
            assert(pos.hash_spec() == before.hash_spec());
            assert(pos.board() =~= cells@);
        }
        pos
    }

    /// Convert a UCI move string (e.g., "e2e4", "e7e8q") to the legal move
    /// of this position with that text.
    pub fn parse_move(&self, uci: &str) -> (r: Option<Move>)
        requires
            gen_ready(*self),
        ensures
            r matches Some(m) ==> legal_move(*self, m, false) && m.spec_uci() == uci@,
            r is None && !crowded(*self, false) ==> forall|m: Move|
                legal_move(*self, m, false) ==> m.spec_uci() != uci@,
    {
        let moves = generate_moves(self);
        let text = str_chars(uci);
        let n = moves.len();
        let mut i: usize = 0;
        while i < n
            invariant
                n == moves@.len(),
                i <= n,
                text@ == uci@,
                forall|j: int| 0 <= j < moves@.len() ==> legal_move(*self, #[trigger] moves@[j], false),
                forall|j: int| 0 <= j < i ==> (#[trigger] moves@[j]).spec_uci() != uci@,
            decreases n - i,
        {
            let m = moves.get(i);
            if same_chars(&m.uci_chars(), &text) {
                return Some(m);
            }
            i = i + 1;
        }
        proof {
            if !crowded(*self, false) {
                assert forall|m: Move| legal_move(*self, m, false) implies m.spec_uci() != uci@ by {
                    assert(moves@.contains(m));
                    let j = choose|j: int| 0 <= j < moves@.len() && moves@[j] == m;
                    assert((moves@[j]).spec_uci() != uci@);
                }
            }
        }
        None
    }

    /// Draw by insufficient material (see `insufficient_material`).
    pub fn is_draw_by_insufficient_material(&self) -> (b: bool)
        ensures
            b == insufficient_material(*self),
    {
        let heavy = self.pieces(Color::White, Piece::Pawn).count() as u64
            + self.pieces(Color::Black, Piece::Pawn).count() as u64
            + self.pieces(Color::White, Piece::Rook).count() as u64
            + self.pieces(Color::Black, Piece::Rook).count() as u64
            + self.pieces(Color::White, Piece::Queen).count() as u64
            + self.pieces(Color::Black, Piece::Queen).count() as u64;
        let minor = self.pieces(Color::White, Piece::Knight).count() as u64
            + self.pieces(Color::Black, Piece::Knight).count() as u64
            + self.pieces(Color::White, Piece::Bishop).count() as u64
            + self.pieces(Color::Black, Piece::Bishop).count() as u64;
        heavy == 0 && minor <= 1
    }

    /// Compute Zobrist hash from scratch (used to verify incremental updates).
    #[verifier::spinoff_prover]
    pub fn compute_hash(&self) -> (h: u64)
        requires
            self.spec_castling() < 16,
            self.spec_ep() matches Some(e) ==> e.0 < 64,
        ensures
            h == self.hash_spec(),
    {
        let mut h: u64 = 0;
        let mut k: usize = 0;
        while k < 12
            invariant
                k <= 12,
                h == kinds_fold(self.bbs(), k as int),
            decreases 12 - k,
        {
            let color = if k < 6 {
                Color::White
            } else {
                Color::Black
            };
            let piece = Piece::from_index(k % 6);
            let b0 = self.piece_bb[k];
            let mut bb = b0;
            let ghost hk = h;
            let ghost mut m: int = 0;
            proof {
                assert(self.bbs()[k as int] == b0.0);
                lemma_xor(hk, 0, 0);
            }
            while !bb.is_empty()
                invariant
                    k < 12,
                    0 <= m <= 64,
                    forall|s: int| 0 <= s < 64 ==> bit(bb.0, s) == (s >= m && bit(b0.0, s)),
                    h == hk ^ sq_fold(k as int, b0.0, m),
                    color.idx() * 6 + piece.idx() == k,
                decreases 64 - m,
            {
                let ghost old_bb = bb;
                let sq = bb.pop_lsb();
                proof {
                    let t = sq.0 as int;
                    assert(bit(old_bb.0, t) == bits_set(old_bb.0).contains(t));
                    assert forall|s: int| m <= s < t implies !bit(b0.0, s) by {
                        assert(!bits_set(old_bb.0).contains(s));
                        assert(bit(old_bb.0, s) == bits_set(old_bb.0).contains(s));
                    }
                    lemma_sq_fold_skip(k as int, b0.0, m, t);
                    lemma_xor(hk, sq_fold(k as int, b0.0, t), key_of(k as int, t));
                    assert forall|s: int| 0 <= s < 64 implies bit(bb.0, s) == (s >= t + 1 && bit(
                        b0.0,
                        s,
                    )) by {
                        assert(bits_set(bb.0) == bits_set(old_bb.0).remove(t));
                        assert(bit(bb.0, s) == bits_set(bb.0).contains(s));
                        assert(bit(old_bb.0, s) == bits_set(old_bb.0).contains(s));
                        if s < t {
                            assert(!bits_set(old_bb.0).contains(s));
                        }
                    }
                }
                h = h ^ zobrist::piece_key(color, piece, sq);
                proof {
                    m = sq.0 as int + 1;
                }
            }
            proof {
                assert forall|s: int| m <= s < 64 implies !bit(b0.0, s) by {
                    crate::bitboard::lemma_zero_no_bits(s);
                }
                lemma_sq_fold_skip(k as int, b0.0, m, 64);
            }
            k = k + 1;
        }
        h = h ^ zobrist::castling_key(self.castling);
        if let Some(ep) = self.en_passant {
            h = h ^ zobrist::en_passant_key(ep.file());
        } else {
            proof {
                lemma_xor(h, 0, 0);
            }
        }
        if self.side == Color::Black {
            h = h ^ zobrist::side_key();
        } else {
            proof {
                lemma_xor(h, 0, 0);
            }
        }
        proof {
            reveal(Position::hash_spec);
        }
        h
    }

    /// Make a "null move" (passing the turn to the opponent).
    /// Used for Null Move Pruning in search.
    #[verifier::spinoff_prover]
    pub fn make_null_move(&mut self)
        requires
            old(self).wf(),
            old(self).spec_halfmove() < u32::MAX,
            old(self).spec_side() == Color::Black ==> old(self).spec_fullmove() < u32::MAX,
        ensures
            final(self).wf(),
            forall|k: int| 0 <= k < 12 ==> final(self).bb(k) == old(self).bb(k),
            forall|s: int| 0 <= s < 64 ==> final(self).piece_on(s) == old(self).piece_on(s),
            final(self).board() == old(self).board(),
            final(self).occupied() == old(self).occupied(),
            final(self).spec_side() == old(self).spec_side().spec_opposite(),
            final(self).spec_castling() == old(self).spec_castling(),
            final(self).spec_ep() is None,
            final(self).spec_halfmove() == old(self).spec_halfmove() + 1,
            final(self).spec_fullmove() == (if old(self).spec_side() == Color::Black {
                old(self).spec_fullmove() + 1
            } else {
                old(self).spec_fullmove() as int
            }),
    {
        let ghost pre = *self;
        if let Some(ep) = self.en_passant {
            self.hash = self.hash ^ zobrist::en_passant_key(ep.file());
        } else {
            proof {
                lemma_xor(self.hash, 0, 0);
            }
        }
        self.en_passant = None;
        self.hash = self.hash ^ zobrist::side_key();
        if self.side == Color::Black {
            self.fullmove_number = self.fullmove_number + 1;
        }
        self.side = self.side.opposite();
        self.halfmove_clock = self.halfmove_clock + 1;
        proof {
            reveal(Position::hash_spec);
            let f = kinds_fold(pre.bbs(), 12);
            let ck = CASTLING_KEYS@[pre.spec_castling() as int];
            lemma_null_hash(f, ck, ep_hash(pre.spec_ep()), side_hash(pre.spec_side()), SIDE_KEY);
            lemma_side_flip(pre.spec_side());
            lemma_kinds_fold_same(pre.bbs(), self.bbs(), 12);
            pre.lemma_placement_same(*self);
            assert(self.board() =~= pre.board());
            assert(self.occupied() =~= pre.occupied());
        }
    }

    /// Apply `mv` to the position (copy-make model: copy the position first
    /// to keep the one before the move).
    ///
    /// Precondition: `mv` is pseudo-legal for this position (`move_ok`).
    /// Postcondition: the pieces are placed as `placement_after` says, side
    /// to move flipped, castling rights, en-passant square and clocks
    /// updated, and the Zobrist hash updated incrementally to the hash from
    /// scratch of the new position.
    #[verifier::spinoff_prover]
    pub fn make_move(&mut self, mv: Move)
        requires
            old(self).wf(),
            old(self).move_ok(mv),
        ensures
            final(self).wf(),
            forall|s: int|
                0 <= s < 64 ==> #[trigger] final(self).piece_on(s) == old(self).placement_after(
                    mv,
                    s,
                ),
            final(self).board() == old(self).board_after(mv),
            final(self).spec_side() == old(self).spec_side().spec_opposite(),
            final(self).spec_castling() == old(self).castling_after(mv),
            final(self).spec_castling() & !old(self).spec_castling() == 0,
            mv.spec_from() == 0 || mv.spec_to() == 0 ==> final(self).spec_castling() & CastlingRights::WQ == 0,
            mv.spec_from() == 7 || mv.spec_to() == 7 ==> final(self).spec_castling() & CastlingRights::WK == 0,
            mv.spec_from() == 56 || mv.spec_to() == 56 ==> final(self).spec_castling() & CastlingRights::BQ == 0,
            mv.spec_from() == 63 || mv.spec_to() == 63 ==> final(self).spec_castling() & CastlingRights::BK == 0,
            final(self).spec_ep() == old(self).ep_after(mv),
            final(self).spec_halfmove() == old(self).halfmove_after(mv),
            final(self).spec_fullmove() == (if old(self).spec_side() == Color::Black {
                old(self).spec_fullmove() + 1
            } else {
                old(self).spec_fullmove() as int
            }),
    {
        let ghost pre = *self;
        let from = mv.from_sq();
        let to = mv.to_sq();
        let us = self.side;
        let them = us.opposite();
        let moving_piece = self.piece_at(from).unwrap().1;
        let ghost h1_expected = ((((kinds_fold(pre.bbs(), 12) ^ CASTLING_KEYS@[pre.spec_castling(
        ) as int]) ^ ep_hash(pre.spec_ep())) ^ side_hash(pre.spec_side())) ^ CASTLING_KEYS@[pre.spec_castling() as int]) ^ ep_hash(
            pre.spec_ep(),
        );

        // XOR out old castling and en-passant contributions
        self.hash = self.hash ^ zobrist::castling_key(self.castling);
        if let Some(ep) = self.en_passant {
            self.hash = self.hash ^ zobrist::en_passant_key(ep.file());
        } else {
            proof {
                lemma_xor(self.hash, 0, 0);
            }
        }
        let ghost mid = *self;
        assert(mid.hash == h1_expected) by {
            reveal(Position::hash_spec);
        }
        proof {
            pre.lemma_placement_same(mid);
        }
        assert(kinds_fold(mid.bbs(), 12) == kinds_fold(pre.bbs(), 12)) by {
            lemma_kinds_fold_same(pre.bbs(), mid.bbs(), 12);
        }
        let flags = mv.flags();
        if flags == 0 {
            self.move_normal(mv, moving_piece);
        } else if flags == 1 {
            self.move_promotion(mv);
        } else if flags == 2 {
            self.move_en_passant(mv);
        } else {
            self.move_castling(mv);
        }
        let ghost placed = *self;
        assert(placed.hash ^ kinds_fold(placed.bbs(), 12) == mid.hash ^ kinds_fold(mid.bbs(), 12));

        self.castling = update_castling(self.castling, from, to, moving_piece, us);

        // XOR in new castling and en-passant contributions
        self.hash = self.hash ^ zobrist::castling_key(self.castling);
        if let Some(ep) = self.en_passant {
            self.hash = self.hash ^ zobrist::en_passant_key(ep.file());
        } else {
            proof {
                lemma_xor(self.hash, 0, 0);
            }
        }

        // Flip side to move
        self.hash = self.hash ^ zobrist::side_key();
        if us == Color::Black {
            self.fullmove_number = self.fullmove_number + 1;
        }
        self.side = them;
        proof {
            lemma_kinds_fold_same(placed.bbs(), self.bbs(), 12);
            placed.lemma_placement_same(*self);
            lemma_move_hash(
                kinds_fold(pre.bbs(), 12),
                CASTLING_KEYS@[pre.spec_castling() as int],
                ep_hash(pre.spec_ep()),
                side_hash(pre.spec_side()),
                kinds_fold(placed.bbs(), 12),
                placed.hash,
                CASTLING_KEYS@[self.spec_castling() as int],
                ep_hash(self.spec_ep()),
                SIDE_KEY,
            );
            lemma_side_flip(pre.spec_side());
            reveal(Position::hash_spec);
            assert(self.board() =~= pre.board_after(mv));
            lemma_castling_rights_after(
                pre.spec_castling(),
                mv.spec_from() as int,
                mv.spec_to() as int,
                pre.moving_piece(mv),
                pre.spec_side(),
            );
        }
    }
}

} // verus!
