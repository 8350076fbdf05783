pub mod magics;

use vstd::prelude::*;
use vstd::std_specs::bits::u64_trailing_zeros;

use crate::bitboard::{bit, bits_set, Bitboard, popcount_bound, lemma_remove_decreases, lemma_and_view, lemma_not_view, lemma_bit_and,
    lemma_nonzero_has_bit, lemma_empty_view, lemma_or_view};
use crate::board::{Position, kind, ep_victim, rook_from_of, rook_to_of};
use crate::search::made;
use crate::types::{CastlingRights, Color, Move, Piece, Square, move_bits, lemma_move_fields_roundtrip,
    lemma_move_eq, lemma_move_canonical};
use self::magics::{bishop_set, lemma_bishop_on_diagonal, lemma_rook_on_line, on_diagonal, on_line, file_of, king_set, knight_set, pawn_dir, pawn_set, rank_of, rook_set,
    queen_set};

verus! {

// ---------------------------------------------------------------------------
// Move list
// ---------------------------------------------------------------------------

/// Most moves a list holds; pushes beyond it are dropped.
pub const MAX_MOVES: usize = 256;

/// A bounded list of moves (at most `MAX_MOVES`).
pub struct MoveList {
    moves: Vec<Move>,
}

impl View for MoveList {
    type V = Seq<Move>;

    closed spec fn view(&self) -> Seq<Move> {
        self.moves@
    }
}

impl MoveList {
    #[verifier::type_invariant]
    spec fn bounded(self) -> bool {
        self.moves@.len() <= MAX_MOVES
    }

    pub fn new() -> (l: MoveList)
        ensures
            l@ == Seq::<Move>::empty(),
            l@.len() == 0,
    {
        MoveList { moves: Vec::with_capacity(MAX_MOVES) }
    }

    /// Appends `mv` unless the list is full.
    pub fn push(&mut self, mv: Move)
        ensures
            old(self)@.len() < MAX_MOVES ==> final(self)@ == old(self)@.push(mv),
            old(self)@.len() >= MAX_MOVES ==> final(self)@ == old(self)@,
            final(self)@.len() <= MAX_MOVES,
    {
        proof {
            use_type_invariant(&*self);
        }
        if self.moves.len() < MAX_MOVES {
            let mut v: Vec<Move> = Vec::new();
            std::mem::swap(&mut v, &mut self.moves);
            v.push(mv);
            self.moves = v;
        }
    }

    pub fn len(&self) -> (n: usize)
        ensures
            n == self@.len(),
            n <= MAX_MOVES,
    {
        proof {
            use_type_invariant(self);
        }
        self.moves.len()
    }

    pub fn is_empty(&self) -> (b: bool)
        ensures
            b == (self@.len() == 0),
    {
        self.moves.len() == 0
    }

    /// The move at position `i`.
    pub fn get(&self, i: usize) -> (m: Move)
        requires
            i < self@.len(),
        ensures
            m == self@[i as int],
    {
        self.moves[i]
    }

    /// Replaces the move at position `i`.
    pub fn set(&mut self, i: usize, mv: Move)
        requires
            i < old(self)@.len(),
        ensures
            final(self)@ == old(self)@.update(i as int, mv),
    {
        proof {
            use_type_invariant(&*self);
        }
        let mut v: Vec<Move> = Vec::new();
        std::mem::swap(&mut v, &mut self.moves);
        v.set(i, mv);
        self.moves = v;
    }

    /// Exchanges the moves at positions `i` and `j`.
    pub fn swap(&mut self, i: usize, j: usize)
        requires
            i < old(self)@.len(),
            j < old(self)@.len(),
        ensures
            final(self)@ == old(self)@.update(i as int, old(self)@[j as int]).update(
                j as int,
                old(self)@[i as int],
            ),
    {
        proof {
            use_type_invariant(&*self);
        }
        let a = self.moves[i];
        let b = self.moves[j];
        let mut v: Vec<Move> = Vec::new();
        std::mem::swap(&mut v, &mut self.moves);
        v.set(i, b);
        v.set(j, a);
        self.moves = v;
    }

    pub fn as_slice(&self) -> (s: &[Move])
        ensures
            s@ == self@,
    {
        self.moves.as_slice()
    }

    /// An iterator over the moves, in order.
    pub fn into_iter<'a>(&'a self) -> (it: MoveListIterator<'a>)
        ensures
            it.list() == self,
            it.index() == 0,
    {
        MoveListIterator { move_list: self, index: 0 }
    }
}

/// An iterator over a move list: the moves from `index` on.
pub struct MoveListIterator<'a> {
    move_list: &'a MoveList,
    index: usize,
}

impl<'a> MoveListIterator<'a> {
    /// The list iterated over.
    pub closed spec fn list(self) -> &'a MoveList {
        self.move_list
    }

    /// How many moves have been handed out.
    pub closed spec fn index(self) -> nat {
        self.index as nat
    }

    /// The next move, if any is left.
    pub fn next(&mut self) -> (r: Option<Move>)
        ensures
            final(self).list() == old(self).list(),
            old(self).index() < old(self).list()@.len() ==> r == Some(old(self).list()@[old(self).index() as int])
                && final(self).index() == old(self).index() + 1,
            old(self).index() >= old(self).list()@.len() ==> r is None && final(self).index() == old(self).index(),
    {
        if self.index < self.move_list.len() {
            let mv = self.move_list.get(self.index);
            self.index = self.index + 1;
            Some(mv)
        } else {
            None
        }
    }
}

impl Default for MoveList {
    fn default() -> (l: MoveList)
        ensures
            l@ == Seq::<Move>::empty(),
    {
        MoveList::new()
    }
}

// ---------------------------------------------------------------------------
// Attacks and check
// ---------------------------------------------------------------------------

/// The occupied squares of a board.
pub open spec fn board_occupied(board: Seq<Option<(Color, Piece)>>) -> Set<int> {
    Set::new(|s: int| 0 <= s < 64 && board[s] is Some)
}

/// The piece on `a` belongs to `by` and attacks `sq`: a pawn diagonally
/// forward, a knight or king by its step, a bishop, rook or queen along a
/// line whose squares in between are empty.
pub open spec fn attacks_from(board: Seq<Option<(Color, Piece)>>, a: int, sq: int, by: Color) -> bool {
    let occ = board_occupied(board);
    match board[a] {
        Some((c, p)) => c == by && match p {
            Piece::Pawn => pawn_set(by.spec_opposite(), sq).contains(a),
            Piece::Knight => knight_set(sq).contains(a),
            Piece::King => king_set(sq).contains(a),
            Piece::Bishop => bishop_set(sq, occ).contains(a),
            Piece::Rook => rook_set(sq, occ).contains(a),
            Piece::Queen => bishop_set(sq, occ).contains(a) || rook_set(sq, occ).contains(a),
        },
        None => false,
    }
}

/// Square `sq` is attacked by a piece of colour `by`.
pub open spec fn attacked_on(board: Seq<Option<(Color, Piece)>>, sq: int, by: Color) -> bool {
    exists|a: int| 0 <= a < 64 && #[trigger] attacks_from(board, a, sq, by)
}

/// Lowest square at or after `i` holding a king of colour `c` (64 if none).
pub open spec fn king_square_from(board: Seq<Option<(Color, Piece)>>, c: Color, i: int) -> int
    decreases 64 - i,
{
    if i >= 64 {
        64
    } else if board[i] == Some((c, Piece::King)) {
        i
    } else {
        king_square_from(board, c, i + 1)
    }
}

/// The king of colour `c` (the lowest one, if there are several) is attacked.
pub open spec fn in_check_on(board: Seq<Option<(Color, Piece)>>, c: Color) -> bool {
    let k = king_square_from(board, c, 0);
    k < 64 && attacked_on(board, k, c.spec_opposite())
}

/// `a` lies on a diagonal through `s` (when `diagonal`), or on its file or
/// rank (otherwise).
pub open spec fn aligned(a: int, s: int, diagonal: bool) -> bool {
    if diagonal {
        on_diagonal(a, s)
    } else {
        on_line(a, s)
    }
}

/// Whether some square of `b` lies on a diagonal through `sq` (when
/// `diagonal`), or on its file or rank (otherwise).
fn any_aligned(b: Bitboard, sq: Square, diagonal: bool) -> (r: bool)
    requires
        sq.0 < 64,
    ensures
        r == exists|a: int| b@.contains(a) && #[trigger] aligned(a, sq.0 as int, diagonal),
{
    let sf = (sq.0 % 8) as i32;
    let sr = (sq.0 / 8) as i32;
    let mut rest = b;
    while !rest.is_empty()
        invariant
            sq.0 < 64,
            sf == file_of(sq.0 as int),
            sr == rank_of(sq.0 as int),
            rest@.subset_of(b@),
            forall|a: int| b@.contains(a) && !rest@.contains(a) ==> !#[trigger] aligned(a, sq.0 as int, diagonal),
        decreases popcount_bound(rest),
    {
        let ghost old_rest = rest;
        let a = rest.pop_lsb();
        proof {
            lemma_remove_decreases(old_rest, a.0 as int);
        }
        let af = (a.0 % 8) as i32;
        let ar = (a.0 / 8) as i32;
        let hit = if diagonal {
            af - ar == sf - sr || af + ar == sf + sr
        } else {
            af == sf || ar == sr
        };
        if hit {
            proof {
                assert(aligned(a.0 as int, sq.0 as int, diagonal));
            }
            return true;
        }
    }
    proof {
        assert forall|a: int| b@.contains(a) implies !#[trigger] aligned(a, sq.0 as int, diagonal) by {
            assert(!rest@.contains(a));
        }
    }
    false
}

/// Whether bitboards `a` and `b` share a square.
fn overlaps(a: Bitboard, b: Bitboard) -> (r: bool)
    ensures
        r == exists|s: int| 0 <= s < 64 && a@.contains(s) && b@.contains(s),
{
    let x = a.0 & b.0;
    proof {
        lemma_and_view(a.0, b.0);
        lemma_empty_view(x);
        if x != 0 {
            lemma_nonzero_has_bit(x);
            let t = u64_trailing_zeros(x) as int;
            assert(bits_set(x).contains(t));
            assert(a@.contains(t) && b@.contains(t));
        } else {
            assert forall|s: int| 0 <= s < 64 implies !(a@.contains(s) && b@.contains(s)) by {
                assert(!bits_set(x).contains(s));
            }
        }
    }
    x != 0
}

/// Bits of the piece bitboard of `(c, p)` are the squares holding that piece.
proof fn lemma_pieces_view(pos: Position, b: Bitboard, c: Color, p: Piece)
    requires
        pos.wf(),
        b.0 == pos.bb(kind(c, p)),
    ensures
        forall|s: int| 0 <= s < 64 ==> (b@.contains(s) <==> pos.piece_on(s) == Some((c, p))),
        forall|s: int| b@.contains(s) ==> 0 <= s < 64,
{
    assert forall|s: int| 0 <= s < 64 implies (b@.contains(s) <==> pos.piece_on(s) == Some((c, p))) by {
        pos.lemma_piece_on_kind(s, c, p);
    }
}

pub fn is_square_attacked(pos: &Position, sq: Square, by_color: Color) -> (r: bool)
    requires
        pos.wf(),
        sq.0 < 64,
    ensures
        r == attacked_on(pos.board(), sq.0 as int, by_color),
{
    let occ = pos.occupancy();
    let ghost board = pos.board();
    let ghost s = sq.0 as int;
    proof {
        assert(pos.occupied() =~= board_occupied(board));
    }
    let pawns = pos.pieces(by_color, Piece::Pawn);
    let knights = pos.pieces(by_color, Piece::Knight);
    let kings = pos.pieces(by_color, Piece::King);
    let bishops = pos.pieces(by_color, Piece::Bishop);
    let rooks = pos.pieces(by_color, Piece::Rook);
    let queens = pos.pieces(by_color, Piece::Queen);
    proof {
        lemma_pieces_view(*pos, pawns, by_color, Piece::Pawn);
        lemma_pieces_view(*pos, knights, by_color, Piece::Knight);
        lemma_pieces_view(*pos, kings, by_color, Piece::King);
        lemma_pieces_view(*pos, bishops, by_color, Piece::Bishop);
        lemma_pieces_view(*pos, rooks, by_color, Piece::Rook);
        lemma_pieces_view(*pos, queens, by_color, Piece::Queen);
    }
    // Pawns
    let pa = magics::pawn_attacks(by_color.opposite(), sq);
    if overlaps(pa, pawns) {
        proof {
            let a = choose|a: int| 0 <= a < 64 && pa@.contains(a) && pawns@.contains(a);
            assert(attacks_from(board, a, s, by_color));
        }
        return true;
    }
    // Knights
    let na = magics::knight_attacks(sq);
    if overlaps(na, knights) {
        proof {
            let a = choose|a: int| 0 <= a < 64 && na@.contains(a) && knights@.contains(a);
            assert(attacks_from(board, a, s, by_color));
        }
        return true;
    }
    // King
    let ka = magics::king_attacks(sq);
    if overlaps(ka, kings) {
        proof {
            let a = choose|a: int| 0 <= a < 64 && ka@.contains(a) && kings@.contains(a);
            assert(attacks_from(board, a, s, by_color));
        }
        return true;
    }
    // Bishops / Queens
    let diag_attackers = Bitboard(bishops.0 | queens.0);
    proof {
        lemma_or_view(bishops.0, queens.0);
    }
    // The ray scans only run when a slider stands on a line through `sq`.
    if any_aligned(diag_attackers, sq, true) {
        let ba = magics::bishop_attacks(sq, occ);
        if overlaps(ba, diag_attackers) {
            proof {
                let a = choose|a: int| 0 <= a < 64 && ba@.contains(a) && diag_attackers@.contains(a);
                assert(attacks_from(board, a, s, by_color));
            }
            return true;
        }
    }
    // Rooks / Queens
    let straight_attackers = Bitboard(rooks.0 | queens.0);
    proof {
        lemma_or_view(rooks.0, queens.0);
    }
    if any_aligned(straight_attackers, sq, false) {
        let ra = magics::rook_attacks(sq, occ);
        if overlaps(ra, straight_attackers) {
            proof {
                let a = choose|a: int| 0 <= a < 64 && ra@.contains(a) && straight_attackers@.contains(a);
                assert(attacks_from(board, a, s, by_color));
            }
            return true;
        }
    }
    proof {
        assert forall|a: int| 0 <= a < 64 implies !#[trigger] attacks_from(board, a, s, by_color) by {
            if attacks_from(board, a, s, by_color) {
                assert(board[a] == pos.piece_on(a));
                if bishop_set(s, board_occupied(board)).contains(a) {
                    lemma_bishop_on_diagonal(s, board_occupied(board), a);
                    assert(aligned(a, s, true));
                }
                if rook_set(s, board_occupied(board)).contains(a) {
                    lemma_rook_on_line(s, board_occupied(board), a);
                    assert(aligned(a, s, false));
                }
            }
        }
    }
    false
}


// ---------------------------------------------------------------------------
// Pseudo-legal moves
// ---------------------------------------------------------------------------

/// `to` holds an enemy piece of `us` other than the king.
pub open spec fn capturable(board: Seq<Option<(Color, Piece)>>, to: int, us: Color) -> bool {
    match board[to] {
        Some((c, p)) => c == us.spec_opposite() && p != Piece::King,
        None => false,
    }
}

/// `to` is empty or capturable.
pub open spec fn enterable(board: Seq<Option<(Color, Piece)>>, to: int, us: Color) -> bool {
    board[to] is None || capturable(board, to, us)
}

/// Squares a piece of kind `p` on `from` attacks (pawns excluded).
pub open spec fn piece_targets(board: Seq<Option<(Color, Piece)>>, p: Piece, from: int) -> Set<int> {
    let occ = board_occupied(board);
    match p {
        Piece::Knight => knight_set(from),
        Piece::Bishop => bishop_set(from, occ),
        Piece::Rook => rook_set(from, occ),
        Piece::Queen => queen_set(from, occ),
        Piece::King => king_set(from),
        Piece::Pawn => Set::empty(),
    }
}

/// A plain move of a knight, bishop, rook, queen or king of kind `p` (the
/// king counted only on the lowest square holding one).
pub open spec fn piece_move(pos: Position, p: Piece, mv: Move, captures_only: bool) -> bool {
    let board = pos.board();
    let us = pos.spec_side();
    let from = mv.spec_from() as int;
    let to = mv.spec_to() as int;
    &&& p != Piece::Pawn
    &&& mv.spec_flags() == 0
    &&& mv.spec_promo() == 0
    &&& board[from] == Some((us, p))
    &&& (p == Piece::King ==> from == king_square_from(board, us, 0))
    &&& piece_targets(board, p, from).contains(to)
    &&& enterable(board, to, us)
    &&& (captures_only ==> capturable(board, to, us))
}

/// Flags and promotion code of a pawn move onto the last rank (`promoting`)
/// or elsewhere.
pub open spec fn promo_fields_ok(promoting: bool, flags: u16, promo: u16) -> bool {
    if promoting {
        flags == 1 && promo < 4
    } else {
        flags == 0 && promo == 0
    }
}

/// Rank from which a pawn of colour `c` promotes with its next step.
pub open spec fn promo_rank(c: Color) -> int {
    match c {
        Color::White => 6,
        Color::Black => 1,
    }
}

/// Rank of the en-passant square when colour `c` is to move.
pub open spec fn ep_rank(c: Color) -> int {
    match c {
        Color::White => 5,
        Color::Black => 2,
    }
}

/// Rank on which the pawns of colour `c` start.
pub open spec fn start_rank(c: Color) -> int {
    match c {
        Color::White => 1,
        Color::Black => 6,
    }
}

/// A single pawn push from `from` (a promotion onto the last rank).
pub open spec fn pawn_push(pos: Position, from: int, mv: Move) -> bool {
    let board = pos.board();
    let us = pos.spec_side();
    let to = mv.spec_to() as int;
    &&& to == from + pawn_dir(us) * 8
    &&& board[to] is None
    &&& promo_fields_ok(rank_of(from) == promo_rank(us), mv.spec_flags(), mv.spec_promo())
}

/// A double pawn push from the start rank over an empty square.
pub open spec fn pawn_double(pos: Position, from: int, mv: Move) -> bool {
    let board = pos.board();
    let us = pos.spec_side();
    let to = mv.spec_to() as int;
    &&& rank_of(from) == start_rank(us)
    &&& mv.spec_flags() == 0
    &&& mv.spec_promo() == 0
    &&& to == from + 2 * (pawn_dir(us) * 8)
    &&& board[from + pawn_dir(us) * 8] is None
    &&& board[to] is None
}

/// A diagonal pawn capture (a promotion onto the last rank).
pub open spec fn pawn_capture(pos: Position, from: int, mv: Move) -> bool {
    let us = pos.spec_side();
    let to = mv.spec_to() as int;
    &&& pawn_set(us, from).contains(to)
    &&& capturable(pos.board(), to, us)
    &&& promo_fields_ok(rank_of(from) == promo_rank(us), mv.spec_flags(), mv.spec_promo())
}

/// An en-passant capture onto the en-passant square (on the sixth rank
/// for White, the third for Black), taking the enemy pawn beside `from`.
pub open spec fn pawn_ep(pos: Position, from: int, mv: Move) -> bool {
    let board = pos.board();
    let us = pos.spec_side();
    let to = mv.spec_to() as int;
    &&& mv.spec_flags() == 2
    &&& mv.spec_promo() == 0
    &&& pos.spec_ep() == Some(Square(to as u8))
    &&& rank_of(to) == ep_rank(us)
    &&& pawn_set(us, from).contains(to)
    &&& board[to] is None
    &&& board[ep_victim(from, to)] == Some((us.spec_opposite(), Piece::Pawn))
}

/// A pawn move: single push, double push from the start rank, diagonal
/// capture (each onto the last rank as one of four promotions), or an
/// en-passant capture.
pub open spec fn pawn_move(pos: Position, mv: Move, captures_only: bool) -> bool {
    let from = mv.spec_from() as int;
    &&& pos.board()[from] == Some((pos.spec_side(), Piece::Pawn))
    &&& {
        ||| (!captures_only && pawn_push(pos, from, mv))
        ||| (!captures_only && pawn_double(pos, from, mv))
        ||| pawn_capture(pos, from, mv)
        ||| pawn_ep(pos, from, mv)
    }
}

/// Castling right bit `flag` is held.
pub open spec fn has_right(pos: Position, flag: u8) -> bool {
    pos.spec_castling() & flag != 0
}

/// One castling: the right is held, king and rook stand on their squares,
/// the squares between them are empty, and the king's square, the square it
/// crosses and its target are not attacked.
pub open spec fn castle_ok(
    pos: Position,
    c: Color,
    flag: u8,
    king: int,
    rook: int,
    between: Seq<int>,
    safe: Seq<int>,
) -> bool {
    let board = pos.board();
    &&& has_right(pos, flag)
    &&& board[king] == Some((c, Piece::King))
    &&& board[rook] == Some((c, Piece::Rook))
    &&& forall|i: int| 0 <= i < between.len() ==> board[#[trigger] between[i]] is None
    &&& forall|i: int| 0 <= i < safe.len() ==> !attacked_on(board, #[trigger] safe[i], c.spec_opposite())
}

/// A castling move.
pub open spec fn castle_move(pos: Position, mv: Move) -> bool {
    let us = pos.spec_side();
    &&& mv.spec_flags() == 3
    &&& mv.spec_promo() == 0
    &&& match us {
        Color::White => {
            ||| (mv.spec_from() == 4 && mv.spec_to() == 6 && castle_ok(pos, us, CastlingRights::WK, 4, 7, seq![5int, 6], seq![4int, 5, 6]))
            ||| (mv.spec_from() == 4 && mv.spec_to() == 2 && castle_ok(pos, us, CastlingRights::WQ, 4, 0, seq![1int, 2, 3], seq![4int, 3, 2]))
        },
        Color::Black => {
            ||| (mv.spec_from() == 60 && mv.spec_to() == 62 && castle_ok(pos, us, CastlingRights::BK, 60, 63, seq![61int, 62], seq![60int, 61, 62]))
            ||| (mv.spec_from() == 60 && mv.spec_to() == 58 && castle_ok(pos, us, CastlingRights::BQ, 60, 56, seq![57int, 58, 59], seq![60int, 59, 58]))
        },
    }
}

/// The moves the generator produces: pawn moves, piece moves and castling;
/// with `captures_only`, only captures (promotions by capture and
/// en-passant included) and no castling.
pub open spec fn pseudo_legal(pos: Position, mv: Move, captures_only: bool) -> bool {
    ||| pawn_move(pos, mv, captures_only)
    ||| piece_move(pos, Piece::Knight, mv, captures_only)
    ||| piece_move(pos, Piece::Bishop, mv, captures_only)
    ||| piece_move(pos, Piece::Rook, mv, captures_only)
    ||| piece_move(pos, Piece::Queen, mv, captures_only)
    ||| piece_move(pos, Piece::King, mv, captures_only)
    ||| (!captures_only && castle_move(pos, mv))
}

/// No pawn stands on its own side's far rank (a pawn there has no square
/// to push to).
pub open spec fn pawns_ok(pos: Position) -> bool {
    forall|s: int|
        0 <= s < 64 ==> {
            &&& (pos.board()[s] == Some((Color::White, Piece::Pawn)) ==> rank_of(s) != 7)
            &&& (pos.board()[s] == Some((Color::Black, Piece::Pawn)) ==> rank_of(s) != 0)
        }
}

/// The clocks can advance by one move without overflowing.
pub open spec fn clocks_ok(pos: Position) -> bool {
    &&& pos.spec_halfmove() < u32::MAX
    &&& (pos.spec_side() == Color::Black ==> pos.spec_fullmove() < u32::MAX)
}

/// What the generators need of a position.
pub open spec fn gen_ready(pos: Position) -> bool {
    pos.wf() && pawns_ok(pos) && clocks_ok(pos)
}

/// A legal move: pseudo-legal and not leaving the mover's king attacked.
pub open spec fn legal_move(pos: Position, mv: Move, captures_only: bool) -> bool {
    pseudo_legal(pos, mv, captures_only) && !in_check_on(
        pos.board_after(mv),
        pos.spec_side(),
    )
}


/// `m` lands on a square of the side not to move.
pub open spec fn lands_on_enemy(pos: Position, m: Move) -> bool {
    match pos.board()[m.spec_to() as int] {
        Some((c, _)) => c == pos.spec_side().spec_opposite(),
        None => false,
    }
}

/// The legal captures are the legal moves that take en passant or land on
/// a square of the side not to move.
pub proof fn lemma_captures_are_moves(pos: Position, m: Move)
    requires
        pos.wf(),
    ensures
        legal_move(pos, m, true) <==> legal_move(pos, m, false) && (m.spec_flags() == 2 || lands_on_enemy(pos, m)),
{
    if legal_move(pos, m, false) && castle_move(pos, m) {
        assert(seq![5int, 6][1] == 6 && seq![1int, 2, 3][1] == 2);
        assert(seq![61int, 62][1] == 62 && seq![57int, 58, 59][1] == 58);
    }
}

/// With a single king of colour `c`, on `k`, `c` is in check exactly when `k`
/// is attacked by the other colour.
pub proof fn lemma_check_is_king_attacked(board: Seq<Option<(Color, Piece)>>, c: Color, k: int)
    requires
        0 <= k < 64,
        board[k] == Some((c, Piece::King)),
        forall|s: int| 0 <= s < 64 && s != k ==> board[s] != Some((c, Piece::King)),
    ensures
        in_check_on(board, c) == attacked_on(board, k, c.spec_opposite()),
{
    lemma_lowest_king(board, c, k, 0);
}

proof fn lemma_lowest_king(board: Seq<Option<(Color, Piece)>>, c: Color, k: int, i: int)
    requires
        0 <= i <= k < 64,
        board[k] == Some((c, Piece::King)),
        forall|s: int| 0 <= s < 64 && s != k ==> board[s] != Some((c, Piece::King)),
    ensures
        king_square_from(board, c, i) == k,
    decreases k - i,
{
    if i < k {
        lemma_lowest_king(board, c, k, i + 1);
    }
}

/// `m` is a plain move from `from` onto a square of `targets`.
pub open spec fn plain_into(m: Move, from: int, targets: Set<int>) -> bool {
    &&& m.spec_from() == from
    &&& targets.contains(m.spec_to() as int)
    &&& m.spec_flags() == 0
    &&& m.spec_promo() == 0
}

/// No move of `l` satisfies `p`.
pub open spec fn none_in(l: Seq<Move>, p: spec_fn(Move) -> bool) -> bool {
    forall|m: Move| #[trigger] l.contains(m) ==> !p(m)
}

/// What appending to a move list keeps: every earlier move stays, the list
/// does not shrink, every new move satisfies `new`, and no move is repeated
/// when none was before and no earlier move satisfied `new`.
pub open spec fn grows(old_l: Seq<Move>, new_l: Seq<Move>, new: spec_fn(Move) -> bool) -> bool {
    &&& forall|m: Move| old_l.contains(m) ==> new_l.contains(m)
    &&& forall|m: Move| new_l.contains(m) ==> old_l.contains(m) || new(m)
    &&& old_l.len() <= new_l.len() <= MAX_MOVES
    &&& (old_l.no_duplicates() && none_in(old_l, new)) ==> new_l.no_duplicates()
}

/// Appending a move the list lacks keeps it free of repeats.
proof fn lemma_push_nodup(s: Seq<Move>, x: Move)
    requires
        s.no_duplicates(),
        !s.contains(x),
    ensures
        s.push(x).no_duplicates(),
{
    let t = s.push(x);
    assert forall|i: int, j: int| 0 <= i < t.len() && 0 <= j < t.len() && i != j implies t[i] != t[j] by {
        if i < s.len() && j < s.len() {
            assert(t[i] == s[i] && t[j] == s[j]);
        } else if i < s.len() {
            assert(t[i] == s[i]);
            assert(s.contains(s[i]));
        } else {
            assert(t[j] == s[j]);
            assert(s.contains(s[j]));
        }
    }
}

/// Appends a plain move from `from` to each square of `targets`, lowest
/// square first.
fn push_targets(from: Square, targets: Bitboard, moves: &mut MoveList)
    requires
        from.0 < 64,
        old(moves)@.len() <= MAX_MOVES,
    ensures
        grows(old(moves)@, final(moves)@, |m: Move| plain_into(m, from.0 as int, targets@)),
        final(moves)@.len() == MAX_MOVES || forall|m: Move|
            plain_into(m, from.0 as int, targets@) ==> final(moves)@.contains(m),
{
    let ghost old_l = moves@;
    let mut rest = targets;
    proof {
        assert(old_l.no_duplicates() && none_in(old_l, |m: Move| plain_into(m, from.0 as int, targets@))
            ==> none_in(old_l, |m: Move| plain_into(m, from.0 as int, targets@) && !rest@.contains(m.spec_to() as int)));
    }
    while !rest.is_empty()
        invariant
            from.0 < 64,
            rest@.subset_of(targets@),
            grows(old_l, moves@, |m: Move| plain_into(m, from.0 as int, targets@)),
            old_l.no_duplicates() && none_in(old_l, |m: Move| plain_into(m, from.0 as int, targets@)) ==> {
                &&& moves@.no_duplicates()
                &&& forall|m: Move| #[trigger] moves@.contains(m) && !old_l.contains(m) ==> !rest@.contains(m.spec_to() as int)
            },
            moves@.len() == MAX_MOVES || forall|m: Move|
                plain_into(m, from.0 as int, targets@) && !rest@.contains(m.spec_to() as int)
                    ==> moves@.contains(m),
        decreases popcount_bound(rest),
    {
        let ghost before = moves@;
        let ghost old_rest = rest;
        let to = rest.pop_lsb();
        let mv = Move::new(from, to, 0, 0);
        proof {
            lemma_remove_decreases(old_rest, to.0 as int);
            lemma_move_fields_roundtrip(from.0, to.0, 0, 0);
        }
        moves.push(mv);
        proof {
            if before.len() < MAX_MOVES {
                assert(moves@[moves@.len() - 1] == mv);
                assert forall|m: Move| before.contains(m) implies moves@.contains(m) by {
                    let i = choose|i: int| 0 <= i < before.len() && before[i] == m;
                    assert(moves@[i] == m);
                }
                assert forall|m: Move| moves@.contains(m) implies old_l.contains(m) || plain_into(m, from.0 as int, targets@) by {
                    let i = choose|i: int| 0 <= i < moves@.len() && moves@[i] == m;
                    if i < before.len() {
                        assert(before[i] == m);
                        assert(before.contains(m));
                    } else {
                        assert(m == mv);
                        assert(old_rest@.contains(to.0 as int));
                        assert(plain_into(mv, from.0 as int, targets@));
                    }
                }
                assert forall|m: Move|
                    plain_into(m, from.0 as int, targets@) && !rest@.contains(m.spec_to() as int)
                        implies moves@.contains(m) by {
                    if m.spec_to() == to.0 {
                        lemma_move_eq(m, mv);
                    } else {
                        assert(before.contains(m));
                        let i = choose|i: int| 0 <= i < before.len() && before[i] == m;
                        assert(moves@[i] == m);
                    }
                }
                if old_l.no_duplicates() && none_in(old_l, |m: Move| plain_into(m, from.0 as int, targets@)) {
                    assert(plain_into(mv, from.0 as int, targets@));
                    assert(!old_l.contains(mv));
                    if before.contains(mv) {
                        assert(old_rest@.contains(mv.spec_to() as int));
                    }
                    lemma_push_nodup(before, mv);
                    assert forall|m: Move| #[trigger] moves@.contains(m) && !old_l.contains(m)
                        implies !rest@.contains(m.spec_to() as int) by {
                        let i = choose|i: int| 0 <= i < moves@.len() && moves@[i] == m;
                        if i < before.len() {
                            assert(before[i] == m);
                            assert(before.contains(m));
                        }
                    }
                }
            }
        }
    }
    proof {
        assert(rest@ =~= Set::<int>::empty());
    }
}

/// The squares a move may end on: empty or capturable, and capturable only
/// when `captures_only`.
pub open spec fn dest_set(board: Seq<Option<(Color, Piece)>>, us: Color, captures_only: bool) -> Set<int> {
    Set::new(
        |t: int|
            0 <= t < 64 && enterable(board, t, us) && (captures_only ==> capturable(board, t, us)),
    )
}

/// The squares holding a piece `(c, p)`.
pub open spec fn squares_of(board: Seq<Option<(Color, Piece)>>, c: Color, p: Piece) -> Set<int> {
    Set::new(|s: int| 0 <= s < 64 && board[s] == Some((c, p)))
}

proof fn lemma_squares_of(pos: Position, b: Bitboard, c: Color, p: Piece)
    requires
        pos.wf(),
        b.0 == pos.bb(kind(c, p)),
    ensures
        b@ == squares_of(pos.board(), c, p),
{
    lemma_pieces_view(pos, b, c, p);
    assert(b@ =~= squares_of(pos.board(), c, p));
}

/// The lowest square holding a king of colour `c` is the first such square
/// at or after `i`.
proof fn lemma_king_square_from(board: Seq<Option<(Color, Piece)>>, c: Color, i: int)
    requires
        0 <= i <= 64,
    ensures
        i <= king_square_from(board, c, i) <= 64,
        king_square_from(board, c, i) < 64 ==> board[king_square_from(board, c, i)] == Some(
            (c, Piece::King),
        ),
        forall|j: int| i <= j < king_square_from(board, c, i) ==> board[j] != Some((c, Piece::King)),
    decreases 64 - i,
{
    if i < 64 && board[i] != Some((c, Piece::King)) {
        lemma_king_square_from(board, c, i + 1);
    }
}

/// The lowest bit of the king bitboard is the king square.
pub proof fn lemma_king_lsb(pos: Position, kb: Bitboard, c: Color)
    requires
        pos.wf(),
        kb.0 == pos.bb(kind(c, Piece::King)),
    ensures
        (kb.0 == 0) == (king_square_from(pos.board(), c, 0) == 64),
        kb.0 != 0 ==> u64_trailing_zeros(kb.0) == king_square_from(pos.board(), c, 0),
{
    let board = pos.board();
    lemma_squares_of(pos, kb, c, Piece::King);
    lemma_king_square_from(board, c, 0);
    lemma_empty_view(kb.0);
    let k = king_square_from(board, c, 0);
    if kb.0 != 0 {
        lemma_nonzero_has_bit(kb.0);
        let t = u64_trailing_zeros(kb.0) as int;
        assert(kb@.contains(t));
        if k < 64 {
            assert(kb@.contains(k));
            assert(!bit(kb.0, k) ==> !kb@.contains(k));
            if k < t {
                assert(!bit(kb.0, k));
            }
        }
    } else {
        if k < 64 {
            assert(kb@.contains(k));
        }
    }
}

/// The destination mask built from the colour and king bitboards.
proof fn lemma_dest_mask(
    pos: Position,
    us_occ: Bitboard,
    them_occ: Bitboard,
    eking: Bitboard,
    target: Bitboard,
    capture: Bitboard,
)
    requires
        pos.wf(),
        forall|s: int| 0 <= s < 64 ==> (#[trigger] bit(us_occ.0, s) <==> pos.owned_by(s, pos.spec_side())),
        forall|s: int|
            0 <= s < 64 ==> (#[trigger] bit(them_occ.0, s) <==> pos.owned_by(s, pos.spec_side().spec_opposite())),
        eking.0 == pos.bb(kind(pos.spec_side().spec_opposite(), Piece::King)),
        target.0 == !us_occ.0 & !eking.0,
        capture.0 == them_occ.0 & !eking.0,
    ensures
        target@ == dest_set(pos.board(), pos.spec_side(), false),
        capture@ == Set::new(|t: int| 0 <= t < 64 && capturable(pos.board(), t, pos.spec_side())),
        bits_set(target.0 & capture.0) == dest_set(pos.board(), pos.spec_side(), true),
{
    let board = pos.board();
    let us = pos.spec_side();
    lemma_squares_of(pos, eking, us.spec_opposite(), Piece::King);
    lemma_and_view(!us_occ.0, !eking.0);
    lemma_not_view(us_occ.0);
    lemma_not_view(eking.0);
    lemma_and_view(them_occ.0, !eking.0);
    lemma_and_view(target.0, capture.0);
    assert forall|t: int| target@.contains(t) <==> dest_set(board, us, false).contains(t) by {
        if 0 <= t < 64 {
            assert(bits_set(us_occ.0).contains(t) == bit(us_occ.0, t));
            assert(board[t] == pos.piece_on(t));
        }
    }
    assert(target@ =~= dest_set(board, us, false));
    assert forall|t: int|
        capture@.contains(t) <==> (0 <= t < 64 && capturable(pos.board(), t, us)) by {
        if 0 <= t < 64 {
            assert(bits_set(them_occ.0).contains(t) == bit(them_occ.0, t));
            assert(board[t] == pos.piece_on(t));
        }
    }
    assert(capture@ =~= Set::new(|t: int| 0 <= t < 64 && capturable(pos.board(), t, us)));
    assert(bits_set(target.0 & capture.0) =~= dest_set(pos.board(), pos.spec_side(), true));
}

/// The attack set of a knight, bishop, rook, queen or king on `from`.
fn attacks_of(p: Piece, from: Square, occ: Bitboard) -> (b: Bitboard)
    requires
        from.0 < 64,
        p != Piece::Pawn,
    ensures
        b@ == match p {
            Piece::Knight => knight_set(from.0 as int),
            Piece::Bishop => bishop_set(from.0 as int, occ@),
            Piece::Rook => rook_set(from.0 as int, occ@),
            Piece::Queen => queen_set(from.0 as int, occ@),
            _ => king_set(from.0 as int),
        },
{
    match p {
        Piece::Knight => magics::knight_attacks(from),
        Piece::Bishop => magics::bishop_attacks(from, occ),
        Piece::Rook => magics::rook_attacks(from, occ),
        Piece::Queen => magics::queen_attacks(from, occ),
        _ => magics::king_attacks(from),
    }
}

/// Appends the moves of every knight, bishop, rook or queen (`p`) of the
/// side to move onto the squares of `mask`.
#[verifier::spinoff_prover]
fn gen_piece_moves(
    pos: &Position,
    p: Piece,
    occ: Bitboard,
    mask: Bitboard,
    captures_only: bool,
    moves: &mut MoveList,
)
    requires
        pos.wf(),
        p == Piece::Knight || p == Piece::Bishop || p == Piece::Rook || p == Piece::Queen,
        occ@ == board_occupied(pos.board()),
        mask@ == dest_set(pos.board(), pos.spec_side(), captures_only),
        old(moves)@.len() <= MAX_MOVES,
    ensures
        grows(old(moves)@, final(moves)@, |m: Move| piece_move(*pos, p, m, captures_only)),
        final(moves)@.len() == MAX_MOVES || forall|m: Move|
            piece_move(*pos, p, m, captures_only) ==> final(moves)@.contains(m),
{
    let ghost old_l = moves@;
    let ghost board = pos.board();
    let us = pos.side_to_move();
    let all = pos.pieces(us, p);
    proof {
        lemma_squares_of(*pos, all, us, p);
    }
    let mut froms = all;
    proof {
        lemma_grows_refl(old_l, |m: Move| piece_move(*pos, p, m, captures_only) && !froms@.contains(m.spec_from() as int));
        assert forall|m: Move| piece_move(*pos, p, m, captures_only) implies froms@.contains(
            m.spec_from() as int,
        ) by {
            lemma_move_canonical(m);
        }
    }
    while !froms.is_empty()
        invariant
            pos.wf(),
            board == pos.board(),
            us == pos.spec_side(),
            p == Piece::Knight || p == Piece::Bishop || p == Piece::Rook || p == Piece::Queen,
            occ@ == board_occupied(board),
            mask@ == dest_set(board, us, captures_only),
            all@ == squares_of(board, us, p),
            froms@.subset_of(all@),
            grows(old_l, moves@, |m: Move| piece_move(*pos, p, m, captures_only) && !froms@.contains(m.spec_from() as int)),
            moves@.len() == MAX_MOVES || forall|m: Move|
                piece_move(*pos, p, m, captures_only) && !froms@.contains(m.spec_from() as int)
                    ==> moves@.contains(m),
        decreases popcount_bound(froms),
    {
        let ghost before = moves@;
        let ghost old_froms = froms;
        let from = froms.pop_lsb();
        proof {
            lemma_remove_decreases(old_froms, from.0 as int);
        }
        let att = attacks_of(p, from, occ);
        let targets = Bitboard(att.0 & mask.0);
        proof {
            lemma_and_view(att.0, mask.0);
            assert(board[from.0 as int] == Some((us, p)));
        }
        push_targets(from, targets, moves);
        proof {
            assert forall|m: Move| #[trigger] plain_into(m, from.0 as int, targets@) implies piece_move(
                *pos,
                p,
                m,
                captures_only,
            ) && !froms@.contains(m.spec_from() as int) by {}
            lemma_grows_chain(old_l, before, moves@,
                |m: Move| piece_move(*pos, p, m, captures_only) && !old_froms@.contains(m.spec_from() as int),
                |m: Move| plain_into(m, from.0 as int, targets@),
                |m: Move| piece_move(*pos, p, m, captures_only) && !froms@.contains(m.spec_from() as int));
            if moves@.len() < MAX_MOVES {
                assert forall|m: Move|
                    piece_move(*pos, p, m, captures_only) && !froms@.contains(
                        m.spec_from() as int,
                    ) implies moves@.contains(m) by {
                    if m.spec_from() == from.0 {
                        assert(plain_into(m, from.0 as int, targets@));
                    } else {
                        assert(before.contains(m));
                    }
                }
            }
        }
    }
    proof {
        lemma_grows_weaken(old_l, moves@,
            |m: Move| piece_move(*pos, p, m, captures_only) && !froms@.contains(m.spec_from() as int),
            |m: Move| piece_move(*pos, p, m, captures_only));
    }
}

/// `m` is a promotion from `from` to `to`.
pub open spec fn promotion_into(m: Move, from: int, to: int) -> bool {
    &&& m.spec_from() == from
    &&& m.spec_to() == to
    &&& m.spec_flags() == 1
    &&& m.spec_promo() < 4
}

/// Appends the four promotions (knight, bishop, rook, queen) of a pawn
/// moving from `from` to `to`.
fn push_promotions(from: Square, to: Square, moves: &mut MoveList)
    requires
        from.0 < 64,
        to.0 < 64,
        old(moves)@.len() <= MAX_MOVES,
    ensures
        grows(old(moves)@, final(moves)@, |m: Move| promotion_into(m, from.0 as int, to.0 as int)),
        final(moves)@.len() == MAX_MOVES || forall|m: Move|
            promotion_into(m, from.0 as int, to.0 as int) ==> final(moves)@.contains(m),
{
    let ghost old_l = moves@;
    let mut promo: u8 = 0;
    while promo < 4
        invariant
            from.0 < 64,
            to.0 < 64,
            promo <= 4,
            grows(old_l, moves@, |m: Move| promotion_into(m, from.0 as int, to.0 as int)),
            old_l.no_duplicates() && none_in(old_l, |m: Move| promotion_into(m, from.0 as int, to.0 as int)) ==> {
                &&& moves@.no_duplicates()
                &&& forall|m: Move| #[trigger] moves@.contains(m) && !old_l.contains(m) ==> m.spec_promo() < promo
            },
            moves@.len() == MAX_MOVES || forall|m: Move|
                promotion_into(m, from.0 as int, to.0 as int) && m.spec_promo() < promo
                    ==> moves@.contains(m),
        decreases 4 - promo,
    {
        let ghost before = moves@;
        let mv = Move::new(from, to, 1, promo);
        proof {
            lemma_move_fields_roundtrip(from.0, to.0, 1, promo);
        }
        moves.push(mv);
        proof {
            if before.len() < MAX_MOVES {
                assert(moves@[moves@.len() - 1] == mv);
                assert forall|m: Move| before.contains(m) implies moves@.contains(m) by {
                    let i = choose|i: int| 0 <= i < before.len() && before[i] == m;
                    assert(moves@[i] == m);
                }
                assert forall|m: Move| moves@.contains(m) implies old_l.contains(m)
                    || promotion_into(m, from.0 as int, to.0 as int) by {
                    let i = choose|i: int| 0 <= i < moves@.len() && moves@[i] == m;
                    if i < before.len() {
                        assert(before[i] == m);
                        assert(before.contains(m));
                    } else {
                        assert(m == mv);
                    }
                }
                assert forall|m: Move|
                    promotion_into(m, from.0 as int, to.0 as int) && m.spec_promo() < promo + 1
                        implies moves@.contains(m) by {
                    if m.spec_promo() == promo {
                        lemma_move_eq(m, mv);
                    } else {
                        assert(before.contains(m));
                        let i = choose|i: int| 0 <= i < before.len() && before[i] == m;
                        assert(moves@[i] == m);
                    }
                }
                if old_l.no_duplicates() && none_in(old_l, |m: Move| promotion_into(m, from.0 as int, to.0 as int)) {
                    assert(promotion_into(mv, from.0 as int, to.0 as int));
                    assert(!old_l.contains(mv));
                    lemma_push_nodup(before, mv);
                    assert forall|m: Move| #[trigger] moves@.contains(m) && !old_l.contains(m)
                        implies m.spec_promo() < promo + 1 by {
                        let i = choose|i: int| 0 <= i < moves@.len() && moves@[i] == m;
                        if i < before.len() {
                            assert(before[i] == m);
                            assert(before.contains(m));
                        }
                    }
                }
            }
        }
        promo = promo + 1;
    }
}

/// Growth composes: what `p` or `q` admits, `r` admits; `p` and `q`
/// admit no common move.
proof fn lemma_grows_chain(
    a: Seq<Move>,
    b: Seq<Move>,
    c: Seq<Move>,
    p: spec_fn(Move) -> bool,
    q: spec_fn(Move) -> bool,
    r: spec_fn(Move) -> bool,
)
    requires
        grows(a, b, p),
        grows(b, c, q),
        forall|m: Move| #[trigger] p(m) ==> r(m),
        forall|m: Move| #[trigger] q(m) ==> r(m),
        forall|m: Move| #[trigger] p(m) ==> !q(m),
    ensures
        grows(a, c, r),
{
    if a.no_duplicates() && none_in(a, r) {
        assert forall|m: Move| #[trigger] b.contains(m) implies !q(m) by {
            if a.contains(m) {
                assert(!r(m));
            }
        }
    }
}

/// Growth admitted by `p` is admitted by any weaker `r`.
proof fn lemma_grows_weaken(a: Seq<Move>, b: Seq<Move>, p: spec_fn(Move) -> bool, r: spec_fn(Move) -> bool)
    requires
        grows(a, b, p),
        forall|m: Move| #[trigger] p(m) ==> r(m),
    ensures
        grows(a, b, r),
{
    if a.no_duplicates() && none_in(a, r) {
        assert forall|m: Move| #[trigger] a.contains(m) implies !p(m) by {
            assert(!r(m));
        }
    }
}

/// Nothing appended.
proof fn lemma_grows_refl(a: Seq<Move>, r: spec_fn(Move) -> bool)
    requires
        a.len() <= MAX_MOVES,
    ensures
        grows(a, a, r),
{
}

/// Appends one move.
fn push_one(mv: Move, moves: &mut MoveList)
    requires
        old(moves)@.len() <= MAX_MOVES,
    ensures
        grows(old(moves)@, final(moves)@, |m: Move| m == mv),
        final(moves)@.len() == MAX_MOVES || final(moves)@.contains(mv),
{
    let ghost before = moves@;
    moves.push(mv);
    proof {
        if before.len() < MAX_MOVES {
            assert(moves@[moves@.len() - 1] == mv);
            assert forall|m: Move| before.contains(m) implies moves@.contains(m) by {
                let i = choose|i: int| 0 <= i < before.len() && before[i] == m;
                assert(moves@[i] == m);
            }
            assert forall|m: Move| moves@.contains(m) implies before.contains(m) || m == mv by {
                let i = choose|i: int| 0 <= i < moves@.len() && moves@[i] == m;
                if i < before.len() {
                    assert(before[i] == m);
                }
            }
            if before.no_duplicates() && none_in(before, |m: Move| m == mv) {
                lemma_push_nodup(before, mv);
            }
        }
    }
}

/// Appends the moves of the pawn on `from`: pushes (unless
/// `captures_only`), captures, promotions and en-passant.
#[verifier::spinoff_prover]
#[verifier::rlimit(40)]
fn generate_pawn_moves(pos: &Position, from: Square, moves: &mut MoveList, captures_only: bool)
    requires
        pos.wf(),
        pawns_ok(*pos),
        from.0 < 64,
        pos.board()[from.0 as int] == Some((pos.spec_side(), Piece::Pawn)),
        old(moves)@.len() <= MAX_MOVES,
    ensures
        grows(
            old(moves)@,
            final(moves)@,
            |m: Move| pawn_move(*pos, m, captures_only) && m.spec_from() == from.0,
        ),
        final(moves)@.len() == MAX_MOVES || forall|m: Move|
            pawn_move(*pos, m, captures_only) && m.spec_from() == from.0 ==> final(moves)@.contains(m),
{
    let ghost old_l = moves@;
    let ghost board = pos.board();
    let ghost f = from.0 as int;
    let ghost target = |m: Move| pawn_move(*pos, m, captures_only) && m.spec_from() == from.0;
    // Pushes stay on the pawn's file, captures leave it, en passant is flagged.
    let ghost straight = |m: Move| target(m) && m.spec_flags() != 2 && file_of(m.spec_to() as int) == file_of(f);
    let ghost nothing = |m: Move| false;
    let us = pos.side_to_move();
    let them = us.opposite();
    let occ = pos.occupancy();
    let them_occ = pos.occupancy_color(them);
    let rank = from.rank();
    let promo_r: u8 = if us == Color::White { 6 } else { 1 };
    let start_r: u8 = if us == Color::White { 1 } else { 6 };
    proof {
        assert(board[f] == pos.piece_on(f));
        assert(pos.board()[f] == Some((Color::White, Piece::Pawn)) ==> rank_of(f) != 7);
        assert(pos.board()[f] == Some((Color::Black, Piece::Pawn)) ==> rank_of(f) != 0);
        assert(us == Color::White ==> rank != 7);
        assert(us == Color::Black ==> rank != 0);
        lemma_grows_refl(old_l, target);
        lemma_grows_refl(old_l, nothing);
        lemma_grows_refl(old_l, straight);
    }
    // Pushes.
    if !captures_only {
        let to = if us == Color::White {
            Square(from.0 + 8)
        } else {
            Square(from.0 - 8)
        };
        if !occ.is_set(to) {
            proof {
                assert(board[to.0 as int] == pos.piece_on(to.0 as int));
            }
            if rank == promo_r {
                push_promotions(from, to, moves);
                proof {
                    lemma_grows_chain(
                        old_l,
                        old_l,
                        moves@,
                        nothing,
                        |m: Move| promotion_into(m, f, to.0 as int),
                        straight,
                    );
                }
            } else {
                let mv = Move::new(from, to, 0, 0);
                proof {
                    lemma_move_fields_roundtrip(from.0, to.0, 0, 0);
                }
                push_one(mv, moves);
                proof {
                    lemma_grows_chain(old_l, old_l, moves@, nothing, |m: Move| m == mv, straight);
                }
                if rank == start_r {
                    let to2 = if us == Color::White {
                        Square(from.0 + 16)
                    } else {
                        Square(from.0 - 16)
                    };
                    if !occ.is_set(to2) {
                        proof {
                            assert(board[to2.0 as int] == pos.piece_on(to2.0 as int));
                        }
                        let mv2 = Move::new(from, to2, 0, 0);
                        proof {
                            lemma_move_fields_roundtrip(from.0, to2.0, 0, 0);
                        }
                        let ghost mid = moves@;
                        push_one(mv2, moves);
                        proof {
                            lemma_grows_chain(old_l, mid, moves@, |m: Move| m == mv, |m: Move| m == mv2, straight);
                        }
                    }
                }
            }
        }
    }
    let ghost after_push = moves@;
    proof {
        assert(moves@.len() == MAX_MOVES || forall|m: Move|
            (#[trigger] target(m)) && !captures_only && (pawn_push(*pos, f, m) || pawn_double(*pos, f, m))
                ==> moves@.contains(m)) by {
            if moves@.len() < MAX_MOVES {
                assert forall|m: Move|
                    (#[trigger] target(m)) && !captures_only && (pawn_push(*pos, f, m) || pawn_double(*pos, f, m))
                        implies moves@.contains(m) by {
                    lemma_move_canonical(m);
                    let to = m.spec_to() as int;
                    assert(board[to] == pos.piece_on(to));
                    if pawn_push(*pos, f, m) {
                        if rank == promo_r {
                            assert(promotion_into(m, f, to));
                        } else {
                            lemma_move_eq(m, Move(move_bits(from.0, to as u8, 0, 0)));
                        }
                    } else {
                        assert(board[f + pawn_dir(us) * 8] == pos.piece_on(f + pawn_dir(us) * 8));
                        lemma_move_eq(m, Move(move_bits(from.0, to as u8, 0, 0)));
                    }
                }
            }
        }
    }
    // Captures (never of the king).
    let ek = pos.pieces(them, Piece::King);
    let pa = magics::pawn_attacks(us, from);
    let caps = Bitboard(pa.0 & (them_occ.0 & !ek.0));
    proof {
        lemma_squares_of(*pos, ek, them, Piece::King);
        lemma_and_view(pa.0, them_occ.0 & !ek.0);
        lemma_and_view(them_occ.0, !ek.0);
        lemma_not_view(ek.0);
        assert forall|t: int| caps@.contains(t) <==> (pawn_set(us, f).contains(t) && capturable(board, t, us)) by {
            if 0 <= t < 64 {
                assert(board[t] == pos.piece_on(t));
                assert(bits_set(them_occ.0).contains(t) == bit(them_occ.0, t));
            }
        }
    }
    let mut rest = caps;
    while !rest.is_empty()
        invariant
            pos.wf(),
            board == pos.board(),
            f == from.0,
            from.0 < 64,
            us == pos.spec_side(),
            rank == rank_of(f),
            promo_r == promo_rank(us),
            rest@.subset_of(caps@),
            forall|t: int| caps@.contains(t) <==> (pawn_set(us, f).contains(t) && capturable(board, t, us)),
            grows(old_l, moves@, |m: Move| straight(m) || (target(m) && m.spec_flags() != 2
                && file_of(m.spec_to() as int) != file_of(f) && !rest@.contains(m.spec_to() as int))),
            straight == (|m: Move| target(m) && m.spec_flags() != 2 && file_of(m.spec_to() as int) == file_of(f)),
            forall|m: Move| after_push.contains(m) ==> moves@.contains(m),
            after_push.len() <= moves@.len(),
            moves@.len() == MAX_MOVES || forall|m: Move|
                pawn_capture(*pos, f, m) && m.spec_from() == f && !rest@.contains(m.spec_to() as int)
                    ==> moves@.contains(m),
            target == (|m: Move| pawn_move(*pos, m, captures_only) && m.spec_from() == from.0),
            board[f] == Some((us, Piece::Pawn)),
        decreases popcount_bound(rest),
    {
        let ghost before = moves@;
        let ghost old_rest = rest;
        let to = rest.pop_lsb();
        proof {
            lemma_remove_decreases(old_rest, to.0 as int);
        }
        if rank == promo_r {
            push_promotions(from, to, moves);
            proof {
                lemma_grows_chain(old_l, before, moves@,
                    |m: Move| straight(m) || (target(m) && m.spec_flags() != 2
                        && file_of(m.spec_to() as int) != file_of(f) && !old_rest@.contains(m.spec_to() as int)),
                    |m: Move| promotion_into(m, f, to.0 as int),
                    |m: Move| straight(m) || (target(m) && m.spec_flags() != 2
                        && file_of(m.spec_to() as int) != file_of(f) && !rest@.contains(m.spec_to() as int)));
            }
        } else {
            let mv = Move::new(from, to, 0, 0);
            proof {
                lemma_move_fields_roundtrip(from.0, to.0, 0, 0);
            }
            push_one(mv, moves);
            proof {
                lemma_grows_chain(old_l, before, moves@,
                    |m: Move| straight(m) || (target(m) && m.spec_flags() != 2
                        && file_of(m.spec_to() as int) != file_of(f) && !old_rest@.contains(m.spec_to() as int)),
                    |m: Move| m == mv,
                    |m: Move| straight(m) || (target(m) && m.spec_flags() != 2
                        && file_of(m.spec_to() as int) != file_of(f) && !rest@.contains(m.spec_to() as int)));
            }
        }
        proof {
            if moves@.len() < MAX_MOVES {
                assert forall|m: Move|
                    pawn_capture(*pos, f, m) && m.spec_from() == f && !rest@.contains(m.spec_to() as int)
                        implies moves@.contains(m) by {
                    if m.spec_to() == to.0 {
                        if rank == promo_r {
                            assert(promotion_into(m, f, to.0 as int));
                        } else {
                            lemma_move_eq(m, Move(move_bits(from.0, to.0, 0, 0)));
                        }
                    } else {
                        assert(before.contains(m));
                    }
                }
            }
        }
    }
    let ghost after_caps = moves@;
    let ghost nonep = |m: Move| target(m) && m.spec_flags() != 2;
    proof {
        lemma_grows_weaken(old_l, moves@,
            |m: Move| straight(m) || (target(m) && m.spec_flags() != 2
                && file_of(m.spec_to() as int) != file_of(f) && !rest@.contains(m.spec_to() as int)),
            nonep);
        lemma_grows_weaken(old_l, moves@, nonep, target);
    }
    // En passant: onto the empty en-passant square on its proper rank,
    // taking the enemy pawn beside this one.
    let ep_r: u8 = if us == Color::White { 5 } else { 2 };
    if let Some(ep) = pos.en_passant_square() {
        if ep.rank() == ep_r && pa.is_set(ep) && !occ.is_set(ep) {
            let victim = Square((from.0 / 8) * 8 + ep.0 % 8);
            let is_victim = match pos.piece_at(victim) {
                Some((c, p)) => c == them && p == Piece::Pawn,
                None => false,
            };
            if is_victim {
                let mv = Move::new(from, ep, 2, 0);
                proof {
                    lemma_move_fields_roundtrip(from.0, ep.0, 2, 0);
                    assert(board[ep.0 as int] == pos.piece_on(ep.0 as int));
                    assert(board[victim.0 as int] == pos.piece_on(victim.0 as int));
                    assert(pawn_ep(*pos, f, mv));
                }
                push_one(mv, moves);
                proof {
                    lemma_grows_chain(old_l, after_caps, moves@, nonep, |m: Move| m == mv, target);
                }
            }
        }
    }
    proof {
        if moves@.len() < MAX_MOVES {
            assert forall|m: Move|
                pawn_move(*pos, m, captures_only) && m.spec_from() == from.0 implies moves@.contains(m) by {
                assert(target(m));
                if !captures_only && (pawn_push(*pos, f, m) || pawn_double(*pos, f, m)) {
                    assert(after_push.contains(m));
                } else if pawn_capture(*pos, f, m) {
                    assert(after_caps.contains(m));
                } else {
                    assert(pawn_ep(*pos, f, m));
                    let e = pos.spec_ep()->Some_0;
                    let to = m.spec_to() as int;
                    lemma_move_canonical(m);
                    assert(board[to] == pos.piece_on(to));
                    assert(board[ep_victim(f, to)] == pos.piece_on(ep_victim(f, to)));
                    lemma_move_eq(m, Move(move_bits(from.0, e.0, 2, 0)));
                }
            }
        }
    }
}

/// Whether `(c, p)` stands on `sq`.
fn piece_is(pos: &Position, sq: Square, c: Color, p: Piece) -> (r: bool)
    requires
        pos.wf(),
        sq.0 < 64,
    ensures
        r == (pos.board()[sq.0 as int] == Some((c, p))),
{
    match pos.piece_at(sq) {
        Some((c2, p2)) => c2 == c && p2 == p,
        None => false,
    }
}

/// Whether castling with right `flag` is available: the right is held,
/// king and rook stand on `king` and `rook`, the squares `between` are empty
/// and the squares `safe` are not attacked.
fn can_castle(
    pos: &Position,
    occ: Bitboard,
    flag: u8,
    king: u8,
    rook: u8,
    between: &[u8],
    safe: &[u8],
) -> (r: bool)
    requires
        pos.wf(),
        occ@ == board_occupied(pos.board()),
        king < 64,
        rook < 64,
        forall|i: int| 0 <= i < between@.len() ==> between@[i] < 64,
        forall|i: int| 0 <= i < safe@.len() ==> safe@[i] < 64,
    ensures
        r == castle_ok(
            *pos,
            pos.spec_side(),
            flag,
            king as int,
            rook as int,
            between@.map_values(|x: u8| x as int),
            safe@.map_values(|x: u8| x as int),
        ),
{
    let us = pos.side_to_move();
    let board = Ghost(pos.board());
    let bs = Ghost(between@.map_values(|x: u8| x as int));
    let ss = Ghost(safe@.map_values(|x: u8| x as int));
    if !pos.castling_rights().has(flag) {
        return false;
    }
    if !piece_is(pos, Square(king), us, Piece::King) || !piece_is(pos, Square(rook), us, Piece::Rook) {
        return false;
    }
    let mut i: usize = 0;
    while i < between.len()
        invariant
            pos.wf(),
            occ@ == board_occupied(pos.board()),
            i <= between@.len(),
            bs@ == between@.map_values(|x: u8| x as int),
            forall|j: int| 0 <= j < between@.len() ==> between@[j] < 64,
            forall|j: int| 0 <= j < i ==> pos.board()[#[trigger] bs@[j]] is None,
        decreases between@.len() - i,
    {
        if occ.is_set(Square(between[i])) {
            proof {
                assert(bs@[i as int] == between@[i as int] as int);
                assert(pos.board()[bs@[i as int]] is Some);
            }
            return false;
        }
        i = i + 1;
    }
    let them = us.opposite();
    let mut j: usize = 0;
    while j < safe.len()
        invariant
            pos.wf(),
            us == pos.spec_side(),
            them == us.spec_opposite(),
            j <= safe@.len(),
            ss@ == safe@.map_values(|x: u8| x as int),
            forall|k: int| 0 <= k < safe@.len() ==> safe@[k] < 64,
            forall|k: int| 0 <= k < j ==> !attacked_on(pos.board(), #[trigger] ss@[k], them),
        decreases safe@.len() - j,
    {
        if is_square_attacked(pos, Square(safe[j]), them) {
            proof {
                assert(ss@[j as int] == safe@[j as int] as int);
            }
            return false;
        }
        j = j + 1;
    }
    true
}

/// Appends the castling moves of the side to move (a castling right is used
/// only while its king and rook stand on their starting squares).
#[verifier::spinoff_prover]
fn generate_castling_moves(pos: &Position, moves: &mut MoveList)
    requires
        pos.wf(),
        old(moves)@.len() <= MAX_MOVES,
    ensures
        grows(old(moves)@, final(moves)@, |m: Move| castle_move(*pos, m)),
        final(moves)@.len() == MAX_MOVES || forall|m: Move|
            castle_move(*pos, m) ==> final(moves)@.contains(m),
{
    let ghost old_l = moves@;
    let us = pos.side_to_move();
    let occ = pos.occupancy();
    let (king, k_to, q_to, k_rook, q_rook, k_flag, q_flag): (u8, u8, u8, u8, u8, u8, u8) =
        if us == Color::White {
        (4, 6, 2, 7, 0, CastlingRights::WK, CastlingRights::WQ)
    } else {
        (60, 62, 58, 63, 56, CastlingRights::BK, CastlingRights::BQ)
    };
    let k_between: [u8; 2] = [king + 1, king + 2];
    let k_safe: [u8; 3] = [king, king + 1, king + 2];
    let q_between: [u8; 3] = [king - 3, king - 2, king - 1];
    let q_safe: [u8; 3] = [king, king - 1, king - 2];
    proof {
        assert(k_between@.map_values(|x: u8| x as int) =~= seq![king + 1, king + 2]);
        assert(k_safe@.map_values(|x: u8| x as int) =~= seq![king as int, king + 1, king + 2]);
        assert(q_between@.map_values(|x: u8| x as int) =~= seq![king - 3, king - 2, king - 1]);
        assert(q_safe@.map_values(|x: u8| x as int) =~= seq![king as int, king - 1, king - 2]);
        lemma_grows_refl(old_l, |m: Move| castle_move(*pos, m));
        assert(pos.occupied() =~= board_occupied(pos.board()));
    }
    let king_side = can_castle(pos, occ, k_flag, king, k_rook, &k_between, &k_safe);
    let kmv = Move::new(Square(king), Square(k_to), 3, 0);
    proof {
        lemma_move_fields_roundtrip(king, k_to, 3, 0);
    }
    proof {
        lemma_grows_refl(old_l, |m: Move| m == kmv && king_side);
    }
    if king_side {
        push_one(kmv, moves);
        proof {
            lemma_grows_weaken(old_l, moves@, |m: Move| m == kmv, |m: Move| m == kmv && king_side);
        }
    }
    let ghost mid = moves@;
    proof {
        lemma_grows_weaken(old_l, mid, |m: Move| m == kmv && king_side, |m: Move| castle_move(*pos, m));
    }
    let queen_side = can_castle(pos, occ, q_flag, king, q_rook, &q_between, &q_safe);
    let qmv = Move::new(Square(king), Square(q_to), 3, 0);
    proof {
        lemma_move_fields_roundtrip(king, q_to, 3, 0);
    }
    if queen_side {
        push_one(qmv, moves);
        proof {
            lemma_grows_chain(old_l, mid, moves@, |m: Move| m == kmv && king_side, |m: Move| m == qmv, |m: Move| castle_move(*pos, m));
        }
    }
    proof {
        if moves@.len() < MAX_MOVES {
            assert forall|m: Move| castle_move(*pos, m) implies moves@.contains(m) by {
                lemma_move_canonical(m);
                if m.spec_to() == k_to {
                    lemma_move_eq(m, kmv);
                    assert(mid.contains(m));
                } else {
                    lemma_move_eq(m, qmv);
                }
            }
        }
    }
}

/// Later appends keep what an earlier list already covered.
proof fn lemma_keep_complete(
    b: Seq<Move>,
    c: Seq<Move>,
    q: spec_fn(Move) -> bool,
    p: spec_fn(Move) -> bool,
)
    requires
        grows(b, c, q),
        b.len() == MAX_MOVES || forall|m: Move| #[trigger] p(m) ==> b.contains(m),
    ensures
        c.len() == MAX_MOVES || forall|m: Move| #[trigger] p(m) ==> c.contains(m),
{
}

/// Appends the pseudo-legal moves of the side to move (see `pseudo_legal`):
/// pawns, knights, bishops, rooks, queens, the king, then castling.
#[verifier::spinoff_prover]
#[verifier::rlimit(40)]
fn generate_pseudo_legal_moves(pos: &Position, moves: &mut MoveList, captures_only: bool)
    requires
        pos.wf(),
        pawns_ok(*pos),
        old(moves)@.len() <= MAX_MOVES,
    ensures
        grows(old(moves)@, final(moves)@, |m: Move| pseudo_legal(*pos, m, captures_only)),
        final(moves)@.len() == MAX_MOVES || forall|m: Move|
            pseudo_legal(*pos, m, captures_only) ==> final(moves)@.contains(m),
{
    let ghost old_l = moves@;
    let ghost board = pos.board();
    let ghost pl = |m: Move| pseudo_legal(*pos, m, captures_only);
    let us = pos.side_to_move();
    let them = us.opposite();
    let us_occ = pos.occupancy_color(us);
    let them_occ = pos.occupancy_color(them);
    let occ = pos.occupancy();
    // Never capture the enemy king: a position where that is possible
    // arose from an illegal move.
    let eking = pos.pieces(them, Piece::King);
    let target_mask = Bitboard(!us_occ.0 & !eking.0);
    let capture_mask = Bitboard(them_occ.0 & !eking.0);
    let mask = if captures_only {
        Bitboard(target_mask.0 & capture_mask.0)
    } else {
        target_mask
    };
    proof {
        lemma_dest_mask(*pos, us_occ, them_occ, eking, target_mask, capture_mask);
        assert(pos.occupied() =~= board_occupied(board));
        lemma_grows_refl(old_l, pl);
    }
    // Pawns
    let all_pawns = pos.pieces(us, Piece::Pawn);
    proof {
        lemma_squares_of(*pos, all_pawns, us, Piece::Pawn);
        assert forall|m: Move| pawn_move(*pos, m, captures_only) implies all_pawns@.contains(
            m.spec_from() as int,
        ) by {
            lemma_move_canonical(m);
        }
    }
    let mut pawns = all_pawns;
    proof {
        lemma_grows_refl(old_l, |m: Move| pawn_move(*pos, m, captures_only) && !pawns@.contains(m.spec_from() as int));
    }
    while !pawns.is_empty()
        invariant
            pos.wf(),
            pawns_ok(*pos),
            board == pos.board(),
            us == pos.spec_side(),
            all_pawns@ == squares_of(board, us, Piece::Pawn),
            pawns@.subset_of(all_pawns@),
            pl == (|m: Move| pseudo_legal(*pos, m, captures_only)),
            grows(old_l, moves@, |m: Move| pawn_move(*pos, m, captures_only) && !pawns@.contains(m.spec_from() as int)),
            moves@.len() == MAX_MOVES || forall|m: Move|
                pawn_move(*pos, m, captures_only) && !pawns@.contains(m.spec_from() as int)
                    ==> moves@.contains(m),
        decreases popcount_bound(pawns),
    {
        let ghost before = moves@;
        let ghost old_pawns = pawns;
        let from = pawns.pop_lsb();
        proof {
            lemma_remove_decreases(old_pawns, from.0 as int);
        }
        generate_pawn_moves(pos, from, moves, captures_only);
        proof {
            lemma_grows_chain(
                old_l,
                before,
                moves@,
                |m: Move| pawn_move(*pos, m, captures_only) && !old_pawns@.contains(m.spec_from() as int),
                |m: Move| pawn_move(*pos, m, captures_only) && m.spec_from() == from.0,
                |m: Move| pawn_move(*pos, m, captures_only) && !pawns@.contains(m.spec_from() as int),
            );
            if moves@.len() < MAX_MOVES {
                assert forall|m: Move|
                    pawn_move(*pos, m, captures_only) && !pawns@.contains(m.spec_from() as int)
                        implies moves@.contains(m) by {
                    if m.spec_from() != from.0 {
                        assert(before.contains(m));
                    }
                }
            }
        }
    }
    let ghost s1 = moves@;
    let ghost pw = |m: Move| pawn_move(*pos, m, captures_only);
    let ghost pn = |m: Move| pw(m) || piece_move(*pos, Piece::Knight, m, captures_only);
    let ghost pb = |m: Move| pn(m) || piece_move(*pos, Piece::Bishop, m, captures_only);
    let ghost pr = |m: Move| pb(m) || piece_move(*pos, Piece::Rook, m, captures_only);
    let ghost pq = |m: Move| pr(m) || piece_move(*pos, Piece::Queen, m, captures_only);
    let ghost pk = |m: Move| pq(m) || piece_move(*pos, Piece::King, m, captures_only);
    proof {
        lemma_grows_weaken(old_l, s1, |m: Move| pawn_move(*pos, m, captures_only) && !pawns@.contains(m.spec_from() as int), pw);
        assert(s1.len() == MAX_MOVES || forall|m: Move|
            #[trigger] pawn_move(*pos, m, captures_only) ==> s1.contains(m));
    }
    // Knights, bishops, rooks, queens
    gen_piece_moves(pos, Piece::Knight, occ, mask, captures_only, moves);
    let ghost s2 = moves@;
    proof {
        lemma_grows_chain(old_l, s1, s2, pw, |m: Move| piece_move(*pos, Piece::Knight, m, captures_only), pn);
        lemma_keep_complete(s1, s2, |m: Move| piece_move(*pos, Piece::Knight, m, captures_only),
            |m: Move| pawn_move(*pos, m, captures_only));
    }
    gen_piece_moves(pos, Piece::Bishop, occ, mask, captures_only, moves);
    let ghost s3 = moves@;
    proof {
        lemma_grows_chain(old_l, s2, s3, pn, |m: Move| piece_move(*pos, Piece::Bishop, m, captures_only), pb);
        lemma_keep_complete(s2, s3, |m: Move| piece_move(*pos, Piece::Bishop, m, captures_only),
            |m: Move| pawn_move(*pos, m, captures_only) || piece_move(*pos, Piece::Knight, m, captures_only));
    }
    gen_piece_moves(pos, Piece::Rook, occ, mask, captures_only, moves);
    let ghost s4 = moves@;
    proof {
        lemma_grows_chain(old_l, s3, s4, pb, |m: Move| piece_move(*pos, Piece::Rook, m, captures_only), pr);
        lemma_keep_complete(s3, s4, |m: Move| piece_move(*pos, Piece::Rook, m, captures_only),
            |m: Move| pawn_move(*pos, m, captures_only) || piece_move(*pos, Piece::Knight, m, captures_only)
                || piece_move(*pos, Piece::Bishop, m, captures_only));
    }
    gen_piece_moves(pos, Piece::Queen, occ, mask, captures_only, moves);
    let ghost s5 = moves@;
    proof {
        lemma_grows_chain(old_l, s4, s5, pr, |m: Move| piece_move(*pos, Piece::Queen, m, captures_only), pq);
        lemma_keep_complete(s4, s5, |m: Move| piece_move(*pos, Piece::Queen, m, captures_only),
            |m: Move| pawn_move(*pos, m, captures_only) || piece_move(*pos, Piece::Knight, m, captures_only)
                || piece_move(*pos, Piece::Bishop, m, captures_only) || piece_move(*pos, Piece::Rook, m, captures_only));
    }
    // King (the lowest one, should there be several)
    let king_bb = pos.pieces(us, Piece::King);
    proof {
        lemma_king_lsb(*pos, king_bb, us);
        lemma_king_square_from(board, us, 0);
        lemma_grows_refl(s5, |m: Move| piece_move(*pos, Piece::King, m, captures_only));
        lemma_grows_refl(s5, |m: Move| false);
    }
    if !king_bb.is_empty() {
        let from = king_bb.lsb();
        let att = magics::king_attacks(from);
        let targets = Bitboard(att.0 & mask.0);
        proof {
            lemma_and_view(att.0, mask.0);
        }
        push_targets(from, targets, moves);
        proof {
            assert forall|m: Move| plain_into(m, from.0 as int, targets@) implies piece_move(
                *pos,
                Piece::King,
                m,
                captures_only,
            ) by {}
            lemma_grows_chain(s5, s5, moves@, |m: Move| false,
                |m: Move| plain_into(m, from.0 as int, targets@),
                |m: Move| piece_move(*pos, Piece::King, m, captures_only));
            if moves@.len() < MAX_MOVES {
                assert forall|m: Move| piece_move(*pos, Piece::King, m, captures_only) implies moves@.contains(m) by {
                    assert(plain_into(m, from.0 as int, targets@));
                }
            }
        }
    }
    let ghost s6 = moves@;
    proof {
        if king_bb.0 == 0 {
            assert forall|m: Move| !piece_move(*pos, Piece::King, m, captures_only) by {
                lemma_move_canonical(m);
            }
        }
        assert(s6.len() == MAX_MOVES || forall|m: Move|
            #[trigger] piece_move(*pos, Piece::King, m, captures_only) ==> s6.contains(m));
        lemma_grows_chain(old_l, s5, s6, pq, |m: Move| piece_move(*pos, Piece::King, m, captures_only), pk);
        lemma_keep_complete(s5, s6, |m: Move| piece_move(*pos, Piece::King, m, captures_only),
            |m: Move| pawn_move(*pos, m, captures_only) || piece_move(*pos, Piece::Knight, m, captures_only)
                || piece_move(*pos, Piece::Bishop, m, captures_only) || piece_move(*pos, Piece::Rook, m, captures_only)
                || piece_move(*pos, Piece::Queen, m, captures_only));
        lemma_grows_refl(s6, |m: Move| castle_move(*pos, m) && !captures_only);
    }
    // Castling
    if !captures_only {
        generate_castling_moves(pos, moves);
    }
    proof {
        lemma_grows_chain(old_l, s6, moves@, pk, |m: Move| castle_move(*pos, m) && !captures_only, pl);
        lemma_keep_complete(s6, moves@, |m: Move| castle_move(*pos, m) && !captures_only,
            |m: Move| pawn_move(*pos, m, captures_only) || piece_move(*pos, Piece::Knight, m, captures_only)
                || piece_move(*pos, Piece::Bishop, m, captures_only) || piece_move(*pos, Piece::Rook, m, captures_only)
                || piece_move(*pos, Piece::Queen, m, captures_only) || piece_move(*pos, Piece::King, m, captures_only));
        if moves@.len() < MAX_MOVES {
            assert forall|m: Move| pseudo_legal(*pos, m, captures_only) implies moves@.contains(m) by {
                if !(pawn_move(*pos, m, captures_only) || piece_move(*pos, Piece::Knight, m, captures_only)
                    || piece_move(*pos, Piece::Bishop, m, captures_only) || piece_move(*pos, Piece::Rook, m, captures_only)
                    || piece_move(*pos, Piece::Queen, m, captures_only) || piece_move(*pos, Piece::King, m, captures_only)) {
                    assert(castle_move(*pos, m) && !captures_only);
                }
            }
        }
    }
}

/// A generated move may be made: it satisfies what `make_move` requires.
pub proof fn lemma_pseudo_legal_move_ok(pos: Position, mv: Move, captures_only: bool)
    requires
        pos.wf(),
        clocks_ok(pos),
        pseudo_legal(pos, mv, captures_only),
    ensures
        pos.move_ok(mv),
{
    let board = pos.board();
    let from = mv.spec_from() as int;
    let to = mv.spec_to() as int;
    lemma_move_canonical(mv);
    assert(board[from] == pos.piece_on(from));
    assert(board[to] == pos.piece_on(to));
    if mv.spec_flags() == 2 {
        assert(board[ep_victim(from, to)] == pos.piece_on(ep_victim(from, to)));
    }
    if castle_move(pos, mv) {
        assert(board[rook_from_of(to)] == pos.piece_on(rook_from_of(to)));
        assert(board[rook_to_of(to)] == pos.piece_on(rook_to_of(to)));
        if pos.spec_side() == Color::White {
            if to == 6 {
                assert(seq![5int, 6][0] == 5);
                assert(seq![5int, 6][1] == 6);
            } else {
                assert(seq![1int, 2, 3][1] == 2);
                assert(seq![1int, 2, 3][2] == 3);
            }
        } else {
            if to == 62 {
                assert(seq![61int, 62][0] == 61);
                assert(seq![61int, 62][1] == 62);
            } else {
                assert(seq![57int, 58, 59][1] == 58);
                assert(seq![57int, 58, 59][2] == 59);
            }
        }
    }
}

/// At least `MAX_MOVES` distinct pseudo-legal moves exist: more than a move
/// list holds, so the generators may drop some.
pub open spec fn crowded(pos: Position, captures_only: bool) -> bool {
    exists|s: Seq<Move>|
        #![trigger s.no_duplicates()]
        s.len() == MAX_MOVES && s.no_duplicates() && forall|i: int|
            0 <= i < s.len() ==> pseudo_legal(pos, #[trigger] s[i], captures_only)
}

/// The pseudo-legal moves that do not leave the mover's king attacked, in
/// generation order, each once; all of them unless the position is crowded.
#[verifier::spinoff_prover]
fn generate_legal(pos: &Position, captures_only: bool) -> (r: MoveList)
    requires
        gen_ready(*pos),
    ensures
        forall|i: int| 0 <= i < r@.len() ==> legal_move(*pos, #[trigger] r@[i], captures_only),
        r@.no_duplicates(),
        !crowded(*pos, captures_only) ==> forall|m: Move|
            legal_move(*pos, m, captures_only) ==> #[trigger] r@.contains(m),
{
    let mut moves = MoveList::new();
    proof {
        assert(Seq::<Move>::empty().no_duplicates());
    }
    generate_pseudo_legal_moves(pos, &mut moves, captures_only);
    proof {
        assert(moves@.no_duplicates());
        if moves@.len() == MAX_MOVES {
            assert forall|i: int| 0 <= i < moves@.len() implies pseudo_legal(*pos, #[trigger] moves@[i], captures_only) by {
                assert(moves@.contains(moves@[i]));
            }
            assert(crowded(*pos, captures_only));
        }
    }
    let mut legal_moves = MoveList::new();
    let us = pos.side_to_move();
    let n = moves.len();
    let mut i: usize = 0;
    while i < n
        invariant
            gen_ready(*pos),
            us == pos.spec_side(),
            n == moves@.len(),
            i <= n,
            grows(Seq::empty(), moves@, |m: Move| pseudo_legal(*pos, m, captures_only)),
            moves@.no_duplicates(),
            moves@.len() == MAX_MOVES ==> crowded(*pos, captures_only),
            moves@.len() == MAX_MOVES || forall|m: Move|
                pseudo_legal(*pos, m, captures_only) ==> moves@.contains(m),
            forall|j: int| 0 <= j < legal_moves@.len() ==> legal_move(*pos, #[trigger] legal_moves@[j], captures_only),
            legal_moves@.len() <= i,
            legal_moves@.no_duplicates(),
            forall|j: int| 0 <= j < legal_moves@.len() ==> exists|k: int| 0 <= k < i && #[trigger] legal_moves@[j] == moves@[k],
            forall|j: int| 0 <= j < i && legal_move(*pos, moves@[j], captures_only) ==> legal_moves@.contains(moves@[j]),
        decreases n - i,
    {
        let mv = moves.get(i);
        proof {
            assert(moves@.contains(mv));
            lemma_pseudo_legal_move_ok(*pos, mv, captures_only);
        }
        let mut next_pos = *pos;
        next_pos.make_move(mv);
        let ghost before = legal_moves@;
        if !next_pos.is_in_check(us) {
            proof {
                if before.contains(mv) {
                    let j = choose|j: int| 0 <= j < before.len() && before[j] == mv;
                    let k = choose|k: int| 0 <= k < i && #[trigger] before[j] == moves@[k];
                    assert(moves@[k] == moves@[i as int]);
                }
                lemma_push_nodup(before, mv);
            }
            legal_moves.push(mv);
            proof {
                assert(legal_moves@[legal_moves@.len() - 1] == mv);
                assert forall|j: int| 0 <= j < legal_moves@.len() implies legal_move(
                    *pos,
                    #[trigger] legal_moves@[j],
                    captures_only,
                ) by {
                    if j < before.len() {
                        assert(legal_moves@[j] == before[j]);
                    }
                }
                assert forall|j: int| 0 <= j < legal_moves@.len() implies exists|k: int| 0 <= k < i + 1 && #[trigger] legal_moves@[j] == moves@[k] by {
                    if j < before.len() {
                        assert(legal_moves@[j] == before[j]);
                        let k = choose|k: int| 0 <= k < i && #[trigger] before[j] == moves@[k];
                        assert(legal_moves@[j] == moves@[k]);
                    } else {
                        assert(legal_moves@[j] == moves@[i as int]);
                    }
                }
            }
        }
        proof {
            assert forall|j: int| 0 <= j < i + 1 && legal_move(*pos, moves@[j], captures_only) implies legal_moves@.contains(moves@[j]) by {
                if j < i {
                    let k = choose|k: int| 0 <= k < before.len() && before[k] == moves@[j];
                    assert(legal_moves@[k] == before[k]);
                }
            }
        }
        i = i + 1;
    }
    proof {
        if !crowded(*pos, captures_only) {
            assert forall|m: Move| legal_move(*pos, m, captures_only) implies #[trigger] legal_moves@.contains(m) by {
                assert(moves@.contains(m));
                let j = choose|j: int| 0 <= j < moves@.len() && moves@[j] == m;
            }
        }
    }
    legal_moves
}

/// All legal moves of the side to move, each once (all of them unless more
/// than `MAX_MOVES` pseudo-legal moves exist).
pub fn generate_moves(pos: &Position) -> (r: MoveList)
    requires
        gen_ready(*pos),
    ensures
        forall|i: int| 0 <= i < r@.len() ==> legal_move(*pos, #[trigger] r@[i], false),
        r@.no_duplicates(),
        !crowded(*pos, false) ==> forall|m: Move| legal_move(*pos, m, false) ==> #[trigger] r@.contains(m),
{
    generate_legal(pos, false)
}

/// The legal captures (promotions by capture and en-passant included) of
/// the side to move, each once (all of them unless more than `MAX_MOVES`
/// pseudo-legal captures exist).
pub fn generate_captures(pos: &Position) -> (r: MoveList)
    requires
        gen_ready(*pos),
    ensures
        forall|i: int| 0 <= i < r@.len() ==> legal_move(*pos, #[trigger] r@[i], true),
        r@.no_duplicates(),
        !crowded(*pos, true) ==> forall|m: Move| legal_move(*pos, m, true) ==> #[trigger] r@.contains(m),
{
    generate_legal(pos, true)
}

/// A pseudo-legal move never leaves a pawn on its far rank.
pub proof fn lemma_pawns_ok_after(pos: Position, mv: Move, captures_only: bool, next: Position)
    requires
        pos.wf(),
        pawns_ok(pos),
        pseudo_legal(pos, mv, captures_only),
        next.board() == pos.board_after(mv),
    ensures
        pawns_ok(next),
{
    let board = pos.board();
    let us = pos.spec_side();
    let from = mv.spec_from() as int;
    let to = mv.spec_to() as int;
    lemma_move_canonical(mv);
    assert(board[from] == pos.piece_on(from));
    assert forall|s: int| 0 <= s < 64 implies {
        &&& (next.board()[s] == Some((Color::White, Piece::Pawn)) ==> rank_of(s) != 7)
        &&& (next.board()[s] == Some((Color::Black, Piece::Pawn)) ==> rank_of(s) != 0)
    } by {
        assert(next.board()[s] == pos.placement_after(mv, s));
        assert(board[s] == pos.piece_on(s));
        if s == to && pos.moving_piece(mv) == Piece::Pawn && mv.spec_flags() != 1 {
            assert(pawn_move(pos, mv, captures_only));
        }
    }
}

/// `MAX_MOVES` to the power `d`: the most leaves a tree of `d` plies of
/// move lists can have.
pub open spec fn max_leaves(d: nat) -> int
    decreases d,
{
    if d == 0 {
        1
    } else {
        MAX_MOVES * max_leaves((d - 1) as nat)
    }
}

proof fn lemma_max_leaves(d: nat)
    requires
        d <= 6,
    ensures
        0 < max_leaves(d) <= 0x1_0000_0000_0000,
    decreases d,
{
    if d > 0 {
        lemma_max_leaves((d - 1) as nat);
        assert(max_leaves((d - 1) as nat) <= 0x100_0000_0000) by {
            if d - 1 < 6 {
                lemma_max_leaves_small((d - 1) as nat);
            }
        }
    }
}

proof fn lemma_max_leaves_small(d: nat)
    requires
        d <= 5,
    ensures
        0 < max_leaves(d) <= 0x100_0000_0000,
    decreases d,
{
    if d > 0 {
        lemma_max_leaves_small((d - 1) as nat);
        assert(max_leaves((d - 1) as nat) <= 0x1_0000_0000) by {
            lemma_max_leaves_tiny((d - 1) as nat);
        }
    }
}

proof fn lemma_max_leaves_tiny(d: nat)
    requires
        d <= 4,
    ensures
        0 < max_leaves(d) <= 0x1_0000_0000,
    decreases d,
{
    if d > 0 {
        lemma_max_leaves_tiny((d - 1) as nat);
        reveal_with_fuel(max_leaves, 5);
        assert(max_leaves(0) == 1);
        assert(max_leaves(1) == 0x100);
        assert(max_leaves(2) == 0x1_0000);
        assert(max_leaves(3) == 0x100_0000);
        assert(max_leaves(4) == 0x1_0000_0000);
    }
}

/// A generated move starts from a square holding a piece of the mover.
pub proof fn lemma_pseudo_legal_from(pos: Position, mv: Move, captures_only: bool)
    requires
        pseudo_legal(pos, mv, captures_only),
    ensures
        mv.spec_from() < 64,
        pos.board()[mv.spec_from() as int] matches Some((c, _)) && c == pos.spec_side(),
{
    lemma_move_canonical(mv);
}

/// Whether `pos` is ready for move generation (see `gen_ready`).
pub fn is_gen_ready(pos: &Position) -> (b: bool)
    requires
        pos.wf(),
    ensures
        b == gen_ready(*pos),
{
    if pos.halfmove_clock() == u32::MAX {
        return false;
    }
    if pos.side_to_move() == Color::Black && pos.fullmove_number() == u32::MAX {
        return false;
    }
    let mut s: u8 = 0;
    while s < 64
        invariant
            s <= 64,
            pos.wf(),
            forall|k: int|
                0 <= k < s ==> {
                    &&& (pos.board()[k] == Some((Color::White, Piece::Pawn)) ==> rank_of(k) != 7)
                    &&& (pos.board()[k] == Some((Color::Black, Piece::Pawn)) ==> rank_of(k) != 0)
                },
        decreases 64 - s,
    {
        proof {
            assert(pos.board()[s as int] == pos.piece_on(s as int));
        }
        match pos.piece_at(Square(s)) {
            Some((c, p)) => {
                if p == Piece::Pawn && ((c == Color::White && s / 8 == 7) || (c == Color::Black && s / 8
                    == 0)) {
                    proof {
                        let k = s as int;
                        if c == Color::White {
                            assert(pos.board()[k] == Some((Color::White, Piece::Pawn)));
                            assert(rank_of(k) == 7);
                        } else {
                            assert(pos.board()[k] == Some((Color::Black, Piece::Pawn)));
                            assert(rank_of(k) == 0);
                        }
                        assert(!pawns_ok(*pos));
                    }
                    return false;
                }
            },
            None => {},
        }
        s = s + 1;
    }
    true
}

/// The position `mv` leads to from `pos` (see `made`).
pub open spec fn after(pos: Position, mv: Move) -> Position {
    choose|q: Position| made(pos, mv, q)
}

/// Sum of `h` over the moves `Move(i)`, `Move(i + 1)`, ... that satisfy `p`.
pub open spec fn range_sum(p: spec_fn(Move) -> bool, h: spec_fn(Move) -> int, i: int) -> int
    decreases 65536 - i,
{
    if i < 0 || i >= 65536 {
        0
    } else {
        (if p(Move(i as u16)) {
            h(Move(i as u16))
        } else {
            0
        }) + range_sum(p, h, i + 1)
    }
}

/// Sum of `h` over the moves of a list.
pub open spec fn seq_sum(l: Seq<Move>, h: spec_fn(Move) -> int) -> int
    decreases l.len(),
{
    if l.len() == 0 {
        0
    } else {
        seq_sum(l.drop_last(), h) + h(l.last())
    }
}

/// The number of legal move sequences of `depth` plies from `pos`.
pub open spec fn leaf_count(pos: Position, depth: nat) -> int
    decreases depth, 65538int,
{
    if depth == 0 {
        1
    } else {
        leaf_sum(pos, depth, 0)
    }
}

/// The leaf counts below the legal moves `Move(i)`, `Move(i + 1)`, ...
pub open spec fn leaf_sum(pos: Position, depth: nat, i: int) -> int
    decreases depth, 65537 - i,
{
    if depth == 0 || i < 0 || i >= 65536 {
        0
    } else {
        (if legal_move(pos, Move(i as u16), false) {
            leaf_count(after(pos, Move(i as u16)), (depth - 1) as nat)
        } else {
            0
        }) + leaf_sum(pos, depth, i + 1)
    }
}

/// No position of the legal-move tree of `depth` plies below `pos` (leaves
/// aside) is crowded, so the generator lists every legal move there.
pub open spec fn roomy(pos: Position, depth: nat) -> bool
    decreases depth,
{
    depth == 0 || (!crowded(pos, false) && forall|m: Move|
        legal_move(pos, m, false) ==> roomy(#[trigger] after(pos, m), (depth - 1) as nat))
}

/// Dropping one move `x` from what `p` admits takes `h(x)` out of the sum.
proof fn lemma_range_sum_remove(p: spec_fn(Move) -> bool, q: spec_fn(Move) -> bool, h: spec_fn(Move) -> int, x: Move, i: int)
    requires
        0 <= i <= 65536,
        p(x),
        !q(x),
        forall|m: Move| m != x ==> #[trigger] p(m) == q(m),
    ensures
        range_sum(p, h, i) == range_sum(q, h, i) + if i <= x.0 { h(x) } else { 0 },
    decreases 65536 - i,
{
    if i < 65536 {
        lemma_range_sum_remove(p, q, h, x, i + 1);
        if i == x.0 {
            assert(Move(i as u16) == x);
        } else {
            assert(Move(i as u16) != x);
        }
    }
}

/// The sum over a list holding each move `p` admits once is the sum over
/// those moves.
proof fn lemma_seq_sum_range(l: Seq<Move>, p: spec_fn(Move) -> bool, h: spec_fn(Move) -> int)
    requires
        l.no_duplicates(),
        forall|m: Move| l.contains(m) == p(m),
    ensures
        seq_sum(l, h) == range_sum(p, h, 0),
    decreases l.len(),
{
    if l.len() == 0 {
        assert forall|m: Move| !#[trigger] p(m) by {
            assert(!l.contains(m));
        }
        lemma_range_sum_none(p, h, 0);
    } else {
        let x = l.last();
        let rest = l.drop_last();
        let q = |m: Move| p(m) && m != x;
        assert(l.contains(x));
        assert forall|m: Move| rest.contains(m) == q(m) by {
            if rest.contains(m) {
                let j = choose|j: int| 0 <= j < rest.len() && rest[j] == m;
                assert(l[j] == m);
                assert(l.contains(m));
                assert(l[l.len() - 1] == x);
                assert(j != l.len() - 1);
            }
            if q(m) {
                assert(l.contains(m));
                let j = choose|j: int| 0 <= j < l.len() && l[j] == m;
                assert(j != l.len() - 1);
                assert(rest[j] == m);
            }
        }
        assert(rest.no_duplicates()) by {
            assert forall|a: int, b: int| 0 <= a < rest.len() && 0 <= b < rest.len() && a != b implies rest[a] != rest[b] by {
                assert(rest[a] == l[a] && rest[b] == l[b]);
            }
        }
        lemma_seq_sum_range(rest, q, h);
        lemma_range_sum_remove(p, q, h, x, 0);
    }
}

/// A predicate admitting nothing sums to 0.
proof fn lemma_range_sum_none(p: spec_fn(Move) -> bool, h: spec_fn(Move) -> int, i: int)
    requires
        0 <= i <= 65536,
        forall|m: Move| !#[trigger] p(m),
    ensures
        range_sum(p, h, i) == 0,
    decreases 65536 - i,
{
    if i < 65536 {
        lemma_range_sum_none(p, h, i + 1);
    }
}

/// The leaf sum is the range sum of the children's leaf counts over the
/// legal moves.
proof fn lemma_leaf_sum_range(pos: Position, depth: nat, i: int)
    requires
        depth > 0,
        0 <= i <= 65536,
    ensures
        leaf_sum(pos, depth, i) == range_sum(
            |m: Move| legal_move(pos, m, false),
            |m: Move| leaf_count(after(pos, m), (depth - 1) as nat),
            i,
        ),
    decreases 65536 - i,
{
    if i < 65536 {
        lemma_leaf_sum_range(pos, depth, i + 1);
    }
}

/// A list sum of ones is the list's length.
proof fn lemma_seq_sum_ones(l: Seq<Move>, h: spec_fn(Move) -> int)
    requires
        forall|m: Move| #[trigger] h(m) == 1,
    ensures
        seq_sum(l, h) == l.len(),
    decreases l.len(),
{
    if l.len() > 0 {
        lemma_seq_sum_ones(l.drop_last(), h);
    }
}

/// The position after a made move is `after`.
proof fn lemma_after(pos: Position, mv: Move, next: Position)
    requires
        made(pos, mv, next),
    ensures
        after(pos, mv) == next,
{
    let q = after(pos, mv);
    assert(made(pos, mv, q));
    q.lemma_fields_determine(next);
}

/// Leaf counts are never negative.
proof fn lemma_leaf_count_nonneg(pos: Position, depth: nat)
    ensures
        leaf_count(pos, depth) >= 0,
    decreases depth, 65538int,
{
    if depth > 0 {
        lemma_leaf_sum_nonneg(pos, depth, 0);
    }
}

proof fn lemma_leaf_sum_nonneg(pos: Position, depth: nat, i: int)
    ensures
        leaf_sum(pos, depth, i) >= 0,
    decreases depth, 65537 - i,
{
    if !(depth == 0 || i < 0 || i >= 65536) {
        lemma_leaf_sum_nonneg(pos, depth, i + 1);
        if legal_move(pos, Move(i as u16), false) {
            lemma_leaf_count_nonneg(after(pos, Move(i as u16)), (depth - 1) as nat);
        }
    }
}

/// With no negative term, a prefix of a list sums to at most the whole
/// list, and to at least zero.
proof fn lemma_seq_sum_prefix(l: Seq<Move>, h: spec_fn(Move) -> int, i: int)
    requires
        0 <= i <= l.len(),
        forall|m: Move| #[trigger] h(m) >= 0,
    ensures
        0 <= seq_sum(l.subrange(0, i), h) <= seq_sum(l, h),
    decreases l.len(),
{
    if i == l.len() {
        assert(l.subrange(0, i) =~= l);
        if l.len() > 0 {
            lemma_seq_sum_prefix(l.drop_last(), h, i - 1);
            assert(l.drop_last().subrange(0, i - 1) =~= l.drop_last());
        }
    } else {
        lemma_seq_sum_prefix(l.drop_last(), h, i);
        assert(l.drop_last().subrange(0, i) =~= l.subrange(0, i));
    }
}

/// Perft: the number of leaf nodes of the legal-move tree of `depth` plies
/// (every legal move sequence of that length, when no position of the tree
/// is crowded). Beyond 7 plies the count could exceed 64 bits; there it is
/// taken on trees with no crowded position whose count fits.
#[verifier::spinoff_prover]
pub fn perft(pos: &Position, depth: u32) -> (n: u64)
    requires
        gen_ready(*pos),
        depth <= 7 || (roomy(*pos, depth as nat) && leaf_count(*pos, depth as nat) <= u64::MAX),
        pos.spec_halfmove() + depth < u32::MAX,
        pos.spec_fullmove() + depth < u32::MAX,
    ensures
        depth == 0 ==> n == 1,
        depth <= 7 ==> n <= max_leaves(depth as nat),
        roomy(*pos, depth as nat) ==> n == leaf_count(*pos, depth as nat),
    decreases depth,
{
    if depth == 0 {
        return 1;
    }
    let moves = generate_moves(pos);
    let ghost legal = |m: Move| legal_move(*pos, m, false);
    let ghost h = |m: Move| leaf_count(after(*pos, m), (depth - 1) as nat);
    proof {
        if depth <= 7 {
            lemma_max_leaves((depth - 1) as nat);
        }
        lemma_leaf_sum_range(*pos, depth as nat, 0);
        if roomy(*pos, depth as nat) {
            assert forall|m: Move| moves@.contains(m) == legal(m) by {
                if moves@.contains(m) {
                    let j = choose|j: int| 0 <= j < moves@.len() && moves@[j] == m;
                    assert(legal_move(*pos, moves@[j], false));
                }
            }
            lemma_seq_sum_range(moves@, legal, h);
        }
        assert forall|m: Move| #[trigger] h(m) >= 0 by {
            lemma_leaf_count_nonneg(after(*pos, m), (depth - 1) as nat);
        }
    }
    if depth == 1 {
        proof {
            if roomy(*pos, depth as nat) {
                assert forall|m: Move| #[trigger] h(m) == 1 by {}
                lemma_seq_sum_ones(moves@, h);
            }
        }
        return moves.len() as u64;
    }
    let ghost bound = max_leaves((depth - 1) as nat);
    let mut nodes: u64 = 0;
    let n = moves.len();
    let mut i: usize = 0;
    while i < n
        invariant
            gen_ready(*pos),
            2 <= depth,
            depth <= 7 || (roomy(*pos, depth as nat) && leaf_count(*pos, depth as nat) <= u64::MAX),
            pos.spec_halfmove() + depth < u32::MAX,
            pos.spec_fullmove() + depth < u32::MAX,
            n == moves@.len(),
            n <= MAX_MOVES,
            i <= n,
            forall|j: int| 0 <= j < moves@.len() ==> legal_move(*pos, #[trigger] moves@[j], false),
            bound == max_leaves((depth - 1) as nat),
            depth <= 7 ==> 0 < bound <= 0x1_0000_0000_0000,
            depth <= 7 ==> nodes <= i * bound,
            h == (|m: Move| leaf_count(after(*pos, m), (depth - 1) as nat)),
            forall|m: Move| #[trigger] h(m) >= 0,
            roomy(*pos, depth as nat) ==> seq_sum(moves@, h) == leaf_count(*pos, depth as nat),
            roomy(*pos, depth as nat) ==> nodes == seq_sum(moves@.subrange(0, i as int), h),
        decreases n - i,
    {
        let mv = moves.get(i);
        proof {
            lemma_pseudo_legal_move_ok(*pos, mv, false);
        }
        let mut next_pos = *pos;
        next_pos.make_move(mv);
        proof {
            lemma_pawns_ok_after(*pos, mv, false, next_pos);
            lemma_after(*pos, mv, next_pos);
            if roomy(*pos, depth as nat) {
                assert(legal_move(*pos, mv, false));
                assert(roomy(after(*pos, mv), (depth - 1) as nat));
                let sr = moves@.subrange(0, i + 1);
                assert(sr.drop_last() =~= moves@.subrange(0, i as int));
                assert(sr.last() == mv);
                lemma_seq_sum_prefix(moves@, h, i as int);
                lemma_seq_sum_prefix(moves@, h, i + 1);
                assert(h(mv) == leaf_count(next_pos, (depth - 1) as nat));
            }
        }
        let sub = perft(&next_pos, depth - 1);
        proof {
            if depth <= 7 {
                assert(nodes + sub <= (i + 1) * bound) by (nonlinear_arith)
                    requires
                        nodes <= i * bound,
                        sub <= bound,
                ;
                assert((i + 1) * bound <= 256 * 0x1_0000_0000_0000) by (nonlinear_arith)
                    requires
                        i + 1 <= 256,
                        bound <= 0x1_0000_0000_0000,
                ;
            }
        }
        nodes = nodes + sub;
        i = i + 1;
    }
    proof {
        if depth <= 7 {
            assert(nodes <= MAX_MOVES * bound) by (nonlinear_arith)
                requires
                    nodes <= i * bound,
                    i <= MAX_MOVES,
                    bound > 0,
            ;
        }
        assert(moves@.subrange(0, n as int) =~= moves@);
    }
    nodes
}

} // verus!
