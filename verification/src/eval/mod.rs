pub mod pst;

use vstd::prelude::*;

use crate::bitboard::{bit, popcount, Bitboard};
use crate::board::{color_of_kind, kind, piece_count, piece_of_kind, Position};
use crate::types::{Color, Piece};
use self::pst::{MATERIAL_EG, MATERIAL_MG, PST_EG, PST_MG};

verus! {

/// Every table entry lies within 200 centipawns.
proof fn lemma_tables_bounded()
    ensures
        forall|p: int, s: int| 0 <= p < 6 && 0 <= s < 64 ==> -200 <= #[trigger] PST_MG@[p]@[s] <= 200,
        forall|p: int, s: int| 0 <= p < 6 && 0 <= s < 64 ==> -200 <= #[trigger] PST_EG@[p]@[s] <= 200,
        forall|p: int| 0 <= p < 6 ==> 0 <= #[trigger] MATERIAL_MG@[p] <= 1100,
        forall|p: int| 0 <= p < 6 ==> 0 <= #[trigger] MATERIAL_EG@[p] <= 1100,
{
}

/// No evaluation exceeds this in absolute value.
pub const EVAL_BOUND: i32 = 700_000;

/// Middlegame bonus for holding two or more bishops.
pub const BISHOP_PAIR_MG: i32 = 30;

/// Endgame bonus for holding two or more bishops.
pub const BISHOP_PAIR_EG: i32 = 50;

/// Sum of `f` over the set bits of `x` below `n`.
pub open spec fn sum_bits(x: u64, f: spec_fn(int) -> int, n: int) -> int
    decreases n,
{
    if n <= 0 {
        0
    } else {
        sum_bits(x, f, n - 1) + if bit(x, n - 1) {
            f(n - 1)
        } else {
            0
        }
    }
}

/// The table square of a piece of colour `c` on `s`: the tables are drawn
/// from White's side with a8 first, so White's squares are flipped.
pub open spec fn table_square(c: Color, s: int) -> int {
    match c {
        Color::White => (7 - s / 8) * 8 + s % 8,
        Color::Black => s,
    }
}

/// Material plus placement of piece `p` of colour `c` on `s`.
pub open spec fn piece_term(mat: [i32; 6], pst: [[i32; 64]; 6], c: Color, p: int, s: int) -> int {
    mat@[p] + pst@[p]@[table_square(c, s)]
}

/// Score of the pieces of colour `c` of the first `n` kinds (P, N, B, R, Q, K).
pub open spec fn kinds_score(pos: Position, c: Color, mat: [i32; 6], pst: [[i32; 64]; 6], n: int) -> int
    decreases n,
{
    if n <= 0 {
        0
    } else {
        kinds_score(pos, c, mat, pst, n - 1) + sum_bits(
            pos.bb(c.idx() * 6 + (n - 1)),
            |s: int| piece_term(mat, pst, c, n - 1, s),
            64,
        )
    }
}

/// Score of colour `c`: material and placement of its pieces, plus the
/// bishop-pair bonus.
pub open spec fn side_score(
    pos: Position,
    c: Color,
    mat: [i32; 6],
    pst: [[i32; 64]; 6],
    pair_bonus: int,
) -> int {
    kinds_score(pos, c, mat, pst, 6) + if piece_count(pos, c, Piece::Bishop) >= 2 {
        pair_bonus
    } else {
        0
    }
}

/// Game phase: knights and bishops count 1, rooks 2, queens 4; at most 24.
pub open spec fn phase_spec(pos: Position) -> int {
    let n = piece_count(pos, Color::White, Piece::Knight) + piece_count(pos, Color::Black, Piece::Knight)
        + piece_count(pos, Color::White, Piece::Bishop) + piece_count(pos, Color::Black, Piece::Bishop)
        + 2 * piece_count(pos, Color::White, Piece::Rook) + 2 * piece_count(pos, Color::Black, Piece::Rook)
        + 4 * piece_count(pos, Color::White, Piece::Queen) + 4 * piece_count(pos, Color::Black, Piece::Queen);
    if n < 24 {
        n as int
    } else {
        24
    }
}

/// Integer division rounding toward zero (Rust's `/`).
pub open spec fn trunc_div(a: int, b: int) -> int {
    if a >= 0 {
        a / b
    } else {
        -((-a) / b)
    }
}

/// Tapered evaluation from White's side: middlegame and endgame scores
/// (White minus Black) mixed by the phase.
pub open spec fn white_score(pos: Position) -> int {
    let mg = side_score(pos, Color::White, MATERIAL_MG, PST_MG, BISHOP_PAIR_MG as int) - side_score(
        pos,
        Color::Black,
        MATERIAL_MG,
        PST_MG,
        BISHOP_PAIR_MG as int,
    );
    let eg = side_score(pos, Color::White, MATERIAL_EG, PST_EG, BISHOP_PAIR_EG as int) - side_score(
        pos,
        Color::Black,
        MATERIAL_EG,
        PST_EG,
        BISHOP_PAIR_EG as int,
    );
    let ph = phase_spec(pos);
    trunc_div(mg * ph + eg * (24 - ph), 24)
}

/// The evaluation from the side to move's point of view.
pub open spec fn eval_spec(pos: Position) -> int {
    if pos.spec_side() == Color::White {
        white_score(pos)
    } else {
        -white_score(pos)
    }
}

/// Dropping one set bit takes its term out of the sum.
proof fn lemma_sum_bits_drop(x: u64, y: u64, t: int, f: spec_fn(int) -> int, n: int)
    requires
        0 <= t < 64,
        bit(x, t),
        !bit(y, t),
        forall|s: int| s != t ==> bit(x, s) == bit(y, s),
    ensures
        sum_bits(x, f, n) == sum_bits(y, f, n) + if 0 <= t < n {
            f(t)
        } else {
            0
        },
    decreases n,
{
    if n > 0 {
        lemma_sum_bits_drop(x, y, t, f, n - 1);
    }
}

/// The sum over the zero word is 0.
proof fn lemma_sum_bits_zero(f: spec_fn(int) -> int, n: int)
    ensures
        sum_bits(0u64, f, n) == 0,
    decreases n,
{
    if n > 0 {
        lemma_sum_bits_zero(f, n - 1);
        crate::bitboard::lemma_zero_no_bits(n - 1);
    }
}

/// A bitboard has at most 64 squares.
proof fn lemma_bits_len(b: Bitboard)
    ensures
        b@.finite(),
        b@.len() <= 64,
{
    crate::bitboard::lemma_bits_set_finite(b.0);
    vstd::set_lib::lemma_int_range(0, 64);
    assert(b@.subset_of(vstd::set_lib::set_int_range(0, 64)));
    vstd::set_lib::lemma_len_subset(b@, vstd::set_lib::set_int_range(0, 64));
}

proof fn lemma_flip_square(x: u8)
    requires
        x < 64,
    ensures
        (x ^ 56u8) as int == (7 - x / 8) * 8 + x % 8,
        (x ^ 56u8) < 64,
{
    assert((x ^ 56u8) as int == (7 - x / 8) * 8 + x % 8 && (x ^ 56u8) < 64) by (bit_vector)
        requires
            x < 64,
    ;
}

/// The middlegame and endgame scores of the pieces of colour `color`,
/// bishop pair included.
#[verifier::spinoff_prover]
#[verifier::rlimit(30)]
fn side_scores(pos: &Position, color: Color) -> (r: (i32, i32))
    ensures
        r.0 == side_score(*pos, color, MATERIAL_MG, PST_MG, BISHOP_PAIR_MG as int),
        r.1 == side_score(*pos, color, MATERIAL_EG, PST_EG, BISHOP_PAIR_EG as int),
        -200 * 6 * 64 <= r.0 <= 1300 * 6 * 64 + 100,
        -200 * 6 * 64 <= r.1 <= 1300 * 6 * 64 + 100,
{
    proof {
        lemma_tables_bounded();
    }
    let mut mg: i32 = 0;
    let mut eg: i32 = 0;
    let mut p: usize = 0;
    while p < 6
        invariant
            p <= 6,
            mg == kinds_score(*pos, color, MATERIAL_MG, PST_MG, p as int),
            eg == kinds_score(*pos, color, MATERIAL_EG, PST_EG, p as int),
            -200 * 64 * p <= mg <= 1300 * 64 * p,
            -200 * 64 * p <= eg <= 1300 * 64 * p,
            forall|q: int, s: int| 0 <= q < 6 && 0 <= s < 64 ==> -200 <= #[trigger] PST_MG@[q]@[s] <= 200,
            forall|q: int, s: int| 0 <= q < 6 && 0 <= s < 64 ==> -200 <= #[trigger] PST_EG@[q]@[s] <= 200,
            forall|q: int| 0 <= q < 6 ==> 0 <= #[trigger] MATERIAL_MG@[q] <= 1100,
            forall|q: int| 0 <= q < 6 ==> 0 <= #[trigger] MATERIAL_EG@[q] <= 1100,
        decreases 6 - p,
    {
        let orig = pos.pieces(color, Piece::from_index(p));
        let ghost fm = |s: int| piece_term(MATERIAL_MG, PST_MG, color, p as int, s);
        let ghost fe = |s: int| piece_term(MATERIAL_EG, PST_EG, color, p as int, s);
        let ghost mg0 = mg as int;
        let ghost eg0 = eg as int;
        let mut bb = orig;
        let ghost mut popped: int = 0;
        proof {
            lemma_bits_len(bb);
        }
        while !bb.is_empty()
            invariant
                p < 6,
                bb@.finite(),
                popped + bb@.len() <= 64,
                0 <= popped,
                fm == (|s: int| piece_term(MATERIAL_MG, PST_MG, color, p as int, s)),
                fe == (|s: int| piece_term(MATERIAL_EG, PST_EG, color, p as int, s)),
                mg + sum_bits(bb.0, fm, 64) == mg0 + sum_bits(orig.0, fm, 64),
                eg + sum_bits(bb.0, fe, 64) == eg0 + sum_bits(orig.0, fe, 64),
                -200 * 64 * p <= mg0 <= 1300 * 64 * p,
                -200 * 64 * p <= eg0 <= 1300 * 64 * p,
                mg0 - 200 * popped <= mg <= mg0 + 1300 * popped,
                eg0 - 200 * popped <= eg <= eg0 + 1300 * popped,
                forall|q: int, s: int| 0 <= q < 6 && 0 <= s < 64 ==> -200 <= #[trigger] PST_MG@[q]@[s] <= 200,
                forall|q: int, s: int| 0 <= q < 6 && 0 <= s < 64 ==> -200 <= #[trigger] PST_EG@[q]@[s] <= 200,
                forall|q: int| 0 <= q < 6 ==> 0 <= #[trigger] MATERIAL_MG@[q] <= 1100,
                forall|q: int| 0 <= q < 6 ==> 0 <= #[trigger] MATERIAL_EG@[q] <= 1100,
            decreases bb@.len(),
        {
            let ghost before = bb;
            let sq = bb.pop_lsb();
            proof {
                lemma_bits_len(bb);
                crate::bitboard::lemma_remove_decreases(before, sq.0 as int);
                assert forall|s: int| s != sq.0 implies bit(before.0, s) == bit(bb.0, s) by {
                    assert(before@.contains(s) == bit(before.0, s));
                    assert(bb@.contains(s) == bit(bb.0, s));
                }
                assert(!bb@.contains(sq.0 as int));
                lemma_sum_bits_drop(before.0, bb.0, sq.0 as int, fm, 64);
                lemma_sum_bits_drop(before.0, bb.0, sq.0 as int, fe, 64);
            }
            let eval_sq: usize = if color == Color::White {
                proof {
                    lemma_flip_square(sq.0);
                }
                (sq.0 ^ 56) as usize
            } else {
                sq.0 as usize
            };
            proof {
                assert(eval_sq == table_square(color, sq.0 as int));
            }
            mg = mg + MATERIAL_MG[p] + PST_MG[p][eval_sq];
            eg = eg + MATERIAL_EG[p] + PST_EG[p][eval_sq];
            proof {
                popped = popped + 1;
            }
        }
        proof {
            assert(popped <= 64);
            assert(mg0 - 200 * 64 <= mg <= mg0 + 1300 * 64);
            assert(eg0 - 200 * 64 <= eg <= eg0 + 1300 * 64);
            lemma_sum_bits_zero(fm, 64);
            lemma_sum_bits_zero(fe, 64);
            assert(orig.0 == pos.bb(color.idx() * 6 + p));
            assert(-200 * 64 * (p + 1) <= mg <= 1300 * 64 * (p + 1)) by (nonlinear_arith)
                requires
                    -200 * 64 * p <= mg0 <= 1300 * 64 * p,
                    mg0 - 200 * 64 <= mg <= mg0 + 1300 * 64,
            ;
            assert(-200 * 64 * (p + 1) <= eg <= 1300 * 64 * (p + 1)) by (nonlinear_arith)
                requires
                    -200 * 64 * p <= eg0 <= 1300 * 64 * p,
                    eg0 - 200 * 64 <= eg <= eg0 + 1300 * 64,
            ;
        }
        p = p + 1;
    }
    if pos.pieces(color, Piece::Bishop).count() >= 2 {
        mg = mg + BISHOP_PAIR_MG;
        eg = eg + BISHOP_PAIR_EG;
    }
    (mg, eg)
}

/// Game phase score: 0 (endgame) to 24 (opening).
/// Phase values: P=0, N=1, B=1, R=2, Q=4.
pub fn compute_phase(pos: &Position) -> (phase: i32)
    ensures
        phase == phase_spec(*pos),
        0 <= phase <= 24,
{
    let wn = pos.pieces(Color::White, Piece::Knight).count();
    let bn = pos.pieces(Color::Black, Piece::Knight).count();
    let wb = pos.pieces(Color::White, Piece::Bishop).count();
    let bb = pos.pieces(Color::Black, Piece::Bishop).count();
    let wr = pos.pieces(Color::White, Piece::Rook).count();
    let br = pos.pieces(Color::Black, Piece::Rook).count();
    let wq = pos.pieces(Color::White, Piece::Queen).count();
    let bq = pos.pieces(Color::Black, Piece::Queen).count();
    proof {
        crate::bitboard::lemma_popcount_le_64(pos.bb(kind(Color::White, Piece::Knight)));
        crate::bitboard::lemma_popcount_le_64(pos.bb(kind(Color::Black, Piece::Knight)));
        crate::bitboard::lemma_popcount_le_64(pos.bb(kind(Color::White, Piece::Bishop)));
        crate::bitboard::lemma_popcount_le_64(pos.bb(kind(Color::Black, Piece::Bishop)));
        crate::bitboard::lemma_popcount_le_64(pos.bb(kind(Color::White, Piece::Rook)));
        crate::bitboard::lemma_popcount_le_64(pos.bb(kind(Color::Black, Piece::Rook)));
        crate::bitboard::lemma_popcount_le_64(pos.bb(kind(Color::White, Piece::Queen)));
        crate::bitboard::lemma_popcount_le_64(pos.bb(kind(Color::Black, Piece::Queen)));
    }
    let mut phase: i32 = 0;
    phase = phase + wn as i32;
    phase = phase + bn as i32;
    phase = phase + wb as i32;
    phase = phase + bb as i32;
    phase = phase + wr as i32 * 2;
    phase = phase + br as i32 * 2;
    phase = phase + wq as i32 * 4;
    phase = phase + bq as i32 * 4;
    // Ensure phase is within [0, 24]
    if phase < 24 {
        phase
    } else {
        24
    }
}

/// The piece scores depend on the piece bitboards alone.
proof fn lemma_kinds_score_same(
    p: Position,
    q: Position,
    c: Color,
    mat: [i32; 6],
    pst: [[i32; 64]; 6],
    n: int,
)
    requires
        p.bbs() == q.bbs(),
        n <= 6,
    ensures
        kinds_score(p, c, mat, pst, n) == kinds_score(q, c, mat, pst, n),
    decreases n,
{
    if n > 0 {
        lemma_kinds_score_same(p, q, c, mat, pst, n - 1);
        let k = c.idx() * 6 + (n - 1);
        assert(0 <= k < 12);
        assert(p.bbs()[k] == p.bb(k));
        assert(q.bbs()[k] == q.bb(k));
    }
}

/// The evaluation depends on the pieces and on whose move it is only:
/// handing the move to the other side, with the same pieces on the same
/// squares, negates it.
pub proof fn lemma_eval_side_flip(p: Position, q: Position)
    requires
        p.bbs() == q.bbs(),
        q.spec_side() == p.spec_side().spec_opposite(),
    ensures
        eval_spec(q) == -eval_spec(p),
{
    lemma_kinds_score_same(p, q, Color::White, MATERIAL_MG, PST_MG, 6);
    lemma_kinds_score_same(p, q, Color::Black, MATERIAL_MG, PST_MG, 6);
    lemma_kinds_score_same(p, q, Color::White, MATERIAL_EG, PST_EG, 6);
    lemma_kinds_score_same(p, q, Color::Black, MATERIAL_EG, PST_EG, 6);
    assert forall|c: Color, k: Piece| piece_count(p, c, k) == piece_count(q, c, k) by {
        let i = kind(c, k);
        assert(0 <= i < 12);
        assert(p.bbs()[i] == p.bb(i));
        assert(q.bbs()[i] == q.bb(i));
    }
    assert(white_score(p) == white_score(q));
}

/// Square `s` seen from the other side: same file, mirrored rank.
pub open spec fn flip_square(s: int) -> int {
    (7 - s / 8) * 8 + s % 8
}

/// Piece-table index of the same piece in the other colour.
pub open spec fn other_kind(k: int) -> int {
    if k < 6 {
        k + 6
    } else {
        k - 6
    }
}

/// `q` is `p` seen from the other side: every piece changes colour and
/// stands on the rank-mirrored square, and the other side is to move.
pub open spec fn mirrored(p: Position, q: Position) -> bool {
    &&& forall|k: int, s: int|
        0 <= k < 12 && 0 <= s < 64 ==> bit(q.bb(k), s) == bit(p.bb(other_kind(k)), flip_square(s))
    &&& q.spec_side() == p.spec_side().spec_opposite()
}

/// Term `i` of a bit sum.
pub open spec fn bit_term(x: u64, f: spec_fn(int) -> int, i: int) -> int {
    if bit(x, i) {
        f(i)
    } else {
        0
    }
}

/// The eight terms of rank `r`.
pub open spec fn rank_sum(x: u64, f: spec_fn(int) -> int, r: int) -> int {
    bit_term(x, f, 8 * r) + bit_term(x, f, 8 * r + 1) + bit_term(x, f, 8 * r + 2) + bit_term(x, f, 8 * r + 3)
        + bit_term(x, f, 8 * r + 4) + bit_term(x, f, 8 * r + 5) + bit_term(x, f, 8 * r + 6) + bit_term(
        x,
        f,
        8 * r + 7,
    )
}

/// A bit sum over whole ranks is the sum of the rank sums.
proof fn lemma_sum_by_ranks(x: u64, f: spec_fn(int) -> int, r: int)
    requires
        0 <= r <= 8,
    ensures
        sum_bits(x, f, 8 * r) == if r == 0 {
            0
        } else {
            sum_bits(x, f, 8 * (r - 1)) + rank_sum(x, f, r - 1)
        },
{
    if r > 0 {
        let b = 8 * (r - 1);
        assert(sum_bits(x, f, b + 1) == sum_bits(x, f, b) + bit_term(x, f, b));
        assert(sum_bits(x, f, b + 2) == sum_bits(x, f, b + 1) + bit_term(x, f, b + 1));
        assert(sum_bits(x, f, b + 3) == sum_bits(x, f, b + 2) + bit_term(x, f, b + 2));
        assert(sum_bits(x, f, b + 4) == sum_bits(x, f, b + 3) + bit_term(x, f, b + 3));
        assert(sum_bits(x, f, b + 5) == sum_bits(x, f, b + 4) + bit_term(x, f, b + 4));
        assert(sum_bits(x, f, b + 6) == sum_bits(x, f, b + 5) + bit_term(x, f, b + 5));
        assert(sum_bits(x, f, b + 7) == sum_bits(x, f, b + 6) + bit_term(x, f, b + 6));
        assert(sum_bits(x, f, b + 8) == sum_bits(x, f, b + 7) + bit_term(x, f, b + 7));
    }
}

/// A sum over all 64 bits, rank by rank.
proof fn lemma_sum_all_ranks(x: u64, f: spec_fn(int) -> int)
    ensures
        sum_bits(x, f, 64) == rank_sum(x, f, 0) + rank_sum(x, f, 1) + rank_sum(x, f, 2) + rank_sum(x, f, 3)
            + rank_sum(x, f, 4) + rank_sum(x, f, 5) + rank_sum(x, f, 6) + rank_sum(x, f, 7),
{
    lemma_sum_by_ranks(x, f, 1);
    lemma_sum_by_ranks(x, f, 2);
    lemma_sum_by_ranks(x, f, 3);
    lemma_sum_by_ranks(x, f, 4);
    lemma_sum_by_ranks(x, f, 5);
    lemma_sum_by_ranks(x, f, 6);
    lemma_sum_by_ranks(x, f, 7);
    lemma_sum_by_ranks(x, f, 8);
    assert(sum_bits(x, f, 0) == 0);
}

/// Mirroring a rank: rank `r` of `y` is rank `7 - r` of `x`.
proof fn lemma_rank_sum_mirror(y: u64, x: u64, g: spec_fn(int) -> int, f: spec_fn(int) -> int, r: int)
    requires
        0 <= r < 8,
        forall|s: int| 0 <= s < 64 ==> bit(y, s) == bit(x, #[trigger] flip_square(s)),
        forall|s: int| 0 <= s < 64 ==> g(s) == f(#[trigger] flip_square(s)),
    ensures
        rank_sum(y, g, r) == rank_sum(x, f, 7 - r),
{
    assert forall|i: int| 0 <= i < 8 implies #[trigger] bit_term(y, g, 8 * r + i) == bit_term(x, f, 8 * (7 - r) + i) by {
        let s = 8 * r + i;
        assert(s / 8 == r && s % 8 == i);
        assert(flip_square(s) == 8 * (7 - r) + i);
    }
    assert(bit_term(y, g, 8 * r + 0) == bit_term(x, f, 8 * (7 - r) + 0));
    assert(bit_term(y, g, 8 * r + 1) == bit_term(x, f, 8 * (7 - r) + 1));
    assert(bit_term(y, g, 8 * r + 2) == bit_term(x, f, 8 * (7 - r) + 2));
    assert(bit_term(y, g, 8 * r + 3) == bit_term(x, f, 8 * (7 - r) + 3));
    assert(bit_term(y, g, 8 * r + 4) == bit_term(x, f, 8 * (7 - r) + 4));
    assert(bit_term(y, g, 8 * r + 5) == bit_term(x, f, 8 * (7 - r) + 5));
    assert(bit_term(y, g, 8 * r + 6) == bit_term(x, f, 8 * (7 - r) + 6));
    assert(bit_term(y, g, 8 * r + 7) == bit_term(x, f, 8 * (7 - r) + 7));
}

/// Mirroring the board ranks keeps a bit sum.
proof fn lemma_sum_bits_mirror(y: u64, x: u64, g: spec_fn(int) -> int, f: spec_fn(int) -> int)
    requires
        forall|s: int| 0 <= s < 64 ==> bit(y, s) == bit(x, #[trigger] flip_square(s)),
        forall|s: int| 0 <= s < 64 ==> g(s) == f(#[trigger] flip_square(s)),
    ensures
        sum_bits(y, g, 64) == sum_bits(x, f, 64),
{
    lemma_sum_all_ranks(y, g);
    lemma_sum_all_ranks(x, f);
    lemma_rank_sum_mirror(y, x, g, f, 0);
    lemma_rank_sum_mirror(y, x, g, f, 1);
    lemma_rank_sum_mirror(y, x, g, f, 2);
    lemma_rank_sum_mirror(y, x, g, f, 3);
    lemma_rank_sum_mirror(y, x, g, f, 4);
    lemma_rank_sum_mirror(y, x, g, f, 5);
    lemma_rank_sum_mirror(y, x, g, f, 6);
    lemma_rank_sum_mirror(y, x, g, f, 7);
}

/// The weight of every square is one.
pub open spec fn ones() -> spec_fn(int) -> int {
    |s: int| 1int
}

/// Halving a word moves each bit down by one.
proof fn lemma_half_bits(x: u64, s: u64)
    by (bit_vector)
    requires
        s < 63,
    ensures
        ((x / 2) >> s) & 1 == (x >> (s + 1)) & 1,
        ((x / 2) >> 63u64) & 1 == 0,
        ((x >> 0u64) & 1 == 1) == (x % 2 == 1),
{
}

/// A bit count, read from the low bit: the low bit, then the count of the
/// halved word.
proof fn lemma_count_shift(x: u64, n: int)
    requires
        0 <= n <= 63,
    ensures
        sum_bits(x, ones(), n + 1) == (if bit(x, 0) { 1int } else { 0 }) + sum_bits(x / 2, ones(), n),
    decreases n,
{
    assert(ones()(n) == 1 && ones()(n - 1) == 1 && ones()(0) == 1);
    if n > 0 {
        lemma_count_shift(x, n - 1);
        lemma_half_bits(x, (n - 1) as u64);
        assert(bit(x / 2, n - 1) == bit(x, n));
        assert(sum_bits(x, ones(), n + 1) == sum_bits(x, ones(), n) + bit_term(x, ones(), n));
        assert(sum_bits(x / 2, ones(), n) == sum_bits(x / 2, ones(), n - 1) + bit_term(x / 2, ones(), n - 1));
    } else {
        assert(sum_bits(x, ones(), 0) == 0);
        assert(sum_bits(x / 2, ones(), 0) == 0);
        assert(sum_bits(x, ones(), 1) == sum_bits(x, ones(), 0) + bit_term(x, ones(), 0));
    }
}

/// The number of set bits is the bit sum of ones.
proof fn lemma_popcount_sum(x: u64)
    ensures
        popcount(x) == sum_bits(x, ones(), 64),
    decreases x,
{
    if x == 0 {
        lemma_sum_bits_zero(ones(), 64);
    } else {
        lemma_popcount_sum(x / 2);
        lemma_count_shift(x, 63);
        lemma_half_bits(x, 0);
        assert(!bit(x / 2, 63));
        assert(bit(x, 0) == (x % 2 == 1));
    }
}

/// Mirrored words have the same number of set bits.
proof fn lemma_popcount_mirror(y: u64, x: u64)
    requires
        forall|s: int| 0 <= s < 64 ==> bit(y, s) == bit(x, #[trigger] flip_square(s)),
    ensures
        popcount(y) == popcount(x),
{
    lemma_popcount_sum(y);
    lemma_popcount_sum(x);
    lemma_sum_bits_mirror(y, x, ones(), ones());
}

/// The piece scores of a colour in the mirrored position `q` are those of
/// the other colour in `p`.
proof fn lemma_kinds_score_mirror(
    p: Position,
    q: Position,
    c: Color,
    mat: [i32; 6],
    pst: [[i32; 64]; 6],
    n: int,
)
    requires
        mirrored(p, q),
        n <= 6,
    ensures
        kinds_score(q, c, mat, pst, n) == kinds_score(p, c.spec_opposite(), mat, pst, n),
    decreases n,
{
    if n > 0 {
        lemma_kinds_score_mirror(p, q, c, mat, pst, n - 1);
        let j = n - 1;
        let o = c.spec_opposite();
        let kq = c.idx() * 6 + j;
        let kp = o.idx() * 6 + j;
        assert(other_kind(kq) == kp);
        let g = |s: int| piece_term(mat, pst, c, j, s);
        let f = |t: int| piece_term(mat, pst, o, j, t);
        assert forall|s: int| 0 <= s < 64 implies bit(q.bb(kq), s) == bit(p.bb(kp), #[trigger] flip_square(s)) by {}
        assert forall|s: int| 0 <= s < 64 implies g(s) == f(#[trigger] flip_square(s)) by {
            let t = flip_square(s);
            assert(t / 8 == 7 - s / 8 && t % 8 == s % 8);
            assert(flip_square(t) == s);
            assert(table_square(c, s) == table_square(o, t));
        }
        lemma_sum_bits_mirror(q.bb(kq), p.bb(kp), g, f);
    }
}

/// The evaluation is colour-blind: the position seen from the other side
/// (colours swapped, ranks mirrored, the other side to move) evaluates the
/// same for the side to move.
pub proof fn lemma_eval_mirror(p: Position, q: Position)
    requires
        mirrored(p, q),
    ensures
        eval_spec(q) == eval_spec(p),
{
    lemma_kinds_score_mirror(p, q, Color::White, MATERIAL_MG, PST_MG, 6);
    lemma_kinds_score_mirror(p, q, Color::Black, MATERIAL_MG, PST_MG, 6);
    lemma_kinds_score_mirror(p, q, Color::White, MATERIAL_EG, PST_EG, 6);
    lemma_kinds_score_mirror(p, q, Color::Black, MATERIAL_EG, PST_EG, 6);
    assert forall|c: Color, k: Piece| piece_count(q, c, k) == piece_count(p, c.spec_opposite(), k) by {
        let kq = kind(c, k);
        let kp = kind(c.spec_opposite(), k);
        assert(other_kind(kq) == kp);
        assert forall|s: int| 0 <= s < 64 implies bit(q.bb(kq), s) == bit(p.bb(kp), #[trigger] flip_square(s)) by {}
        lemma_popcount_mirror(q.bb(kq), p.bb(kp));
    }
    assert(phase_spec(q) == phase_spec(p));
    let ph = phase_spec(p);
    let mgp = side_score(p, Color::White, MATERIAL_MG, PST_MG, BISHOP_PAIR_MG as int) - side_score(
        p,
        Color::Black,
        MATERIAL_MG,
        PST_MG,
        BISHOP_PAIR_MG as int,
    );
    let egp = side_score(p, Color::White, MATERIAL_EG, PST_EG, BISHOP_PAIR_EG as int) - side_score(
        p,
        Color::Black,
        MATERIAL_EG,
        PST_EG,
        BISHOP_PAIR_EG as int,
    );
    let t = mgp * ph + egp * (24 - ph);
    assert((-mgp) * ph + (-egp) * (24 - ph) == -t) by (nonlinear_arith)
        requires
            t == mgp * ph + egp * (24 - ph),
    ;
    assert(trunc_div(-t, 24) == -trunc_div(t, 24));
    assert(white_score(q) == -white_score(p));
}

/// What a pawn of colour `c` on square `s` adds to White's score in one
/// phase, with material values `mat` and square tables `pst`: its material
/// value plus its square entry (read from its own side), counted for White
/// and against Black.
pub open spec fn pawn_worth(mat: [i32; 6], pst: [[i32; 64]; 6], c: Color, s: int) -> int {
    let v = mat@[0] + pst@[0]@[if c == Color::White { (7 - s / 8) * 8 + s % 8 } else { s }];
    if c == Color::White {
        v
    } else {
        -v
    }
}

/// `q` is `p` with a pawn of colour `c` added on the empty square `s`: the
/// piece bitboards agree except that the pawn kind of `c` gains `s`.
spec fn pawn_added(p: Position, q: Position, c: Color, s: int) -> bool {
    &&& forall|k: int| 0 <= k < 12 && k != kind(c, Piece::Pawn) ==> #[trigger] q.bb(k) == p.bb(k)
    &&& bit(q.bb(kind(c, Piece::Pawn)), s)
    &&& !bit(p.bb(kind(c, Piece::Pawn)), s)
    &&& forall|t: int| t != s ==> bit(q.bb(kind(c, Piece::Pawn)), t) == bit(p.bb(kind(c, Piece::Pawn)), t)
}

proof fn lemma_pawn_added_bits(p: Position, q: Position, c: Color, s: int)
    requires
        p.wf(),
        q.wf(),
        0 <= s < 64,
        p.board()[s] is None,
        q.board() == p.board().update(s, Some((c, Piece::Pawn))),
    ensures
        pawn_added(p, q, c, s),
{
    assert forall|k: int, t: int| 0 <= k < 12 && 0 <= t < 64 implies bit(q.bb(k), t) == (bit(p.bb(k), t) || (t
        == s && k == kind(c, Piece::Pawn))) by {
        let ck = color_of_kind(k);
        let pk = piece_of_kind(k);
        assert(kind(ck, pk) == k);
        p.lemma_piece_on_kind(t, ck, pk);
        q.lemma_piece_on_kind(t, ck, pk);
        assert(q.board()[t] == q.piece_on(t));
        assert(p.board()[t] == p.piece_on(t));
        if t == s {
            assert(q.piece_on(t) == Some((c, Piece::Pawn)));
            if k == kind(c, Piece::Pawn) {
                assert(ck == c && pk == Piece::Pawn);
            } else {
                assert(Some((ck, pk)) != Some((c, Piece::Pawn)));
            }
        } else {
            assert(q.piece_on(t) == p.piece_on(t));
        }
    }
    assert forall|k: int| 0 <= k < 12 && k != kind(c, Piece::Pawn) implies #[trigger] q.bb(k) == p.bb(k) by {
        assert forall|t: int| 0 <= t < 64 implies bit(q.bb(k), t) == bit(p.bb(k), t) by {}
        crate::bitboard::lemma_bits_ext(q.bb(k), p.bb(k));
    }
    let kp = kind(c, Piece::Pawn);
    assert(0 <= kp < 12);
    assert(bit(q.bb(kp), s) == (bit(p.bb(kp), s) || true));
    assert(!bit(p.bb(kp), s)) by {
        p.lemma_piece_on_kind(s, c, Piece::Pawn);
        assert(p.board()[s] == p.piece_on(s));
    }
    assert forall|t: int| t != s implies bit(q.bb(kp), t) == bit(p.bb(kp), t) by {
        if 0 <= t < 64 {
            assert(bit(q.bb(kp), t) == (bit(p.bb(kp), t) || (t == s && kp == kind(c, Piece::Pawn))));
        }
    }
}

proof fn lemma_kinds_score_pawn(
    p: Position,
    q: Position,
    c: Color,
    c2: Color,
    s: int,
    mat: [i32; 6],
    pst: [[i32; 64]; 6],
    n: int,
)
    requires
        pawn_added(p, q, c, s),
        0 <= s < 64,
        0 <= n <= 6,
    ensures
        kinds_score(q, c2, mat, pst, n) == kinds_score(p, c2, mat, pst, n) + if c2 == c && n >= 1 {
            piece_term(mat, pst, c, 0, s)
        } else {
            0
        },
    decreases n,
{
    if n > 0 {
        lemma_kinds_score_pawn(p, q, c, c2, s, mat, pst, n - 1);
        let k = c2.idx() * 6 + (n - 1);
        if k == kind(c, Piece::Pawn) {
            assert(c2 == c && n - 1 == 0);
            lemma_sum_bits_drop(q.bb(k), p.bb(k), s, |t: int| piece_term(mat, pst, c2, n - 1, t), 64);
        } else {
            assert(q.bb(k) == p.bb(k));
        }
    }
}

/// Rust's `/` by 24, times 24, is within 24 of the dividend.
proof fn lemma_trunc_div_24(x: int)
    ensures
        x - 24 < 24 * trunc_div(x, 24) < x + 24,
{
    if x >= 0 {
        vstd::arithmetic::div_mod::lemma_fundamental_div_mod(x, 24);
    } else {
        vstd::arithmetic::div_mod::lemma_fundamental_div_mod(-x, 24);
    }
}

/// A pawn counts its material value plus its square entry. Putting a pawn
/// of colour `c` on an empty square `s` (all else equal) leaves the game
/// phase and both bishop counts as they were, moves White's middlegame and
/// endgame balances by the pawn's worth in each phase (see `pawn_worth`), and
/// so moves the evaluation from White's side by the phase-weighted mix of
/// the two, up to the rounding of the final division by 24.
pub proof fn lemma_pawn_contribution(p: Position, q: Position, c: Color, s: int)
    requires
        p.wf(),
        q.wf(),
        0 <= s < 64,
        p.board()[s] is None,
        q.board() == p.board().update(s, Some((c, Piece::Pawn))),
    ensures
        phase_spec(q) == phase_spec(p),
        side_score(q, Color::White, MATERIAL_MG, PST_MG, BISHOP_PAIR_MG as int) - side_score(
            q,
            Color::Black,
            MATERIAL_MG,
            PST_MG,
            BISHOP_PAIR_MG as int,
        ) == side_score(p, Color::White, MATERIAL_MG, PST_MG, BISHOP_PAIR_MG as int) - side_score(
            p,
            Color::Black,
            MATERIAL_MG,
            PST_MG,
            BISHOP_PAIR_MG as int,
        ) + pawn_worth(MATERIAL_MG, PST_MG, c, s),
        side_score(q, Color::White, MATERIAL_EG, PST_EG, BISHOP_PAIR_EG as int) - side_score(
            q,
            Color::Black,
            MATERIAL_EG,
            PST_EG,
            BISHOP_PAIR_EG as int,
        ) == side_score(p, Color::White, MATERIAL_EG, PST_EG, BISHOP_PAIR_EG as int) - side_score(
            p,
            Color::Black,
            MATERIAL_EG,
            PST_EG,
            BISHOP_PAIR_EG as int,
        ) + pawn_worth(MATERIAL_EG, PST_EG, c, s),
        -48 < 24 * white_score(q) - 24 * white_score(p) - (pawn_worth(MATERIAL_MG, PST_MG, c, s) * phase_spec(p)
            + pawn_worth(MATERIAL_EG, PST_EG, c, s) * (24 - phase_spec(p))) < 48,
{
    lemma_pawn_added_bits(p, q, c, s);
    assert(q.bb(kind(Color::White, Piece::Knight)) == p.bb(kind(Color::White, Piece::Knight)));
    assert(q.bb(kind(Color::Black, Piece::Knight)) == p.bb(kind(Color::Black, Piece::Knight)));
    assert(q.bb(kind(Color::White, Piece::Bishop)) == p.bb(kind(Color::White, Piece::Bishop)));
    assert(q.bb(kind(Color::Black, Piece::Bishop)) == p.bb(kind(Color::Black, Piece::Bishop)));
    assert(q.bb(kind(Color::White, Piece::Rook)) == p.bb(kind(Color::White, Piece::Rook)));
    assert(q.bb(kind(Color::Black, Piece::Rook)) == p.bb(kind(Color::Black, Piece::Rook)));
    assert(q.bb(kind(Color::White, Piece::Queen)) == p.bb(kind(Color::White, Piece::Queen)));
    assert(q.bb(kind(Color::Black, Piece::Queen)) == p.bb(kind(Color::Black, Piece::Queen)));
    lemma_kinds_score_pawn(p, q, c, Color::White, s, MATERIAL_MG, PST_MG, 6);
    lemma_kinds_score_pawn(p, q, c, Color::Black, s, MATERIAL_MG, PST_MG, 6);
    lemma_kinds_score_pawn(p, q, c, Color::White, s, MATERIAL_EG, PST_EG, 6);
    lemma_kinds_score_pawn(p, q, c, Color::Black, s, MATERIAL_EG, PST_EG, 6);
    assert(table_square(c, s) == (if c == Color::White { (7 - s / 8) * 8 + s % 8 } else { s }));
    let ph = phase_spec(p);
    let mgp = side_score(p, Color::White, MATERIAL_MG, PST_MG, BISHOP_PAIR_MG as int) - side_score(
        p,
        Color::Black,
        MATERIAL_MG,
        PST_MG,
        BISHOP_PAIR_MG as int,
    );
    let egp = side_score(p, Color::White, MATERIAL_EG, PST_EG, BISHOP_PAIR_EG as int) - side_score(
        p,
        Color::Black,
        MATERIAL_EG,
        PST_EG,
        BISHOP_PAIR_EG as int,
    );
    let dm = pawn_worth(MATERIAL_MG, PST_MG, c, s);
    let de = pawn_worth(MATERIAL_EG, PST_EG, c, s);
    let tp = mgp * ph + egp * (24 - ph);
    let tq = (mgp + dm) * ph + (egp + de) * (24 - ph);
    assert(tq == tp + (dm * ph + de * (24 - ph))) by (nonlinear_arith)
        requires
            tp == mgp * ph + egp * (24 - ph),
            tq == (mgp + dm) * ph + (egp + de) * (24 - ph),
    ;
    lemma_trunc_div_24(tp);
    lemma_trunc_div_24(tq);
    assert(white_score(p) == trunc_div(tp, 24));
    assert(white_score(q) == trunc_div(tq, 24));
}

/// Evaluate position in centipawns from side-to-move perspective.
#[verifier::spinoff_prover]
pub fn evaluate(pos: &Position) -> (score: i32)
    ensures
        score == eval_spec(*pos),
        -EVAL_BOUND <= score <= EVAL_BOUND,
{
    let (w_mg, w_eg) = side_scores(pos, Color::White);
    let (b_mg, b_eg) = side_scores(pos, Color::Black);
    let mg_score = w_mg - b_mg;
    let eg_score = w_eg - b_eg;
    let phase = compute_phase(pos);
    proof {
        assert(-600000 * 24 <= mg_score * phase <= 600000 * 24) by (nonlinear_arith)
            requires
                -600000 <= mg_score <= 600000,
                0 <= phase <= 24,
        ;
        assert(-600000 * 24 <= eg_score * (24 - phase) <= 600000 * 24) by (nonlinear_arith)
            requires
                -600000 <= eg_score <= 600000,
                0 <= phase <= 24,
        ;
    }
    // Tapered evaluation: interpolate between middlegame and endgame
    let total = mg_score * phase + eg_score * (24 - phase);
    let score = total / 24;
    proof {
        assert(score == trunc_div(total as int, 24));
        assert(-600000 * 24 <= mg_score * phase + eg_score * (24 - phase) <= 600000 * 24)
            by (nonlinear_arith)
            requires
                -600000 <= mg_score <= 600000,
                -600000 <= eg_score <= 600000,
                0 <= phase <= 24,
        ;
        assert(-EVAL_BOUND <= score <= EVAL_BOUND);
    }
    if pos.side_to_move() == Color::White {
        score
    } else {
        -score
    }
}

} // verus!
