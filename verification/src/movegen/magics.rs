//! Attack sets of every piece kind. The free functions compute them from
//! the board geometry (sliders ray by ray); `init` builds `AttackTables`,
//! whose lookups (knight, king and pawn tables, and magic-indexed bishop and
//! rook tables found by a seeded trial search) are proved to give the same
//! sets.

use vstd::prelude::*;

use vstd::std_specs::bits::u64_trailing_zeros;

use crate::bitboard::{bit, bits_set, popcount, Bitboard, lemma_clear_low, lemma_or_view};
use crate::types::{Color, Square};

verus! {

// ---------------------------------------------------------------------------
// Board geometry
// ---------------------------------------------------------------------------

/// File of square `s`.
pub open spec fn file_of(s: int) -> int {
    s % 8
}

/// Rank of square `s`.
pub open spec fn rank_of(s: int) -> int {
    s / 8
}

pub open spec fn on_board(f: int, r: int) -> bool {
    0 <= f < 8 && 0 <= r < 8
}

/// Square with file `f` and rank `r`.
pub open spec fn sq_at(f: int, r: int) -> int {
    r * 8 + f
}

pub open spec fn abs(x: int) -> int {
    if x < 0 {
        -x
    } else {
        x
    }
}

/// Squares a knight on `s` attacks.
pub open spec fn knight_set(s: int) -> Set<int> {
    Set::new(
        |t: int|
            0 <= t < 64 && {
                let df = abs(file_of(t) - file_of(s));
                let dr = abs(rank_of(t) - rank_of(s));
                (df == 1 && dr == 2) || (df == 2 && dr == 1)
            },
    )
}

/// Knight attacks are symmetric: a knight on `s` attacks `t` exactly when a
/// knight on `t` attacks `s`.
pub proof fn lemma_knight_symmetric(s: int, t: int)
    requires
        0 <= s < 64,
        0 <= t < 64,
    ensures
        knight_set(s).contains(t) == knight_set(t).contains(s),
{
}

/// Squares a king on `s` attacks.
pub open spec fn king_set(s: int) -> Set<int> {
    Set::new(
        |t: int|
            0 <= t < 64 && t != s && abs(file_of(t) - file_of(s)) <= 1 && abs(rank_of(t) - rank_of(
                s,
            )) <= 1,
    )
}

/// Forward direction of pawns of colour `c`.
pub open spec fn pawn_dir(c: Color) -> int {
    match c {
        Color::White => 1,
        Color::Black => -1,
    }
}

/// Squares a pawn of colour `c` on `s` attacks (one rank forward, one file aside).
pub open spec fn pawn_set(c: Color, s: int) -> Set<int> {
    Set::new(
        |t: int|
            0 <= t < 64 && abs(file_of(t) - file_of(s)) == 1 && rank_of(t) == rank_of(s) + pawn_dir(
                c,
            ),
    )
}

/// Squares a slider standing on file `f`, rank `r` attacks along direction
/// `(df, dr)` within `fuel` steps: each empty square, and the first occupied
/// one, up to the edge of the board.
pub open spec fn ray_from(f: int, r: int, df: int, dr: int, occ: Set<int>, fuel: nat) -> Set<int>
    decreases fuel,
{
    let nf = f + df;
    let nr = r + dr;
    if fuel == 0 || !on_board(nf, nr) {
        Set::empty()
    } else if occ.contains(sq_at(nf, nr)) {
        set![sq_at(nf, nr)]
    } else {
        ray_from(nf, nr, df, dr, occ, (fuel - 1) as nat).insert(sq_at(nf, nr))
    }
}

/// The ray from square `s` (a ray never has more than 7 squares).
pub open spec fn ray(s: int, df: int, dr: int, occ: Set<int>) -> Set<int> {
    ray_from(file_of(s), rank_of(s), df, dr, occ, 8)
}

/// Squares a bishop on `s` attacks with occupancy `occ`.
pub open spec fn bishop_set(s: int, occ: Set<int>) -> Set<int> {
    ray(s, 1, 1, occ) + ray(s, 1, -1, occ) + ray(s, -1, 1, occ) + ray(s, -1, -1, occ)
}

/// `a` and `s` lie on one diagonal.
pub open spec fn on_diagonal(a: int, s: int) -> bool {
    file_of(a) - rank_of(a) == file_of(s) - rank_of(s) || file_of(a) + rank_of(a) == file_of(s) + rank_of(s)
}

/// `a` and `s` lie on one file or one rank.
pub open spec fn on_line(a: int, s: int) -> bool {
    file_of(a) == file_of(s) || rank_of(a) == rank_of(s)
}

/// A ray keeps to its line: each square of the ray from file `f`, rank `r`
/// along `(df, dr)` is on the board and on the line through `(f, r)` in that
/// direction.
proof fn lemma_ray_stays(f: int, r: int, df: int, dr: int, occ: Set<int>, fuel: nat, t: int)
    requires
        -1 <= df <= 1,
        -1 <= dr <= 1,
        ray_from(f, r, df, dr, occ, fuel).contains(t),
    ensures
        0 <= t < 64,
        df == dr ==> file_of(t) - rank_of(t) == f - r,
        df == -dr ==> file_of(t) + rank_of(t) == f + r,
        df == 0 ==> file_of(t) == f,
        dr == 0 ==> rank_of(t) == r,
    decreases fuel,
{
    let nf = f + df;
    let nr = r + dr;
    if fuel > 0 && on_board(nf, nr) {
        assert(file_of(sq_at(nf, nr)) == nf && rank_of(sq_at(nf, nr)) == nr) by {
            vstd::arithmetic::div_mod::lemma_fundamental_div_mod(nr * 8 + nf, 8);
        }
        if t != sq_at(nf, nr) {
            lemma_ray_stays(nf, nr, df, dr, occ, (fuel - 1) as nat, t);
        }
    }
}

/// A bishop attacks along its diagonals only.
pub proof fn lemma_bishop_on_diagonal(s: int, occ: Set<int>, a: int)
    requires
        bishop_set(s, occ).contains(a),
    ensures
        on_diagonal(a, s),
{
    let (f, r) = (file_of(s), rank_of(s));
    if ray(s, 1, 1, occ).contains(a) {
        lemma_ray_stays(f, r, 1, 1, occ, 8, a);
    } else if ray(s, 1, -1, occ).contains(a) {
        lemma_ray_stays(f, r, 1, -1, occ, 8, a);
    } else if ray(s, -1, 1, occ).contains(a) {
        lemma_ray_stays(f, r, -1, 1, occ, 8, a);
    } else {
        lemma_ray_stays(f, r, -1, -1, occ, 8, a);
    }
}

/// A rook attacks along its file and rank only.
pub proof fn lemma_rook_on_line(s: int, occ: Set<int>, a: int)
    requires
        rook_set(s, occ).contains(a),
    ensures
        on_line(a, s),
{
    let (f, r) = (file_of(s), rank_of(s));
    if ray(s, 1, 0, occ).contains(a) {
        lemma_ray_stays(f, r, 1, 0, occ, 8, a);
    } else if ray(s, -1, 0, occ).contains(a) {
        lemma_ray_stays(f, r, -1, 0, occ, 8, a);
    } else if ray(s, 0, 1, occ).contains(a) {
        lemma_ray_stays(f, r, 0, 1, occ, 8, a);
    } else {
        lemma_ray_stays(f, r, 0, -1, occ, 8, a);
    }
}

/// Squares a rook on `s` attacks with occupancy `occ`.
pub open spec fn rook_set(s: int, occ: Set<int>) -> Set<int> {
    ray(s, 1, 0, occ) + ray(s, -1, 0, occ) + ray(s, 0, 1, occ) + ray(s, 0, -1, occ)
}

/// Squares a queen on `s` attacks with occupancy `occ`.
pub open spec fn queen_set(s: int, occ: Set<int>) -> Set<int> {
    bishop_set(s, occ) + rook_set(s, occ)
}

proof fn lemma_square_coords(t: int)
    requires
        0 <= t < 64,
    ensures
        t == sq_at(file_of(t), rank_of(t)),
        on_board(file_of(t), rank_of(t)),
{
}

/// Adds the square `(f + df, r + dr)` to `bb` when it is on the board.
fn add_target(bb: &mut Bitboard, f: i32, r: i32, df: i32, dr: i32)
    requires
        0 <= f < 8,
        0 <= r < 8,
        -2 <= df <= 2,
        -2 <= dr <= 2,
    ensures
        final(bb)@ == (if on_board(f + df, r + dr) {
            old(bb)@.insert(sq_at(f + df, r + dr))
        } else {
            old(bb)@
        }),
{
    let nf = f + df;
    let nr = r + dr;
    if 0 <= nf && nf < 8 && 0 <= nr && nr < 8 {
        bb.set(Square((nr * 8 + nf) as u8));
    }
}

/// Squares a knight on `sq` attacks.
pub fn knight_attacks(sq: Square) -> (b: Bitboard)
    requires
        sq.0 < 64,
    ensures
        b@ == knight_set(sq.0 as int),
{
    let mut bb = Bitboard::empty();
    let f = (sq.0 % 8) as i32;
    let r = (sq.0 / 8) as i32;
    add_target(&mut bb, f, r, 1, 2);
    add_target(&mut bb, f, r, 1, -2);
    add_target(&mut bb, f, r, -1, 2);
    add_target(&mut bb, f, r, -1, -2);
    add_target(&mut bb, f, r, 2, 1);
    add_target(&mut bb, f, r, 2, -1);
    add_target(&mut bb, f, r, -2, 1);
    add_target(&mut bb, f, r, -2, -1);
    proof {
        let s = sq.0 as int;
        assert forall|t: int| bb@.contains(t) <==> knight_set(s).contains(t) by {
            if 0 <= t < 64 {
                lemma_square_coords(t);
            }
        }
        assert(bb@ =~= knight_set(s));
    }
    bb
}

/// Squares a king on `sq` attacks (adjacent squares).
pub fn king_attacks(sq: Square) -> (b: Bitboard)
    requires
        sq.0 < 64,
    ensures
        b@ == king_set(sq.0 as int),
{
    let mut bb = Bitboard::empty();
    let f = (sq.0 % 8) as i32;
    let r = (sq.0 / 8) as i32;
    add_target(&mut bb, f, r, 1, 0);
    add_target(&mut bb, f, r, -1, 0);
    add_target(&mut bb, f, r, 0, 1);
    add_target(&mut bb, f, r, 0, -1);
    add_target(&mut bb, f, r, 1, 1);
    add_target(&mut bb, f, r, 1, -1);
    add_target(&mut bb, f, r, -1, 1);
    add_target(&mut bb, f, r, -1, -1);
    proof {
        let s = sq.0 as int;
        assert forall|t: int| bb@.contains(t) <==> king_set(s).contains(t) by {
            if 0 <= t < 64 {
                lemma_square_coords(t);
            }
        }
        assert(bb@ =~= king_set(s));
    }
    bb
}

/// Squares attacked BY a pawn of `color` standing on `sq`.
pub fn pawn_attacks(color: Color, sq: Square) -> (b: Bitboard)
    requires
        sq.0 < 64,
    ensures
        b@ == pawn_set(color, sq.0 as int),
{
    let mut bb = Bitboard::empty();
    let f = (sq.0 % 8) as i32;
    let r = (sq.0 / 8) as i32;
    let dr: i32 = match color {
        Color::White => 1,
        Color::Black => -1,
    };
    add_target(&mut bb, f, r, -1, dr);
    add_target(&mut bb, f, r, 1, dr);
    proof {
        let s = sq.0 as int;
        assert forall|t: int| bb@.contains(t) <==> pawn_set(color, s).contains(t) by {
            if 0 <= t < 64 {
                lemma_square_coords(t);
            }
        }
        assert(bb@ =~= pawn_set(color, s));
    }
    bb
}

/// All squares reachable from `sq` along `(df, dr)`, stopping when blocked
/// by an occupied square (the occupied square is included — it may be
/// capturable).
pub fn sliding_attack(sq: Square, occ: Bitboard, df: i32, dr: i32) -> (b: Bitboard)
    requires
        sq.0 < 64,
        -1 <= df <= 1,
        -1 <= dr <= 1,
    ensures
        b@ == ray(sq.0 as int, df as int, dr as int, occ@),
{
    let f0 = (sq.0 % 8) as i32;
    let r0 = (sq.0 / 8) as i32;
    let mut f = f0;
    let mut r = r0;
    let mut k: u32 = 0;
    let mut bb = Bitboard::empty();
    let ghost total = ray_from(f0 as int, r0 as int, df as int, dr as int, occ@, 8);
    while k < 8
        invariant_except_break
            k <= 8,
            on_board(f as int, r as int),
            -1 <= df <= 1,
            -1 <= dr <= 1,
            bb@ + ray_from(f as int, r as int, df as int, dr as int, occ@, (8 - k) as nat)
                == total,
        ensures
            bb@ == total,
        decreases 8 - k,
    {
        let nf = f + df;
        let nr = r + dr;
        if !(0 <= nf && nf < 8 && 0 <= nr && nr < 8) {
            proof {
                assert(ray_from(f as int, r as int, df as int, dr as int, occ@, (8 - k) as nat)
                    =~= Set::empty());
                assert(bb@ + Set::empty() =~= bb@);
            }
            break ;
        }
        let target = Square((nr * 8 + nf) as u8);
        let ghost before = bb@;
        bb.set(target);
        if occ.is_set(target) {
            proof {
                assert(bb@ =~= before + set![sq_at(nf as int, nr as int)]);
            }
            break ;
        }
        proof {
            let rest = ray_from(nf as int, nr as int, df as int, dr as int, occ@, (8 - k - 1) as nat);
            assert(ray_from(f as int, r as int, df as int, dr as int, occ@, (8 - k) as nat)
                == rest.insert(sq_at(nf as int, nr as int)));
            assert(bb@ + rest =~= before + rest.insert(sq_at(nf as int, nr as int)));
        }
        f = nf;
        r = nr;
        k = k + 1;
    }
    proof {
        if k == 8 {
            assert(ray_from(f as int, r as int, df as int, dr as int, occ@, 0) =~= Set::empty());
            assert(bb@ + Set::empty() =~= bb@);
        }
    }
    bb
}

fn union_of(a: Bitboard, b: Bitboard) -> (c: Bitboard)
    ensures
        c@ == a@ + b@,
{
    proof {
        lemma_or_view(a.0, b.0);
    }
    Bitboard(a.0 | b.0)
}

pub fn bishop_attacks(sq: Square, occupancy: Bitboard) -> (b: Bitboard)
    requires
        sq.0 < 64,
    ensures
        b@ == bishop_set(sq.0 as int, occupancy@),
{
    let a = sliding_attack(sq, occupancy, 1, 1);
    let b = sliding_attack(sq, occupancy, 1, -1);
    let c = sliding_attack(sq, occupancy, -1, 1);
    let d = sliding_attack(sq, occupancy, -1, -1);
    union_of(union_of(union_of(a, b), c), d)
}

pub fn rook_attacks(sq: Square, occupancy: Bitboard) -> (b: Bitboard)
    requires
        sq.0 < 64,
    ensures
        b@ == rook_set(sq.0 as int, occupancy@),
{
    let a = sliding_attack(sq, occupancy, 1, 0);
    let b = sliding_attack(sq, occupancy, -1, 0);
    let c = sliding_attack(sq, occupancy, 0, 1);
    let d = sliding_attack(sq, occupancy, 0, -1);
    union_of(union_of(union_of(a, b), c), d)
}

pub fn queen_attacks(sq: Square, occupancy: Bitboard) -> (b: Bitboard)
    requires
        sq.0 < 64,
    ensures
        b@ == queen_set(sq.0 as int, occupancy@),
{
    union_of(bishop_attacks(sq, occupancy), rook_attacks(sq, occupancy))
}

// ---------------------------------------------------------------------------
// Subsets of a mask
// ---------------------------------------------------------------------------

/// The word `m` without its lowest set bit.
pub open spec fn clear_low(m: u64) -> u64 {
    m & ((m - 1) as u64)
}

/// The subset of the set bits of `m` that index `i` selects: bit `j` of `i`
/// picks the `j`-th lowest set bit of `m`.
pub open spec fn occ_of_index(m: u64, i: nat) -> Set<int>
    decreases m,
{
    if m == 0 {
        Set::empty()
    } else {
        proof {
            lemma_clear_low(m);
        }
        let rest = occ_of_index(clear_low(m), i / 2);
        if i % 2 == 1 {
            rest.insert(u64_trailing_zeros(m) as int)
        } else {
            rest
        }
    }
}

/// The index that selects `sub` among the set bits of `m`.
pub open spec fn index_of(m: u64, sub: Set<int>) -> nat
    decreases m,
{
    if m == 0 {
        0
    } else {
        proof {
            lemma_clear_low(m);
        }
        (if sub.contains(u64_trailing_zeros(m) as int) {
            1nat
        } else {
            0nat
        }) + 2 * index_of(clear_low(m), sub)
    }
}

/// The number of subsets of the set bits of `m`.
pub open spec fn subsets(m: u64) -> nat
    decreases m,
{
    if m == 0 {
        1
    } else {
        proof {
            lemma_clear_low(m);
        }
        2 * subsets(clear_low(m))
    }
}

/// The index of a set depends on its squares among the bits of `m` only.
proof fn lemma_index_of_agree(m: u64, a: Set<int>, b: Set<int>)
    requires
        forall|s: int| bits_set(m).contains(s) ==> (a.contains(s) == b.contains(s)),
    ensures
        index_of(m, a) == index_of(m, b),
    decreases m,
{
    if m != 0 {
        lemma_clear_low(m);
        lemma_index_of_agree(clear_low(m), a, b);
    }
}

/// Every subset of the bits of `m` has an index below `subsets(m)`, which
/// selects it.
pub proof fn lemma_subset_index(m: u64, sub: Set<int>)
    requires
        sub.subset_of(bits_set(m)),
    ensures
        index_of(m, sub) < subsets(m),
        occ_of_index(m, index_of(m, sub)) == sub,
    decreases m,
{
    if m == 0 {
        assert forall|s: int| !sub.contains(s) by {
            if sub.contains(s) {
                crate::bitboard::lemma_zero_no_bits(s);
            }
        }
        assert(sub =~= Set::<int>::empty());
    } else {
        lemma_clear_low(m);
        let t = u64_trailing_zeros(m) as int;
        let c = clear_low(m);
        let rest = sub.remove(t);
        lemma_index_of_agree(c, sub, rest);
        lemma_subset_index(c, rest);
        let i = index_of(m, sub);
        let j = index_of(c, sub);
        assert(i % 2 == (if sub.contains(t) { 1int } else { 0 }));
        assert(i / 2 == j);
        if sub.contains(t) {
            assert(occ_of_index(m, i) =~= rest.insert(t));
        } else {
            assert(occ_of_index(m, i) =~= rest);
        }
    }
}

/// The subset of `mask` that `index` selects.
fn index_to_occupancy(index: u32, mask: Bitboard) -> (b: Bitboard)
    ensures
        b@ == occ_of_index(mask.0, index as nat),
{
    let mut occ = Bitboard(0);
    let mut rest = mask;
    let mut cur = index;
    proof {
        crate::bitboard::lemma_empty_view(0);
    }
    while rest.0 != 0
        invariant
            occ@ + occ_of_index(rest.0, cur as nat) == occ_of_index(mask.0, index as nat),
        decreases rest.0,
    {
        let ghost before = rest.0;
        let ghost c0 = cur;
        let ghost occ0 = occ@;
        let sq = rest.pop_lsb();
        proof {
            lemma_clear_low(before);
            assert((c0 & 1 == 1) == (c0 % 2 == 1)) by (bit_vector);
            assert(c0 >> 1 == c0 / 2) by (bit_vector);
        }
        if cur & 1 == 1 {
            occ.set(sq);
        }
        cur = cur >> 1;
        proof {
            let r = occ_of_index(rest.0, cur as nat);
            if c0 % 2 == 1 {
                assert(occ_of_index(before, c0 as nat) == r.insert(sq.0 as int));
                assert(occ@ + r =~= occ0 + r.insert(sq.0 as int));
            } else {
                assert(occ_of_index(before, c0 as nat) == r);
            }
        }
    }
    occ
}

// ---------------------------------------------------------------------------
// Relevant occupancy
// ---------------------------------------------------------------------------

/// The squares of the ray from `(f, r)` along `(df, dr)` (within `fuel`
/// steps) short of the board's edge: the squares whose occupancy can change
/// what a slider on `(f, r)` attacks along that ray.
pub open spec fn inner_from(f: int, r: int, df: int, dr: int, fuel: nat) -> Set<int>
    decreases fuel,
{
    let nf = f + df;
    let nr = r + dr;
    if fuel == 0 || !on_board(nf, nr) || !on_board(nf + df, nr + dr) {
        Set::empty()
    } else {
        inner_from(nf, nr, df, dr, (fuel - 1) as nat).insert(sq_at(nf, nr))
    }
}

/// The inner squares of the ray from square `s`.
pub open spec fn inner(s: int, df: int, dr: int) -> Set<int> {
    inner_from(file_of(s), rank_of(s), df, dr, 8)
}

/// The squares whose occupancy matters to a bishop on `s`.
pub open spec fn bishop_mask_set(s: int) -> Set<int> {
    inner(s, 1, 1) + inner(s, 1, -1) + inner(s, -1, 1) + inner(s, -1, -1)
}

/// The squares whose occupancy matters to a rook on `s`.
pub open spec fn rook_mask_set(s: int) -> Set<int> {
    inner(s, 1, 0) + inner(s, -1, 0) + inner(s, 0, 1) + inner(s, 0, -1)
}

/// A ray depends on the occupancy of its inner squares only.
proof fn lemma_ray_relevant(f: int, r: int, df: int, dr: int, a: Set<int>, b: Set<int>, fuel: nat)
    requires
        forall|x: int| inner_from(f, r, df, dr, fuel).contains(x) ==> (a.contains(x) == b.contains(x)),
    ensures
        ray_from(f, r, df, dr, a, fuel) == ray_from(f, r, df, dr, b, fuel),
    decreases fuel,
{
    let nf = f + df;
    let nr = r + dr;
    if fuel == 0 || !on_board(nf, nr) {
    } else if !on_board(nf + df, nr + dr) || fuel == 1 {
        let sq = sq_at(nf, nr);
        assert(ray_from(nf, nr, df, dr, a, (fuel - 1) as nat) =~= Set::empty());
        assert(ray_from(nf, nr, df, dr, b, (fuel - 1) as nat) =~= Set::empty());
        assert(ray_from(f, r, df, dr, a, fuel) =~= set![sq]);
        assert(ray_from(f, r, df, dr, b, fuel) =~= set![sq]);
    } else {
        let sq = sq_at(nf, nr);
        assert(inner_from(f, r, df, dr, fuel).contains(sq));
        lemma_ray_relevant(nf, nr, df, dr, a, b, (fuel - 1) as nat);
    }
}

/// A bishop's attacks depend on the occupancy of its mask only.
pub proof fn lemma_bishop_relevant(s: int, occ: Set<int>)
    ensures
        bishop_set(s, occ) == bishop_set(s, occ.intersect(bishop_mask_set(s))),
{
    let m = occ.intersect(bishop_mask_set(s));
    lemma_ray_relevant(file_of(s), rank_of(s), 1, 1, occ, m, 8);
    lemma_ray_relevant(file_of(s), rank_of(s), 1, -1, occ, m, 8);
    lemma_ray_relevant(file_of(s), rank_of(s), -1, 1, occ, m, 8);
    lemma_ray_relevant(file_of(s), rank_of(s), -1, -1, occ, m, 8);
}

/// A rook's attacks depend on the occupancy of its mask only.
pub proof fn lemma_rook_relevant(s: int, occ: Set<int>)
    ensures
        rook_set(s, occ) == rook_set(s, occ.intersect(rook_mask_set(s))),
{
    let m = occ.intersect(rook_mask_set(s));
    lemma_ray_relevant(file_of(s), rank_of(s), 1, 0, occ, m, 8);
    lemma_ray_relevant(file_of(s), rank_of(s), -1, 0, occ, m, 8);
    lemma_ray_relevant(file_of(s), rank_of(s), 0, 1, occ, m, 8);
    lemma_ray_relevant(file_of(s), rank_of(s), 0, -1, occ, m, 8);
}

/// The inner squares of the ray from `sq` along `(df, dr)`.
fn inner_ray(sq: Square, df: i32, dr: i32) -> (b: Bitboard)
    requires
        sq.0 < 64,
        -1 <= df <= 1,
        -1 <= dr <= 1,
    ensures
        b@ == inner(sq.0 as int, df as int, dr as int),
{
    let f0 = (sq.0 % 8) as i32;
    let r0 = (sq.0 / 8) as i32;
    let mut f = f0;
    let mut r = r0;
    let mut k: u32 = 0;
    let mut bb = Bitboard::empty();
    let ghost total = inner_from(f0 as int, r0 as int, df as int, dr as int, 8);
    while k < 8
        invariant_except_break
            k <= 8,
            on_board(f as int, r as int),
            -1 <= df <= 1,
            -1 <= dr <= 1,
            bb@ + inner_from(f as int, r as int, df as int, dr as int, (8 - k) as nat) == total,
        ensures
            bb@ == total,
        decreases 8 - k,
    {
        let nf = f + df;
        let nr = r + dr;
        if !(0 <= nf && nf < 8 && 0 <= nr && nr < 8 && 0 <= nf + df && nf + df < 8 && 0 <= nr + dr
            && nr + dr < 8) {
            proof {
                assert(inner_from(f as int, r as int, df as int, dr as int, (8 - k) as nat) =~= Set::empty());
                assert(bb@ + Set::empty() =~= bb@);
            }
            break ;
        }
        let ghost before = bb@;
        bb.set(Square((nr * 8 + nf) as u8));
        proof {
            let rest = inner_from(nf as int, nr as int, df as int, dr as int, (8 - k - 1) as nat);
            assert(inner_from(f as int, r as int, df as int, dr as int, (8 - k) as nat) == rest.insert(
                sq_at(nf as int, nr as int),
            ));
            assert(bb@ + rest =~= before + rest.insert(sq_at(nf as int, nr as int)));
        }
        f = nf;
        r = nr;
        k = k + 1;
    }
    proof {
        if k == 8 {
            assert(inner_from(f as int, r as int, df as int, dr as int, 0) =~= Set::empty());
            assert(bb@ + Set::empty() =~= bb@);
        }
    }
    bb
}

/// The squares whose occupancy matters to a bishop on `sq`.
fn bishop_mask(sq: Square) -> (b: Bitboard)
    requires
        sq.0 < 64,
    ensures
        b@ == bishop_mask_set(sq.0 as int),
{
    let a = inner_ray(sq, 1, 1);
    let b = inner_ray(sq, 1, -1);
    let c = inner_ray(sq, -1, 1);
    let d = inner_ray(sq, -1, -1);
    union_of(union_of(union_of(a, b), c), d)
}

/// The squares whose occupancy matters to a rook on `sq`.
fn rook_mask(sq: Square) -> (b: Bitboard)
    requires
        sq.0 < 64,
    ensures
        b@ == rook_mask_set(sq.0 as int),
{
    let a = inner_ray(sq, 1, 0);
    let b = inner_ray(sq, -1, 0);
    let c = inner_ray(sq, 0, 1);
    let d = inner_ray(sq, 0, -1);
    union_of(union_of(union_of(a, b), c), d)
}

// ---------------------------------------------------------------------------
// Magic numbers
// ---------------------------------------------------------------------------

/// One xorshift step (shifts 13, 7, 17) of the generator state `s`.
pub open spec fn xorshift(s: u64) -> u64 {
    let a = s ^ (s << 13u64);
    let b = a ^ (a >> 7u64);
    b ^ (b << 17u64)
}

/// The generator state after one sparse draw (three steps) from `s`.
pub open spec fn sparse_step(s: u64) -> u64 {
    xorshift(xorshift(xorshift(s)))
}

/// The sparse number drawn from state `s`: the three next states and-ed.
pub open spec fn sparse_of(s: u64) -> u64 {
    xorshift(s) & xorshift(xorshift(s)) & sparse_step(s)
}

/// The generator state after `t` sparse draws from `s`.
pub open spec fn state_after(s: u64, t: nat) -> u64
    decreases t,
{
    if t == 0 {
        s
    } else {
        sparse_step(state_after(s, (t - 1) as nat))
    }
}

/// Pseudo-random numbers for the magic search (xorshift, fixed seed).
struct Prng(u64);

impl Prng {
    fn next(&mut self) -> (r: u64)
        ensures
            final(self).0 == xorshift(old(self).0),
            r == final(self).0,
    {
        self.0 = self.0 ^ (self.0 << 13u64);
        self.0 = self.0 ^ (self.0 >> 7u64);
        self.0 = self.0 ^ (self.0 << 17u64);
        self.0
    }

    /// A number with few set bits: three draws and-ed together.
    fn sparse_rand(&mut self) -> (r: u64)
        ensures
            r == sparse_of(old(self).0),
            final(self).0 == sparse_step(old(self).0),
    {
        let a = self.next();
        let b = self.next();
        let c = self.next();
        a & b & c
    }
}

/// The table slot of occupancy word `occ` under multiplier `magic` and
/// `shift`: the top bits of the wrapped product.
pub open spec fn magic_index(occ: u64, magic: u64, shift: u8) -> u64 {
    vstd::wrapping::u64_specs::wrapping_mul(occ, magic) >> shift
}

/// A slot below `2^k`.
proof fn lemma_magic_index_bound(x: u64, k: u64)
    by (bit_vector)
    requires
        1 <= k <= 12,
    ensures
        x >> ((64 - k) as u8) < (1u64 << k),
        (1u64 << k) <= 4096,
{
}


/// No two occupancies (of `occs`) with different attack sets (in `attacks`)
/// share a slot under multiplier `m` and `shift`.
pub open spec fn no_collision(occs: Seq<Bitboard>, attacks: Seq<Bitboard>, m: u64, shift: u8) -> bool {
    forall|i: int, j: int|
        #![trigger magic_index(occs[i].0, m, shift), magic_index(occs[j].0, m, shift)]
        0 <= i < occs.len() && 0 <= j < occs.len() && magic_index(occs[i].0, m, shift) == magic_index(
            occs[j].0,
            m,
            shift,
        ) ==> attacks[i] == attacks[j]
}

/// Whether candidate `m` is taken as the multiplier for `mask`: the top
/// byte of the wrapped product of `mask` and `m` has at least six set bits,
/// and `m` has no collision.
pub open spec fn magic_fits(mask: u64, shift: u8, occs: Seq<Bitboard>, attacks: Seq<Bitboard>, m: u64) -> bool {
    &&& popcount(vstd::wrapping::u64_specs::wrapping_mul(mask, m) >> 56u64) >= 6
    &&& no_collision(occs, attacks, m, shift)
}

/// Most candidates tried per square.
const MAGIC_TRIES: u64 = 100_000_000;

/// The first of the candidates drawn from `prng` (at most `MAGIC_TRIES`)
/// that fits (see `magic_fits`): no two occupancies with different attack
/// sets share a slot under it.
fn find_magic(prng: &mut Prng, mask: Bitboard, shift: u8, occs: &Vec<Bitboard>, attacks: &Vec<Bitboard>) -> (r: Option<u64>)
    requires
        occs@.len() == attacks@.len(),
        52 <= shift <= 63,
        occs@.len() == (1u64 << (64 - shift) as u64),
    ensures
        r matches Some(m) ==> forall|i: int, j: int|
            0 <= i < occs@.len() && 0 <= j < occs@.len() && magic_index(occs@[i].0, m, shift) == magic_index(
                occs@[j].0,
                m,
                shift,
            ) ==> attacks@[i] == attacks@[j],
        r matches Some(m) ==> exists|t: nat|
            {
                &&& t < MAGIC_TRIES
                &&& m == sparse_of(state_after(old(prng).0, t))
                &&& final(prng).0 == state_after(old(prng).0, t + 1)
                &&& magic_fits(mask.0, shift, occs@, attacks@, m)
                &&& forall|u: nat|
                    u < t ==> !magic_fits(mask.0, shift, occs@, attacks@, #[trigger] sparse_of(state_after(old(prng).0, u)))
            },
        r is None ==> final(prng).0 == state_after(old(prng).0, MAGIC_TRIES as nat),
        r is None ==> forall|u: nat|
            u < MAGIC_TRIES ==> !magic_fits(mask.0, shift, occs@, attacks@, #[trigger] sparse_of(state_after(old(prng).0, u))),
{
    let perms = occs.len();
    let mut tries: u64 = 0;
    let ghost s0 = prng.0;
    while tries < MAGIC_TRIES
        invariant
            occs@.len() == attacks@.len(),
            perms == occs@.len(),
            52 <= shift <= 63,
            perms == (1u64 << (64 - shift) as u64),
            tries <= MAGIC_TRIES,
            s0 == old(prng).0,
            prng.0 == state_after(s0, tries as nat),
            forall|u: nat| u < tries ==> !magic_fits(mask.0, shift, occs@, attacks@, #[trigger] sparse_of(state_after(s0, u))),
        decreases MAGIC_TRIES - tries,
    {
        let ghost t = tries as nat;
        tries = tries + 1;
        let m = prng.sparse_rand();
        proof {
            assert(state_after(s0, (t + 1) as nat) == sparse_step(state_after(s0, t)));
        }
        if Bitboard(mask.0.wrapping_mul(m) >> 56u64).count() < 6 {
            proof {
                assert forall|u: nat| u < tries implies !magic_fits(mask.0, shift, occs@, attacks@, #[trigger] sparse_of(state_after(s0, u))) by {
                    if u == t {
                        assert(sparse_of(state_after(s0, u)) == m);
                    }
                }
            }
            continue;
        }
        let mut slots: Vec<Option<Bitboard>> = vec![None; perms];
        let mut ok = true;
        let mut i: usize = 0;
        proof {
            lemma_magic_index_bound(0, (64 - shift) as u64);
        }
        while i < perms
            invariant_except_break
                i <= perms,
                perms == occs@.len(),
                occs@.len() == attacks@.len(),
                52 <= shift <= 63,
                perms == (1u64 << (64 - shift) as u64),
                slots@.len() == perms,
                ok,
                forall|j: int| 0 <= j < i ==> slots@[magic_index(occs@[j].0, m, shift) as int] == Some(
                    #[trigger] attacks@[j],
                ),
                forall|x: int|
                    0 <= x < perms && (#[trigger] slots@[x]) is Some ==> exists|j: int|
                        0 <= j < i && magic_index(occs@[j].0, m, shift) == x && attacks@[j] == slots@[x]->0,
            ensures
                ok ==> forall|j: int| 0 <= j < perms ==> slots@[magic_index(occs@[j].0, m, shift) as int]
                    == Some(#[trigger] attacks@[j]),
                !ok ==> !no_collision(occs@, attacks@, m, shift),
            decreases perms - i,
        {
            let idx_word = occs[i].0.wrapping_mul(m) >> shift;
            proof {
                lemma_magic_index_bound(occs@[i as int].0.wrapping_mul(m), (64 - shift) as u64);
            }
            let idx = idx_word as usize;
            let free = match slots[idx] {
                None => true,
                Some(b) => b == attacks[i],
            };
            if !free {
                proof {
                    assert(idx_word == magic_index(occs@[i as int].0, m, shift));
                    assert(slots@[idx as int] is Some);
                    let j = choose|j: int|
                        0 <= j < i && magic_index(occs@[j].0, m, shift) == idx as int && attacks@[j]
                            == slots@[idx as int]->0;
                    assert(magic_index(occs@[j].0, m, shift) == magic_index(occs@[i as int].0, m, shift));
                    assert(attacks@[j] != attacks@[i as int]);
                }
                ok = false;
                break;
            }
            let ghost before = slots@;
            slots.set(idx, Some(attacks[i]));
            proof {
                assert(idx_word == magic_index(occs@[i as int].0, m, shift));
                assert forall|j: int| 0 <= j < i + 1 implies slots@[magic_index(occs@[j].0, m, shift) as int]
                    == Some(#[trigger] attacks@[j]) by {
                    lemma_magic_index_bound(occs@[j].0.wrapping_mul(m), (64 - shift) as u64);
                    if j < i {
                        assert(before[magic_index(occs@[j].0, m, shift) as int] == Some(attacks@[j]));
                        if magic_index(occs@[j].0, m, shift) as int == idx as int {
                            assert(before[idx as int] == Some(attacks@[j]));
                        }
                    }
                }
                assert forall|x: int|
                    0 <= x < perms && (#[trigger] slots@[x]) is Some implies exists|j: int|
                        0 <= j < i + 1 && magic_index(occs@[j].0, m, shift) == x && attacks@[j] == slots@[x]->0 by {
                    if x == idx as int {
                        assert(magic_index(occs@[i as int].0, m, shift) == x && attacks@[i as int] == slots@[x]->0);
                    } else {
                        assert(before[x] is Some);
                        let j = choose|j: int|
                            0 <= j < i && magic_index(occs@[j].0, m, shift) == x && attacks@[j] == before[x]->0;
                        assert(0 <= j < i + 1 && magic_index(occs@[j].0, m, shift) == x && attacks@[j] == slots@[x]->0);
                    }
                }
            }
            i = i + 1;
        }
        if ok {
            proof {
                assert forall|a: int, b: int|
                    0 <= a < occs@.len() && 0 <= b < occs@.len() && magic_index(occs@[a].0, m, shift)
                        == magic_index(occs@[b].0, m, shift) implies attacks@[a] == attacks@[b] by {
                    assert(slots@[magic_index(occs@[a].0, m, shift) as int] == Some(attacks@[a]));
                    assert(slots@[magic_index(occs@[b].0, m, shift) as int] == Some(attacks@[b]));
                }
                assert(magic_fits(mask.0, shift, occs@, attacks@, m));
                assert(m == sparse_of(state_after(s0, t)));
                assert(prng.0 == state_after(s0, t + 1));
            }
            return Some(m);
        }
        proof {
            assert forall|u: nat| u < tries implies !magic_fits(mask.0, shift, occs@, attacks@, #[trigger] sparse_of(state_after(s0, u))) by {
                if u == t {
                    assert(sparse_of(state_after(s0, u)) == m);
                }
            }
        }
    }
    None
}

// ---------------------------------------------------------------------------
// Attack tables
// ---------------------------------------------------------------------------

/// A magic entry: the relevant-occupancy mask of a square, its multiplier,
/// the shift, and where its block starts in the shared attack table.
#[derive(Copy, Clone)]
pub struct Magic {
    pub mask: Bitboard,
    pub magic: u64,
    pub shift: u8,
    pub offset: usize,
}

/// A bishop's (`bishop`) or a rook's attack set.
pub open spec fn slider_set(bishop: bool, s: int, occ: Set<int>) -> Set<int> {
    if bishop {
        bishop_set(s, occ)
    } else {
        rook_set(s, occ)
    }
}

/// A bishop's (`bishop`) or a rook's relevant-occupancy mask.
pub open spec fn mask_set(bishop: bool, s: int) -> Set<int> {
    if bishop {
        bishop_mask_set(s)
    } else {
        rook_mask_set(s)
    }
}

/// The block of entry `m` for a slider on square `s` is right in `table`:
/// every occupancy word within the mask lands on a slot of the block that
/// holds its attack set.
pub open spec fn block_ok(m: Magic, table: Seq<Bitboard>, bishop: bool, s: int) -> bool {
    &&& m.mask@ == mask_set(bishop, s)
    &&& 52 <= m.shift <= 63
    &&& forall|w: u64|
        bits_set(w).subset_of(m.mask@) ==> {
            &&& m.offset + #[trigger] magic_index(w, m.magic, m.shift) < table.len()
            &&& table[m.offset + magic_index(w, m.magic, m.shift)]@ == slider_set(bishop, s, bits_set(w))
        }
}

/// A block stays right when the table only grows.
proof fn lemma_block_kept(m: Magic, t1: Seq<Bitboard>, t2: Seq<Bitboard>, bishop: bool, s: int)
    requires
        block_ok(m, t1, bishop, s),
        t1.len() <= t2.len(),
        forall|i: int| 0 <= i < t1.len() ==> t2[i] == t1[i],
    ensures
        block_ok(m, t2, bishop, s),
{
    assert forall|w: u64| bits_set(w).subset_of(m.mask@) implies {
        &&& m.offset + #[trigger] magic_index(w, m.magic, m.shift) < t2.len()
        &&& t2[m.offset + magic_index(w, m.magic, m.shift)]@ == slider_set(bishop, s, bits_set(w))
    } by {
        assert(m.offset + magic_index(w, m.magic, m.shift) < t1.len());
    }
}

/// A bishop's or a rook's attacks, computed along the rays.
fn slider_attacks(bishop: bool, sq: Square, occ: Bitboard) -> (b: Bitboard)
    requires
        sq.0 < 64,
    ensures
        b@ == slider_set(bishop, sq.0 as int, occ@),
{
    if bishop {
        bishop_attacks(sq, occ)
    } else {
        rook_attacks(sq, occ)
    }
}

/// The number of set bits of `mask` (at most 13 are counted) and the number
/// of its subsets.
fn mask_size(mask: Bitboard) -> (r: (u64, u64))
    ensures
        r.0 <= 13,
        r.0 <= 12 ==> r.1 == (1u64 << r.0) && subsets(mask.0) == r.1,
{
    let mut rest = mask;
    let mut k: u64 = 0;
    let mut n: u64 = 1;
    proof {
        assert((1u64 << 0u64) == 1) by (bit_vector);
    }
    while rest.0 != 0 && k < 13
        invariant
            k <= 13,
            n == (1u64 << k),
            subsets(mask.0) == n * subsets(rest.0),
        decreases rest.0,
    {
        let ghost before = rest.0;
        rest.pop_lsb();
        proof {
            lemma_clear_low(before);
            assert((1u64 << (k + 1)) == 2 * (1u64 << k)) by (bit_vector)
                requires
                    k < 13,
            ;
            assert(subsets(before) == 2 * subsets(rest.0));
            assert(n * (2 * subsets(rest.0)) == (2 * n) * subsets(rest.0)) by (nonlinear_arith);
        }
        k = k + 1;
        n = n * 2;
    }
    proof {
        if k <= 12 {
            assert(rest.0 == 0);
            assert(subsets(rest.0) == 1);
        }
    }
    (k, n)
}

/// The first `n` occupancies sit in their slots of the block at `offset`.
pub open spec fn placed(
    table: Seq<Bitboard>,
    offset: int,
    occs: Seq<Bitboard>,
    attacks: Seq<Bitboard>,
    magic: u64,
    shift: u8,
    n: int,
) -> bool {
    forall|j: int|
        #![trigger occs[j]]
        #![trigger attacks[j]]
        0 <= j < n ==> {
            &&& offset + magic_index(occs[j].0, magic, shift) < table.len()
            &&& table[offset + magic_index(occs[j].0, magic, shift)] == attacks[j]
        }
}

/// One placed occupancy.
proof fn lemma_placed_at(t: Seq<Bitboard>, o: int, occs: Seq<Bitboard>, atk: Seq<Bitboard>, m: u64, sh: u8, n: int, j: int)
    requires
        placed(t, o, occs, atk, m, sh, n),
        0 <= j < n,
    ensures
        o + magic_index(occs[j].0, m, sh) < t.len(),
        t[o + magic_index(occs[j].0, m, sh)] == atk[j],
{
    assert(atk[j] == atk[j]);
}

/// Placing occupancy `i` in its slot keeps the earlier ones in theirs: a
/// slot they share holds the same attack set.
proof fn lemma_place_step(
    before: Seq<Bitboard>,
    grown: Seq<Bitboard>,
    after: Seq<Bitboard>,
    offset: int,
    occs: Seq<Bitboard>,
    attacks: Seq<Bitboard>,
    magic: u64,
    shift: u8,
    i: int,
    slot: int,
)
    requires
        placed(before, offset, occs, attacks, magic, shift, i),
        0 <= offset,
        before.len() <= grown.len(),
        forall|x: int| 0 <= x < before.len() ==> grown[x] == before[x],
        0 <= i < occs.len(),
        occs.len() == attacks.len(),
        slot == offset + magic_index(occs[i].0, magic, shift),
        0 <= slot < grown.len(),
        after == grown.update(slot, attacks[i]),
        forall|a: int, b: int|
            0 <= a < occs.len() && 0 <= b < occs.len() && magic_index(occs[a].0, magic, shift)
                == magic_index(occs[b].0, magic, shift) ==> attacks[a] == attacks[b],
    ensures
        placed(after, offset, occs, attacks, magic, shift, i + 1),
{
    assert forall|j: int|
        #![trigger occs[j]]
        #![trigger attacks[j]]
        0 <= j < i + 1 implies {
        &&& offset + magic_index(occs[j].0, magic, shift) < after.len()
        &&& after[offset + magic_index(occs[j].0, magic, shift)] == attacks[j]
    } by {
        if j < i {
            lemma_placed_at(before, offset, occs, attacks, magic, shift, i, j);
            let at = offset + magic_index(occs[j].0, magic, shift);
            assert(grown[at] == before[at]);
            if at == slot {
                assert(attacks[j] == attacks[i]);
            }
        }
    }
}

/// Builds the block of square `sq` at `offset`: the mask, a magic number
/// found by trial, and the attack sets of every occupancy of the mask in
/// their slots. Returns the entry, whether a magic number was found, and
/// where the next block starts.
#[verifier::spinoff_prover]
#[verifier::rlimit(40)]
fn build_block(prng: &mut Prng, table: &mut Vec<Bitboard>, offset: usize, sq: Square, bishop: bool) -> (r: (
    Magic,
    bool,
    usize,
))
    requires
        sq.0 < 64,
        old(table)@.len() <= offset <= 1_000_000,
    ensures
        old(table)@.len() <= final(table)@.len() <= r.2,
        forall|i: int| 0 <= i < old(table)@.len() ==> final(table)@[i] == old(table)@[i],
        offset <= r.2 <= offset + 4096,
        r.1 ==> block_ok(r.0, final(table)@, bishop, sq.0 as int),
{
    let mask = if bishop {
        bishop_mask(sq)
    } else {
        rook_mask(sq)
    };
    let (k, perms64) = mask_size(mask);
    if k == 0 || k > 12 {
        return (Magic { mask, magic: 0, shift: 0, offset }, false, offset);
    }
    let shift: u8 = (64 - k) as u8;
    proof {
        assert((1u64 << k) <= 4096) by (bit_vector)
            requires
                1 <= k <= 12,
        ;
    }
    let perms = perms64 as usize;
    let mut occs: Vec<Bitboard> = Vec::new();
    let mut attacks: Vec<Bitboard> = Vec::new();
    let mut i: usize = 0;
    while i < perms
        invariant
            i <= perms,
            perms <= 4096,
            sq.0 < 64,
            occs@.len() == i,
            attacks@.len() == i,
            forall|j: int| 0 <= j < i ==> (#[trigger] occs@[j])@ == occ_of_index(mask.0, j as nat),
            forall|j: int| 0 <= j < i ==> (#[trigger] attacks@[j])@ == slider_set(bishop, sq.0 as int, occs@[j]@),
        decreases perms - i,
    {
        let occ = index_to_occupancy(i as u32, mask);
        occs.push(occ);
        attacks.push(slider_attacks(bishop, sq, occ));
        i = i + 1;
    }
    let found = find_magic(prng, mask, shift, &occs, &attacks);
    let magic = match found {
        Some(m) => m,
        None => {
            return (Magic { mask, magic: 0, shift, offset }, false, offset + perms);
        },
    };
    let ghost old_table = table@;
    let mut i: usize = 0;
    while i < perms
        invariant
            i <= perms,
            perms <= 4096,
            perms == occs@.len(),
            perms == attacks@.len(),
            perms == (1u64 << (64 - shift) as u64),
            52 <= shift <= 63,
            offset <= 1_000_000,
            old_table.len() <= offset,
            old_table.len() <= table@.len() <= offset + perms,
            forall|j: int| 0 <= j < old_table.len() ==> table@[j] == old_table[j],
            forall|a: int, b: int|
                0 <= a < occs@.len() && 0 <= b < occs@.len() && magic_index(occs@[a].0, magic, shift)
                    == magic_index(occs@[b].0, magic, shift) ==> attacks@[a] == attacks@[b],
            placed(table@, offset as int, occs@, attacks@, magic, shift, i as int),
        decreases perms - i,
    {
        let idx = (occs[i].0.wrapping_mul(magic) >> shift) as usize;
        proof {
            lemma_magic_index_bound(occs@[i as int].0.wrapping_mul(magic), (64 - shift) as u64);
        }
        let slot = offset + idx;
        let ghost before = table@;
        while table.len() <= slot
            invariant
                before.len() <= table@.len(),
                table@.len() <= before.len() || table@.len() <= slot + 1,
                forall|j: int| 0 <= j < before.len() ==> table@[j] == before[j],
            decreases slot + 1 - table@.len(),
        {
            table.push(Bitboard(0));
        }
        let ghost grown = table@;
        table.set(slot, attacks[i]);
        proof {
            assert(idx as int == magic_index(occs@[i as int].0, magic, shift));
            lemma_place_step(before, grown, table@, offset as int, occs@, attacks@, magic, shift, i as int, slot as int);
        }
        i = i + 1;
    }
    let m = Magic { mask, magic, shift, offset };
    proof {
        assert forall|w: u64| bits_set(w).subset_of(m.mask@) implies {
            &&& m.offset + #[trigger] magic_index(w, m.magic, m.shift) < table@.len()
            &&& table@[m.offset + magic_index(w, m.magic, m.shift)]@ == slider_set(bishop, sq.0 as int, bits_set(w))
        } by {
            lemma_subset_index(mask.0, bits_set(w));
            let j = index_of(mask.0, bits_set(w)) as int;
            assert(occs@[j]@ == bits_set(w));
            assert forall|t: int| 0 <= t < 64 implies bit(occs@[j].0, t) == bit(w, t) by {
                assert(bits_set(occs@[j].0).contains(t) == bits_set(w).contains(t));
            }
            crate::bitboard::lemma_bits_ext(occs@[j].0, w);
        }
    }
    (m, true, offset + perms)
}

/// Per-square attack tables: the leaping pieces' attack sets, and the
/// bishops' and rooks' magic entries into one shared table of attack sets.
pub struct AttackTables {
    knight: Vec<Bitboard>,
    king: Vec<Bitboard>,
    white_pawn: Vec<Bitboard>,
    black_pawn: Vec<Bitboard>,
    bishop_magics: Vec<Magic>,
    rook_magics: Vec<Magic>,
    bishop_found: Vec<bool>,
    rook_found: Vec<bool>,
    table: Vec<Bitboard>,
}

impl AttackTables {
    /// The tables hold the attack sets they stand for.
    pub closed spec fn wf(self) -> bool {
        &&& self.knight@.len() == 64
        &&& self.king@.len() == 64
        &&& self.white_pawn@.len() == 64
        &&& self.black_pawn@.len() == 64
        &&& forall|s: int| 0 <= s < 64 ==> (#[trigger] self.knight@[s])@ == knight_set(s)
        &&& forall|s: int| 0 <= s < 64 ==> (#[trigger] self.king@[s])@ == king_set(s)
        &&& forall|s: int| 0 <= s < 64 ==> (#[trigger] self.white_pawn@[s])@ == pawn_set(Color::White, s)
        &&& forall|s: int| 0 <= s < 64 ==> (#[trigger] self.black_pawn@[s])@ == pawn_set(Color::Black, s)
        &&& self.bishop_magics@.len() == 64
        &&& self.rook_magics@.len() == 64
        &&& self.bishop_found@.len() == 64
        &&& self.rook_found@.len() == 64
        &&& forall|s: int|
            0 <= s < 64 && #[trigger] self.bishop_found@[s] ==> block_ok(self.bishop_magics@[s], self.table@, true, s)
        &&& forall|s: int|
            0 <= s < 64 && #[trigger] self.rook_found@[s] ==> block_ok(self.rook_magics@[s], self.table@, false, s)
    }

    /// Squares a knight on `sq` attacks, from the table.
    pub fn knight_attacks(&self, sq: Square) -> (b: Bitboard)
        requires
            self.wf(),
            sq.0 < 64,
        ensures
            b@ == knight_set(sq.0 as int),
    {
        self.knight[sq.0 as usize]
    }

    /// Squares a king on `sq` attacks, from the table.
    pub fn king_attacks(&self, sq: Square) -> (b: Bitboard)
        requires
            self.wf(),
            sq.0 < 64,
        ensures
            b@ == king_set(sq.0 as int),
    {
        self.king[sq.0 as usize]
    }

    /// Squares a pawn of `color` on `sq` attacks, from the table.
    pub fn pawn_attacks(&self, color: Color, sq: Square) -> (b: Bitboard)
        requires
            self.wf(),
            sq.0 < 64,
        ensures
            b@ == pawn_set(color, sq.0 as int),
    {
        match color {
            Color::White => self.white_pawn[sq.0 as usize],
            Color::Black => self.black_pawn[sq.0 as usize],
        }
    }

    /// A slider's attacks by magic lookup: the occupancy within the mask,
    /// multiplied by the magic number, picks the slot.
    fn slider_lookup(&self, bishop: bool, sq: Square, occupancy: Bitboard) -> (b: Bitboard)
        requires
            self.wf(),
            sq.0 < 64,
        ensures
            b@ == slider_set(bishop, sq.0 as int, occupancy@),
    {
        let s = sq.0 as usize;
        let (m, found) = if bishop {
            (self.bishop_magics[s], self.bishop_found[s])
        } else {
            (self.rook_magics[s], self.rook_found[s])
        };
        if !found {
            return slider_attacks(bishop, sq, occupancy);
        }
        let occ = occupancy.0 & m.mask.0;
        proof {
            crate::bitboard::lemma_and_view(occupancy.0, m.mask.0);
            assert(bits_set(occ).subset_of(m.mask@));
            assert(m.offset + magic_index(occ, m.magic, m.shift) < self.table@.len());
            if bishop {
                lemma_bishop_relevant(sq.0 as int, occupancy@);
            } else {
                lemma_rook_relevant(sq.0 as int, occupancy@);
            }
            assert(bits_set(occ) == occupancy@.intersect(mask_set(bishop, sq.0 as int)));
        }
        proof {
            lemma_magic_index_bound(occ.wrapping_mul(m.magic), (64 - m.shift) as u64);
        }
        let idx = (occ.wrapping_mul(m.magic) >> m.shift) as usize;
        let len = self.table.len();
        proof {
            assert(idx as int == magic_index(occ, m.magic, m.shift));
            assert(m.offset + idx < len);
        }
        self.table[m.offset + idx]
    }

    /// Squares a bishop on `sq` attacks with `occupancy`, by magic lookup.
    pub fn bishop_attacks(&self, sq: Square, occupancy: Bitboard) -> (b: Bitboard)
        requires
            self.wf(),
            sq.0 < 64,
        ensures
            b@ == bishop_set(sq.0 as int, occupancy@),
    {
        self.slider_lookup(true, sq, occupancy)
    }

    /// Squares a rook on `sq` attacks with `occupancy`, by magic lookup.
    pub fn rook_attacks(&self, sq: Square, occupancy: Bitboard) -> (b: Bitboard)
        requires
            self.wf(),
            sq.0 < 64,
        ensures
            b@ == rook_set(sq.0 as int, occupancy@),
    {
        self.slider_lookup(false, sq, occupancy)
    }

    /// Squares a queen on `sq` attacks with `occupancy`, by magic lookup.
    pub fn queen_attacks(&self, sq: Square, occupancy: Bitboard) -> (b: Bitboard)
        requires
            self.wf(),
            sq.0 < 64,
        ensures
            b@ == queen_set(sq.0 as int, occupancy@),
    {
        union_of(self.bishop_attacks(sq, occupancy), self.rook_attacks(sq, occupancy))
    }
}

/// The blocks of all 64 squares of one slider, appended to `table`.
fn build_slider(prng: &mut Prng, table: &mut Vec<Bitboard>, offset: usize, bishop: bool) -> (r: (
    Vec<Magic>,
    Vec<bool>,
    usize,
))
    requires
        old(table)@.len() <= offset <= 500_000,
    ensures
        r.0@.len() == 64,
        r.1@.len() == 64,
        old(table)@.len() <= final(table)@.len() <= r.2,
        r.2 <= offset + 64 * 4096,
        forall|i: int| 0 <= i < old(table)@.len() ==> final(table)@[i] == old(table)@[i],
        forall|s: int| 0 <= s < 64 && #[trigger] r.1@[s] ==> block_ok(r.0@[s], final(table)@, bishop, s),
{
    let mut magics: Vec<Magic> = Vec::new();
    let mut found: Vec<bool> = Vec::new();
    let mut next = offset;
    let ghost start = table@;
    let mut sq: u8 = 0;
    while sq < 64
        invariant
            sq <= 64,
            magics@.len() == sq,
            found@.len() == sq,
            offset <= 500_000,
            start.len() <= offset,
            offset <= next <= offset + sq * 4096,
            start.len() <= table@.len() <= next,
            forall|i: int| 0 <= i < start.len() ==> table@[i] == start[i],
            forall|s: int| 0 <= s < sq && #[trigger] found@[s] ==> block_ok(magics@[s], table@, bishop, s),
        decreases 64 - sq,
    {
        let ghost before = table@;
        let (m, ok, after) = build_block(prng, table, next, Square(sq), bishop);
        proof {
            assert forall|s: int| 0 <= s < sq && #[trigger] found@[s] implies block_ok(magics@[s], table@, bishop, s) by {
                lemma_block_kept(magics@[s], before, table@, bishop, s);
            }
        }
        magics.push(m);
        found.push(ok);
        next = after;
        sq = sq + 1;
    }
    (magics, found, next)
}

/// Builds the attack tables: the knight, king and pawn tables, and the
/// bishop and rook magic entries with the shared table of attack sets
/// (the magic numbers are searched for from a fixed seed).
pub fn init() -> (t: AttackTables)
    ensures
        t.wf(),
{
    let mut knight: Vec<Bitboard> = Vec::new();
    let mut king: Vec<Bitboard> = Vec::new();
    let mut white_pawn: Vec<Bitboard> = Vec::new();
    let mut black_pawn: Vec<Bitboard> = Vec::new();
    let mut sq: u8 = 0;
    while sq < 64
        invariant
            sq <= 64,
            knight@.len() == sq,
            king@.len() == sq,
            white_pawn@.len() == sq,
            black_pawn@.len() == sq,
            forall|s: int| 0 <= s < sq ==> (#[trigger] knight@[s])@ == knight_set(s),
            forall|s: int| 0 <= s < sq ==> (#[trigger] king@[s])@ == king_set(s),
            forall|s: int| 0 <= s < sq ==> (#[trigger] white_pawn@[s])@ == pawn_set(Color::White, s),
            forall|s: int| 0 <= s < sq ==> (#[trigger] black_pawn@[s])@ == pawn_set(Color::Black, s),
        decreases 64 - sq,
    {
        knight.push(knight_attacks(Square(sq)));
        king.push(king_attacks(Square(sq)));
        white_pawn.push(pawn_attacks(Color::White, Square(sq)));
        black_pawn.push(pawn_attacks(Color::Black, Square(sq)));
        sq = sq + 1;
    }
    let mut prng = Prng(123456789);
    let mut table: Vec<Bitboard> = Vec::new();
    let (bishop_magics, bishop_found, next) = build_slider(&mut prng, &mut table, 0, true);
    let ghost bishop_table = table@;
    let (rook_magics, rook_found, _end) = build_slider(&mut prng, &mut table, next, false);
    proof {
        assert forall|s: int| 0 <= s < 64 && #[trigger] bishop_found@[s] implies block_ok(bishop_magics@[s], table@, true, s) by {
            lemma_block_kept(bishop_magics@[s], bishop_table, table@, true, s);
        }
    }
    AttackTables {
        knight,
        king,
        white_pawn,
        black_pawn,
        bishop_magics,
        rook_magics,
        bishop_found,
        rook_found,
        table,
    }
}

} // verus!
