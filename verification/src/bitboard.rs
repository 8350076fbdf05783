use vstd::prelude::*;
use vstd::std_specs::bits::{u64_trailing_zeros, axiom_u64_trailing_zeros};
use std::ops::{BitAnd, BitAndAssign, BitOr, BitOrAssign, BitXor, BitXorAssign, Not, Shl, Shr};

use crate::types::Square;

verus! {

/// Whether bit `s` (0..63) of `b` is set.
pub open spec fn bit(b: u64, s: int) -> bool {
    0 <= s < 64 && (b >> (s as u64)) & 1u64 == 1u64
}

/// Number of set bits of `x`.
pub open spec fn popcount(x: u64) -> nat
    decreases x,
{
    if x == 0 {
        0
    } else {
        (x % 2) as nat + popcount(x / 2)
    }
}

/// A word has at most 64 set bits.
pub proof fn lemma_popcount_le_64(x: u64)
    ensures
        popcount(x) <= 64,
{
    vstd::arithmetic::power2::lemma2_to64();
    lemma_popcount_bound(x, 64);
}

proof fn lemma_popcount_bound(x: u64, k: nat)
    requires
        k <= 64,
        x < vstd::arithmetic::power2::pow2(k),
    ensures
        popcount(x) <= k,
    decreases k,
{
    if x != 0 {
        if k == 0 {
            vstd::arithmetic::power2::lemma2_to64();
        } else {
            vstd::arithmetic::power2::lemma_pow2_unfold(k);
            lemma_popcount_bound(x / 2, (k - 1) as nat);
        }
    }
}

// ---------------------------------------------------------------------------
// Bit-level facts
// ---------------------------------------------------------------------------

pub proof fn lemma_bit_or(a: u64, b: u64, s: u64)
    requires
        s < 64,
    ensures
        ((a | b) >> s) & 1u64 == 1u64 <==> ((a >> s) & 1u64 == 1u64 || (b >> s) & 1u64 == 1u64),
{
    assert(((a | b) >> s) & 1u64 == 1u64 <==> ((a >> s) & 1u64 == 1u64 || (b >> s) & 1u64
        == 1u64)) by (bit_vector);
}

pub proof fn lemma_bit_and(a: u64, b: u64, s: u64)
    requires
        s < 64,
    ensures
        ((a & b) >> s) & 1u64 == 1u64 <==> ((a >> s) & 1u64 == 1u64 && (b >> s) & 1u64 == 1u64),
{
    assert(((a & b) >> s) & 1u64 == 1u64 <==> ((a >> s) & 1u64 == 1u64 && (b >> s) & 1u64
        == 1u64)) by (bit_vector);
}

pub proof fn lemma_bit_xor(a: u64, b: u64, s: u64)
    requires
        s < 64,
    ensures
        ((a ^ b) >> s) & 1u64 == 1u64 <==> (((a >> s) & 1u64 == 1u64) != ((b >> s) & 1u64
            == 1u64)),
{
    assert(((a ^ b) >> s) & 1u64 == 1u64 <==> (((a >> s) & 1u64 == 1u64) != ((b >> s) & 1u64
        == 1u64))) by (bit_vector);
}

pub proof fn lemma_bit_not(a: u64, s: u64)
    requires
        s < 64,
    ensures
        ((!a) >> s) & 1u64 == 1u64 <==> !((a >> s) & 1u64 == 1u64),
{
    assert(((!a) >> s) & 1u64 == 1u64 <==> !((a >> s) & 1u64 == 1u64)) by (bit_vector)
        requires
            s < 64,
    ;
}

pub proof fn lemma_bit_single(t: u64, s: u64)
    requires
        t < 64,
        s < 64,
    ensures
        ((1u64 << t) >> s) & 1u64 == 1u64 <==> s == t,
{
    assert(((1u64 << t) >> s) & 1u64 == 1u64 <==> s == t) by (bit_vector)
        requires
            t < 64,
            s < 64,
    ;
}

pub proof fn lemma_bit_zero(s: u64)
    ensures
        !((0u64 >> s) & 1u64 == 1u64),
{
    assert(!((0u64 >> s) & 1u64 == 1u64)) by (bit_vector);
}

pub proof fn lemma_bit_full(s: u64)
    requires
        s < 64,
    ensures
        ((!0u64) >> s) & 1u64 == 1u64,
{
    assert(((!0u64) >> s) & 1u64 == 1u64) by (bit_vector)
        requires
            s < 64,
    ;
}

/// Clearing the lowest set bit with `x & (x - 1)`.
proof fn lemma_clear_lowest(x: u64, t: u64, s: u64)
    requires
        t < 64,
        s < 64,
        x != 0,
        (x >> t) & 1u64 == 1u64,
        t == 0 || x << ((64 - t) as u64) == 0,
    ensures
        ((x & ((x - 1) as u64)) >> s) & 1u64 == 1u64 <==> (s != t && (x >> s) & 1u64 == 1u64),
{
    assert(((x & ((x - 1) as u64)) >> s) & 1u64 == 1u64 <==> (s != t && (x >> s) & 1u64 == 1u64))
        by (bit_vector)
        requires
            t < 64,
            s < 64,
            x != 0,
            (x >> t) & 1u64 == 1u64,
            t == 0 || x << ((64 - t) as u64) == 0,
    ;
}

/// Clearing the lowest set bit of a non-zero word: the lowest bit is its
/// trailing-zero count, and the word loses exactly that bit and gets smaller.
pub proof fn lemma_clear_low(m: u64)
    requires
        m != 0,
    ensures
        u64_trailing_zeros(m) < 64,
        bits_set(m).contains(u64_trailing_zeros(m) as int),
        bits_set(m & ((m - 1) as u64)) == bits_set(m).remove(u64_trailing_zeros(m) as int),
        m & ((m - 1) as u64) < m,
{
    axiom_u64_trailing_zeros(m);
    let t = u64_trailing_zeros(m) as u64;
    assert forall|s: int| 0 <= s < 64 implies bit(m & ((m - 1) as u64), s) == (s != t && bit(m, s)) by {
        lemma_clear_lowest(m, t, s as u64);
    }
    assert(bits_set(m & ((m - 1) as u64)) =~= bits_set(m).remove(t as int));
    assert(m & ((m - 1) as u64) < m) by (bit_vector)
        requires
            m != 0,
    ;
}

proof fn lemma_xor_self_zero(a: u64, b: u64)
    ensures
        (a ^ b == 0) <==> a == b,
{
    assert((a ^ b == 0) <==> a == b) by (bit_vector);
}

/// A non-zero word has a set bit: the lowest one.
pub proof fn lemma_nonzero_has_bit(x: u64)
    requires
        x != 0,
    ensures
        u64_trailing_zeros(x) < 64,
        bit(x, u64_trailing_zeros(x) as int),
        forall|j: int| 0 <= j < u64_trailing_zeros(x) ==> !bit(x, j),
{
    axiom_u64_trailing_zeros(x);
    assert forall|j: int| 0 <= j < u64_trailing_zeros(x) implies !bit(x, j) by {
        assert((x >> (j as u64)) & 1u64 == 0u64);
    }
}

/// Words with the same bits are equal.
pub proof fn lemma_bits_ext(a: u64, b: u64)
    requires
        forall|s: int| 0 <= s < 64 ==> bit(a, s) == bit(b, s),
    ensures
        a == b,
{
    let c = a ^ b;
    if c != 0 {
        lemma_nonzero_has_bit(c);
        let t = u64_trailing_zeros(c) as u64;
        lemma_bit_xor(a, b, t);
        assert(bit(a, t as int) == bit(b, t as int));
    }
    lemma_xor_self_zero(a, b);
}

pub proof fn lemma_zero_no_bits(s: int)
    ensures
        !bit(0u64, s),
{
    if 0 <= s < 64 {
        lemma_bit_zero(s as u64);
    }
}

/// The set of squares whose bit is set in `x`.
pub open spec fn bits_set(x: u64) -> Set<int> {
    Set::new(|s: int| bit(x, s))
}

/// A 64-bit board mask. Bit N corresponds to Square(N) in LERF layout.
#[derive(Copy, Clone, Debug, PartialEq, Eq, Structural)]
pub struct Bitboard(pub u64);

impl View for Bitboard {
    type V = Set<int>;

    open spec fn view(&self) -> Set<int> {
        bits_set(self.0)
    }
}

impl Bitboard {
    pub fn file_a() -> (b: Bitboard)
        ensures
            b.0 == 0x0101010101010101,
    {
        Bitboard(0x0101010101010101)
    }

    pub fn file_b() -> (b: Bitboard)
        ensures
            b.0 == 0x0202020202020202,
    {
        Bitboard(0x0202020202020202)
    }

    pub fn file_c() -> (b: Bitboard)
        ensures
            b.0 == 0x0404040404040404,
    {
        Bitboard(0x0404040404040404)
    }

    pub fn file_d() -> (b: Bitboard)
        ensures
            b.0 == 0x0808080808080808,
    {
        Bitboard(0x0808080808080808)
    }

    pub fn file_e() -> (b: Bitboard)
        ensures
            b.0 == 0x1010101010101010,
    {
        Bitboard(0x1010101010101010)
    }

    pub fn file_f() -> (b: Bitboard)
        ensures
            b.0 == 0x2020202020202020,
    {
        Bitboard(0x2020202020202020)
    }

    pub fn file_g() -> (b: Bitboard)
        ensures
            b.0 == 0x4040404040404040,
    {
        Bitboard(0x4040404040404040)
    }

    pub fn file_h() -> (b: Bitboard)
        ensures
            b.0 == 0x8080808080808080,
    {
        Bitboard(0x8080808080808080)
    }

    pub fn rank_1() -> (b: Bitboard)
        ensures
            b.0 == 0x00000000000000FF,
    {
        Bitboard(0x00000000000000FF)
    }

    pub fn rank_2() -> (b: Bitboard)
        ensures
            b.0 == 0x000000000000FF00,
    {
        Bitboard(0x000000000000FF00)
    }

    pub fn rank_3() -> (b: Bitboard)
        ensures
            b.0 == 0x0000000000FF0000,
    {
        Bitboard(0x0000000000FF0000)
    }

    pub fn rank_4() -> (b: Bitboard)
        ensures
            b.0 == 0x00000000FF000000,
    {
        Bitboard(0x00000000FF000000)
    }

    pub fn rank_5() -> (b: Bitboard)
        ensures
            b.0 == 0x000000FF00000000,
    {
        Bitboard(0x000000FF00000000)
    }

    pub fn rank_6() -> (b: Bitboard)
        ensures
            b.0 == 0x0000FF0000000000,
    {
        Bitboard(0x0000FF0000000000)
    }

    pub fn rank_7() -> (b: Bitboard)
        ensures
            b.0 == 0x00FF000000000000,
    {
        Bitboard(0x00FF000000000000)
    }

    pub fn rank_8() -> (b: Bitboard)
        ensures
            b.0 == 0xFF00000000000000,
    {
        Bitboard(0xFF00000000000000)
    }

    pub fn empty() -> (b: Bitboard)
        ensures
            b.0 == 0,
            b@ == Set::<int>::empty(),
    {
        proof {
            assert forall|s: int| !bits_set(0u64).contains(s) by {
                lemma_zero_no_bits(s);
            }
            assert(bits_set(0u64) =~= Set::<int>::empty());
        }
        Bitboard(0)
    }

    pub fn full() -> (b: Bitboard)
        ensures
            b.0 == 0xFFFF_FFFF_FFFF_FFFF,
            b@ == Set::new(|s: int| 0 <= s < 64),
    {
        let b = Bitboard(!0u64);
        proof {
            assert forall|s: int| 0 <= s < 64 implies bit(!0u64, s) by {
                lemma_bit_full(s as u64);
            }
            assert(b@ =~= Set::new(|s: int| 0 <= s < 64));
            assert(!0u64 == 0xFFFF_FFFF_FFFF_FFFFu64) by (bit_vector);
        }
        b
    }

    pub fn from_square(sq: Square) -> (b: Bitboard)
        requires
            sq.0 < 64,
        ensures
            b.0 == 1u64 << sq.0,
            b@ == set![sq.0 as int],
    {
        let b = Bitboard(1u64 << sq.0);
        proof {
            lemma_single_view(sq.0 as u64);
        }
        b
    }

    pub fn is_set(self, sq: Square) -> (r: bool)
        requires
            sq.0 < 64,
        ensures
            r == self@.contains(sq.0 as int),
            r == bit(self.0, sq.0 as int),
    {
        proof {
            lemma_bit_and(self.0, 1u64 << sq.0, sq.0 as u64);
            lemma_bit_single(sq.0 as u64, sq.0 as u64);
            lemma_and_single_nonzero(self.0, sq.0 as u64);
        }
        self.0 & (1u64 << sq.0) != 0
    }

    pub fn set(&mut self, sq: Square)
        requires
            sq.0 < 64,
        ensures
            final(self).0 == old(self).0 | (1u64 << sq.0),
            final(self)@ == old(self)@.insert(sq.0 as int),
    {
        proof {
            lemma_set_view(self.0, sq.0 as u64);
        }
        self.0 = self.0 | (1u64 << sq.0);
    }

    pub fn clear(&mut self, sq: Square)
        requires
            sq.0 < 64,
        ensures
            final(self).0 == old(self).0 & !(1u64 << sq.0),
            final(self)@ == old(self)@.remove(sq.0 as int),
    {
        proof {
            lemma_clear_view(self.0, sq.0 as u64);
        }
        self.0 = self.0 & !(1u64 << sq.0);
    }

    pub fn count(self) -> (n: u32)
        ensures
            n == popcount(self.0),
    {
        u64_count_ones(self.0)
    }

    pub fn is_empty(self) -> (r: bool)
        ensures
            r == (self.0 == 0),
            r == (self@ == Set::<int>::empty()),
    {
        proof {
            lemma_empty_view(self.0);
        }
        self.0 == 0
    }

    pub fn lsb(self) -> (sq: Square)
        ensures
            sq.0 == u64_trailing_zeros(self.0),
            self.0 != 0 ==> sq.0 < 64 && self@.contains(sq.0 as int),
            self.0 != 0 ==> forall|j: int| 0 <= j < sq.0 ==> !self@.contains(j),
            self.0 == 0 ==> sq.0 == 64,
    {
        proof {
            axiom_u64_trailing_zeros(self.0);
            if self.0 != 0 {
                lemma_nonzero_has_bit(self.0);
            }
        }
        Square(self.0.trailing_zeros() as u8)
    }

    pub fn pop_lsb(&mut self) -> (sq: Square)
        requires
            old(self).0 != 0,
        ensures
            sq.0 == u64_trailing_zeros(old(self).0),
            sq.0 < 64,
            old(self)@.contains(sq.0 as int),
            forall|j: int| 0 <= j < sq.0 ==> !old(self)@.contains(j),
            final(self)@ == old(self)@.remove(sq.0 as int),
            final(self).0 == old(self).0 & ((old(self).0 - 1) as u64),
    {
        let sq = self.lsb();
        proof {
            let x = self.0;
            let t = sq.0 as u64;
            axiom_u64_trailing_zeros(x);
            assert forall|s: int| 0 <= s < 64 implies bit(x & ((x - 1) as u64), s) == (s != t && bit(
                x,
                s,
            )) by {
                lemma_clear_lowest(x, t, s as u64);
            }
            assert(bits_set(x & ((x - 1) as u64)) =~= bits_set(x).remove(t as int));
        }
        self.0 = self.0 & (self.0 - 1);
        sq
    }

    /// The squares of the set bits, lowest first (what iterating a bitboard
    /// yields).
    pub fn squares(self) -> (v: Vec<Square>)
        ensures
            forall|i: int, j: int| 0 <= i < j < v@.len() ==> v@[i].0 < v@[j].0,
            forall|i: int| 0 <= i < v@.len() ==> self@.contains(v@[i].0 as int),
            forall|s: int| self@.contains(s) ==> exists|i: int|
                0 <= i < v@.len() && v@[i].0 == s,
    {
        let mut bb = self;
        let mut v: Vec<Square> = Vec::new();
        while !bb.is_empty()
            invariant
                bb@.subset_of(self@),
                forall|i: int, j: int| 0 <= i < j < v@.len() ==> v@[i].0 < v@[j].0,
                forall|i: int| 0 <= i < v@.len() ==> self@.contains(v@[i].0 as int),
                forall|i: int, s: int|
                    0 <= i < v@.len() && bb@.contains(s) ==> v@[i].0 < s,
                forall|s: int| self@.contains(s) ==> bb@.contains(s) || exists|i: int|
                    0 <= i < v@.len() && v@[i].0 == s,
            decreases popcount_bound(bb),
        {
            let ghost old_bb = bb;
            let sq = bb.pop_lsb();
            proof {
                lemma_remove_decreases(old_bb, sq.0 as int);
                assert forall|s: int| bb@.contains(s) implies sq.0 < s by {
                    assert(old_bb@.contains(s));
                    assert(s != sq.0);
                    if s < sq.0 {
                        assert(!old_bb@.contains(s));
                    }
                }
            }
            let ghost old_v = v@;
            v.push(sq);
            proof {
                assert forall|s: int| self@.contains(s) implies bb@.contains(s) || exists|i: int|
                    0 <= i < v@.len() && v@[i].0 == s by {
                    if !bb@.contains(s) {
                        if s == sq.0 {
                            assert(v@[v@.len() - 1].0 == s);
                        } else {
                            assert(!old_bb@.contains(s));
                            let i = choose|i: int| 0 <= i < old_v.len() && old_v[i].0 == s;
                            assert(v@[i].0 == s);
                        }
                    }
                }
            }
        }
        proof {
            assert forall|s: int| self@.contains(s) implies exists|i: int|
                0 <= i < v@.len() && v@[i].0 == s by {
                assert(!bb@.contains(s));
            }
        }
        v
    }
}

/// A measure that strictly drops when a square is removed from a bitboard.
pub open spec fn popcount_bound(b: Bitboard) -> nat {
    b@.len()
}

pub proof fn lemma_bits_set_finite(x: u64)
    ensures
        bits_set(x).finite(),
{
    assert(bits_set(x).subset_of(Set::new(|s: int| 0 <= s < 64)));
    vstd::set_lib::lemma_int_range(0, 64);
    assert(Set::new(|s: int| 0 <= s < 64) =~= vstd::set_lib::set_int_range(0, 64));
    vstd::set_lib::lemma_len_subset(bits_set(x), vstd::set_lib::set_int_range(0, 64));
}

pub proof fn lemma_remove_decreases(b: Bitboard, s: int)
    requires
        b@.contains(s),
    ensures
        b@.remove(s).len() < b@.len(),
        b@.remove(s).finite(),
{
    lemma_bits_set_finite(b.0);
}

proof fn lemma_single_view(t: u64)
    requires
        t < 64,
    ensures
        bits_set(1u64 << t) == set![t as int],
{
    assert forall|s: int| bits_set(1u64 << t).contains(s) <==> s == t as int by {
        if 0 <= s < 64 {
            lemma_bit_single(t, s as u64);
        }
    }
    assert(bits_set(1u64 << t) =~= set![t as int]);
}

proof fn lemma_and_single_nonzero(x: u64, t: u64)
    requires
        t < 64,
    ensures
        (x & (1u64 << t) != 0) <==> (x >> t) & 1u64 == 1u64,
{
    assert((x & (1u64 << t) != 0) <==> (x >> t) & 1u64 == 1u64) by (bit_vector)
        requires
            t < 64,
    ;
}

proof fn lemma_set_view(x: u64, t: u64)
    requires
        t < 64,
    ensures
        bits_set(x | (1u64 << t)) == bits_set(x).insert(t as int),
{
    assert forall|s: int| bits_set(x | (1u64 << t)).contains(s) <==> bits_set(x).insert(
        t as int,
    ).contains(s) by {
        if 0 <= s < 64 {
            lemma_bit_or(x, 1u64 << t, s as u64);
            lemma_bit_single(t, s as u64);
        }
    }
    assert(bits_set(x | (1u64 << t)) =~= bits_set(x).insert(t as int));
}

proof fn lemma_clear_view(x: u64, t: u64)
    requires
        t < 64,
    ensures
        bits_set(x & !(1u64 << t)) == bits_set(x).remove(t as int),
{
    assert forall|s: int| bits_set(x & !(1u64 << t)).contains(s) <==> bits_set(x).remove(
        t as int,
    ).contains(s) by {
        if 0 <= s < 64 {
            lemma_bit_and(x, !(1u64 << t), s as u64);
            lemma_bit_not(1u64 << t, s as u64);
            lemma_bit_single(t, s as u64);
        }
    }
    assert(bits_set(x & !(1u64 << t)) =~= bits_set(x).remove(t as int));
}

pub proof fn lemma_empty_view(x: u64)
    ensures
        (x == 0) == (bits_set(x) == Set::<int>::empty()),
{
    if x == 0 {
        assert forall|s: int| !bits_set(x).contains(s) by {
            lemma_zero_no_bits(s);
        }
        assert(bits_set(x) =~= Set::<int>::empty());
    } else {
        lemma_nonzero_has_bit(x);
        assert(bits_set(x).contains(u64_trailing_zeros(x) as int));
    }
}

pub proof fn lemma_and_view(a: u64, b: u64)
    ensures
        bits_set(a & b) == bits_set(a).intersect(bits_set(b)),
{
    assert forall|s: int| bits_set(a & b).contains(s) <==> bits_set(a).intersect(
        bits_set(b),
    ).contains(s) by {
        if 0 <= s < 64 {
            lemma_bit_and(a, b, s as u64);
        }
    }
    assert(bits_set(a & b) =~= bits_set(a).intersect(bits_set(b)));
}

pub proof fn lemma_or_view(a: u64, b: u64)
    ensures
        bits_set(a | b) == bits_set(a).union(bits_set(b)),
{
    assert forall|s: int| bits_set(a | b).contains(s) <==> bits_set(a).union(
        bits_set(b),
    ).contains(s) by {
        if 0 <= s < 64 {
            lemma_bit_or(a, b, s as u64);
        }
    }
    assert(bits_set(a | b) =~= bits_set(a).union(bits_set(b)));
}

pub proof fn lemma_not_view(a: u64)
    ensures
        bits_set(!a) == Set::new(|s: int| 0 <= s < 64 && !bits_set(a).contains(s)),
{
    assert forall|s: int| bits_set(!a).contains(s) <==> (0 <= s < 64 && !bits_set(a).contains(
        s,
    )) by {
        if 0 <= s < 64 {
            lemma_bit_not(a, s as u64);
        }
    }
    assert(bits_set(!a) =~= Set::new(|s: int| 0 <= s < 64 && !bits_set(a).contains(s)));
}

/// Number of set bits (std `u64::count_ones`).
#[verifier::external_body]
fn u64_count_ones(x: u64) -> (n: u32)
    ensures
        n == popcount(x),
{
    x.count_ones()
}

impl BitAnd for Bitboard {
    type Output = Bitboard;

    fn bitand(self, rhs: Bitboard) -> (r: Bitboard)
        ensures
            r.0 == self.0 & rhs.0,
    {
        Bitboard(self.0 & rhs.0)
    }
}

impl vstd::std_specs::ops::BitAndSpecImpl for Bitboard {
    open spec fn obeys_bitand_spec() -> bool {
        true
    }

    open spec fn bitand_req(self, rhs: Bitboard) -> bool {
        true
    }

    open spec fn bitand_spec(self, rhs: Bitboard) -> Bitboard {
        Bitboard(self.0 & rhs.0)
    }
}

impl BitAndAssign for Bitboard {
    fn bitand_assign(&mut self, rhs: Bitboard)
        ensures
            final(self).0 == old(self).0 & rhs.0,
    {
        self.0 = self.0 & rhs.0;
    }
}

impl BitOr for Bitboard {
    type Output = Bitboard;

    fn bitor(self, rhs: Bitboard) -> (r: Bitboard)
        ensures
            r.0 == self.0 | rhs.0,
    {
        Bitboard(self.0 | rhs.0)
    }
}

impl vstd::std_specs::ops::BitOrSpecImpl for Bitboard {
    open spec fn obeys_bitor_spec() -> bool {
        true
    }

    open spec fn bitor_req(self, rhs: Bitboard) -> bool {
        true
    }

    open spec fn bitor_spec(self, rhs: Bitboard) -> Bitboard {
        Bitboard(self.0 | rhs.0)
    }
}

impl BitOrAssign for Bitboard {
    fn bitor_assign(&mut self, rhs: Bitboard)
        ensures
            final(self).0 == old(self).0 | rhs.0,
    {
        self.0 = self.0 | rhs.0;
    }
}

impl BitXor for Bitboard {
    type Output = Bitboard;

    fn bitxor(self, rhs: Bitboard) -> (r: Bitboard)
        ensures
            r.0 == self.0 ^ rhs.0,
    {
        Bitboard(self.0 ^ rhs.0)
    }
}

impl vstd::std_specs::ops::BitXorSpecImpl for Bitboard {
    open spec fn obeys_bitxor_spec() -> bool {
        true
    }

    open spec fn bitxor_req(self, rhs: Bitboard) -> bool {
        true
    }

    open spec fn bitxor_spec(self, rhs: Bitboard) -> Bitboard {
        Bitboard(self.0 ^ rhs.0)
    }
}

impl BitXorAssign for Bitboard {
    fn bitxor_assign(&mut self, rhs: Bitboard)
        ensures
            final(self).0 == old(self).0 ^ rhs.0,
    {
        self.0 = self.0 ^ rhs.0;
    }
}

impl Not for Bitboard {
    type Output = Bitboard;

    fn not(self) -> (r: Bitboard)
        ensures
            r.0 == !self.0,
    {
        Bitboard(!self.0)
    }
}

impl vstd::std_specs::ops::NotSpecImpl for Bitboard {
    open spec fn obeys_not_spec() -> bool {
        true
    }

    open spec fn not_req(self) -> bool {
        true
    }

    open spec fn not_spec(self) -> Bitboard {
        Bitboard(!self.0)
    }
}

impl Shl<u32> for Bitboard {
    type Output = Bitboard;

    fn shl(self, rhs: u32) -> (r: Bitboard)
        ensures
            r.0 == self.0 << rhs,
    {
        Bitboard(self.0 << rhs)
    }
}

impl vstd::std_specs::ops::ShlSpecImpl<u32> for Bitboard {
    open spec fn obeys_shl_spec() -> bool {
        true
    }

    open spec fn shl_req(self, rhs: u32) -> bool {
        rhs < 64
    }

    open spec fn shl_spec(self, rhs: u32) -> Bitboard {
        Bitboard(self.0 << rhs)
    }
}

impl Shr<u32> for Bitboard {
    type Output = Bitboard;

    fn shr(self, rhs: u32) -> (r: Bitboard)
        ensures
            r.0 == self.0 >> rhs,
    {
        Bitboard(self.0 >> rhs)
    }
}

impl vstd::std_specs::ops::ShrSpecImpl<u32> for Bitboard {
    open spec fn obeys_shr_spec() -> bool {
        true
    }

    open spec fn shr_req(self, rhs: u32) -> bool {
        rhs < 64
    }

    open spec fn shr_spec(self, rhs: u32) -> Bitboard {
        Bitboard(self.0 >> rhs)
    }
}

} // verus!
