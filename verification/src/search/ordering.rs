//! Move ordering: PV move, captures by MVV-LVA, promotions, killer moves,
//! then history scores.

use vstd::prelude::*;

use crate::board::Position;
use crate::movegen::MoveList;
use crate::types::{Move, Piece, promo_piece_of};

verus! {

/// Piece values for MVV-LVA (P, N, B, R, Q, K).
pub const PIECE_VALUES: [i32; 6] = [100, 320, 330, 500, 900, 20000];

/// Plies the killer table covers.
pub const MAX_PLY: usize = 256;

/// Two killer moves per ply.
pub struct KillerTable {
    moves: Vec<[Move; 2]>,
}

impl KillerTable {
    #[verifier::type_invariant]
    spec fn well_formed(self) -> bool {
        self.moves@.len() == MAX_PLY
    }

    /// The killer moves of each ply.
    pub closed spec fn view_killers(self) -> Seq<[Move; 2]> {
        self.moves@
    }

    pub fn new() -> (k: KillerTable)
        ensures
            k.view_killers().len() == MAX_PLY,
            forall|i: int| 0 <= i < MAX_PLY ==> #[trigger] k.view_killers()[i] == [Move(0), Move(0)],
    {
        KillerTable { moves: vec![[Move(0), Move(0)]; MAX_PLY] }
    }

    /// The killers of `ply`.
    pub fn at(&self, ply: usize) -> (k: [Move; 2])
        requires
            ply < MAX_PLY,
        ensures
            k == self.view_killers()[ply as int],
            self.view_killers().len() == MAX_PLY,
    {
        proof {
            use_type_invariant(self);
        }
        self.moves[ply]
    }

    /// Records `mv` as the first killer of `ply`, the old first becoming the
    /// second, unless it already is the first.
    pub fn store(&mut self, ply: usize, mv: Move)
        requires
            ply < MAX_PLY,
        ensures
            old(self).view_killers().len() == MAX_PLY,
            final(self).view_killers().len() == MAX_PLY,
            final(self).view_killers() == old(self).view_killers().update(
                ply as int,
                if old(self).view_killers()[ply as int][0] == mv {
                    old(self).view_killers()[ply as int]
                } else {
                    [mv, old(self).view_killers()[ply as int][0]]
                },
            ),
    {
        proof {
            use_type_invariant(&*self);
        }
        let cur = self.moves[ply];
        if cur[0] != mv {
            let mut tmp = KillerTable::new();
            std::mem::swap(&mut tmp, self);
            let mut v = tmp.moves;
            v.set(ply, [mv, cur[0]]);
            *self = KillerTable { moves: v };
        }
    }
}

impl Default for KillerTable {
    fn default() -> (k: KillerTable)
        ensures
            k.view_killers().len() == MAX_PLY,
            forall|i: int| 0 <= i < MAX_PLY ==> #[trigger] k.view_killers()[i] == [Move(0), Move(0)],
    {
        KillerTable::new()
    }
}

/// Most a history entry holds.
pub const HISTORY_MAX: i32 = 600_000;

/// History scores by side, from-square and to-square.
pub struct HistoryTable {
    table: Vec<i32>,
}

/// Index of (side, from, to) in the history table.
pub open spec fn history_index(side: int, from: int, to: int) -> int {
    side * 4096 + from * 64 + to
}

impl HistoryTable {
    #[verifier::type_invariant]
    spec fn well_formed(self) -> bool {
        &&& self.table@.len() == 8192
        &&& forall|i: int| 0 <= i < 8192 ==> 0 <= #[trigger] self.table@[i] <= HISTORY_MAX
    }

    /// The score of (side, from, to).
    pub closed spec fn entry(self, side: int, from: int, to: int) -> i32 {
        self.table@[history_index(side, from, to)]
    }

    pub fn new() -> (h: HistoryTable)
        ensures
            forall|s: int, f: int, t: int| 0 <= s < 2 && 0 <= f < 64 && 0 <= t < 64 ==> #[trigger] h.entry(s, f, t) == 0,
    {
        let h = HistoryTable { table: vec![0i32; 8192] };
        proof {
            assert forall|s: int, f: int, t: int| 0 <= s < 2 && 0 <= f < 64 && 0 <= t < 64 implies #[trigger] h.entry(s, f, t) == 0 by {
                assert(0 <= history_index(s, f, t) < 8192);
            }
        }
        h
    }

    /// Adds `min(depth², 400)` to the entry, capped at `HISTORY_MAX`.
    pub fn record(&mut self, side: usize, from: usize, to: usize, depth: i32)
        requires
            side < 2,
            from < 64,
            to < 64,
            -46340 <= depth <= 46340,
        ensures
            forall|s: int, f: int, t: int|
                0 <= s < 2 && 0 <= f < 64 && 0 <= t < 64 ==> #[trigger] final(self).entry(s, f, t) == if s == side
                    && f == from && t == to {
                    {
                        let b = if depth * depth < 400 { depth * depth } else { 400 };
                        let e = old(self).entry(s, f, t) + b;
                        if e < HISTORY_MAX { e } else { HISTORY_MAX as int }
                    }
                } else {
                    old(self).entry(s, f, t) as int
                },
    {
        proof {
            use_type_invariant(&*self);
            assert(depth * depth >= 0) by (nonlinear_arith);
            assert(depth * depth <= 46340 * 46340) by (nonlinear_arith)
                requires
                    -46340 <= depth <= 46340,
            ;
        }
        let sq = depth * depth;
        let bonus = if sq < 400 { sq } else { 400 };
        let i = side * 4096 + from * 64 + to;
        let cur = self.table[i];
        let e = cur + bonus;
        let new_val = if e < HISTORY_MAX { e } else { HISTORY_MAX };
        let ghost old_table = self.table@;
        let mut tmp = HistoryTable::new();
        std::mem::swap(&mut tmp, self);
        let mut v = tmp.table;
        v.set(i, new_val);
        *self = HistoryTable { table: v };
        proof {
            assert forall|s: int, f: int, t: int|
                0 <= s < 2 && 0 <= f < 64 && 0 <= t < 64 && !(s == side && f == from && t == to)
                    implies history_index(s, f, t) != i by {
                if history_index(s, f, t) == i {
                    assert(s == side && f == from && t == to) by (nonlinear_arith)
                        requires
                            s * 4096 + f * 64 + t == side * 4096 + from * 64 + to,
                            0 <= s < 2, 0 <= f < 64, 0 <= t < 64,
                            0 <= side < 2, 0 <= from < 64, 0 <= to < 64,
                    ;
                }
            }
        }
    }

    pub fn score(&self, side: usize, from: usize, to: usize) -> (r: i32)
        requires
            side < 2,
            from < 64,
            to < 64,
        ensures
            r == self.entry(side as int, from as int, to as int),
            0 <= r <= HISTORY_MAX,
    {
        proof {
            use_type_invariant(self);
        }
        self.table[side * 4096 + from * 64 + to]
    }
}

impl Default for HistoryTable {
    fn default() -> (h: HistoryTable)
        ensures
            forall|s: int, f: int, t: int| 0 <= s < 2 && 0 <= f < 64 && 0 <= t < 64 ==> #[trigger] h.entry(s, f, t) == 0,
    {
        HistoryTable::new()
    }
}

/// The ordering score of `mv`: the PV move first, then captures by most
/// valuable victim / least valuable attacker, en-passant, promotions by the
/// new piece, the two killers, and finally the history score (1..600000).
pub open spec fn move_score(
    pos: Position,
    mv: Move,
    pv_move: Move,
    killers: [Move; 2],
    history: HistoryTable,
) -> int {
    let board = pos.board();
    let from = mv.spec_from() as int;
    let to = mv.spec_to() as int;
    if mv == pv_move {
        10_000_000
    } else if board[to] is Some {
        1_000_000 + PIECE_VALUES@[board[to]->Some_0.1.idx()] * 10 - PIECE_VALUES@[board[from]->Some_0.1.idx()]
    } else if mv.spec_flags() == 2 {
        1_000_000 + 100 * 10 - 100
    } else if mv.spec_flags() == 1 {
        900_000 + PIECE_VALUES@[promo_piece_of(mv.spec_promo()).idx()]
    } else if mv == killers[0] {
        800_000
    } else if mv == killers[1] {
        700_000
    } else {
        let h = history.entry(pos.spec_side().idx(), from, to) as int;
        if h < 1 {
            1
        } else if h > 600_000 {
            600_000
        } else {
            h
        }
    }
}

fn score_move(
    pos: &Position,
    mv: Move,
    pv_move: Move,
    killers: &[Move; 2],
    history: &HistoryTable,
) -> (r: i32)
    requires
        pos.wf(),
        pos.board()[mv.spec_from() as int] is Some,
    ensures
        r == move_score(*pos, mv, pv_move, *killers, *history),
{
    let from = mv.from_sq();
    let to = mv.to_sq();
    proof {
        assert(pos.board()[from.0 as int] == pos.piece_on(from.0 as int));
        assert(pos.board()[to.0 as int] == pos.piece_on(to.0 as int));
    }
    if mv == pv_move {
        10_000_000
    } else if let Some((_, victim)) = pos.piece_at(to) {
        let attacker = match pos.piece_at(from) {
            Some((_, a)) => a,
            None => Piece::Pawn,
        };
        1_000_000 + PIECE_VALUES[victim.index()] * 10 - PIECE_VALUES[attacker.index()]
    } else if mv.is_en_passant() {
        1_000_000 + PIECE_VALUES[Piece::Pawn.index()] * 10 - PIECE_VALUES[Piece::Pawn.index()]
    } else if mv.is_promotion() {
        900_000 + PIECE_VALUES[mv.promotion_piece().index()]
    } else if mv == killers[0] {
        800_000
    } else if mv == killers[1] {
        700_000
    } else {
        let h = history.score(pos.side_to_move().index(), from.0 as usize, to.0 as usize);
        if h < 1 {
            1
        } else if h > 600_000 {
            600_000
        } else {
            h
        }
    }
}

/// Exchanging two elements keeps the multiset.
proof fn lemma_swap_multiset(s: Seq<Move>, i: int, j: int)
    requires
        0 <= i < s.len(),
        0 <= j < s.len(),
    ensures
        s.update(i, s[j]).update(j, s[i]).to_multiset() == s.to_multiset(),
{
    broadcast use vstd::seq_lib::to_multiset_update, vstd::seq_lib::to_multiset_contains,
        vstd::multiset::group_multiset_axioms;

    let t = s.update(i, s[j]);
    let m0 = s.to_multiset();
    assert(s.contains(s[i]));
    assert(s.contains(s[j]));
    let m1 = t.to_multiset();
    assert(m1 == m0.insert(s[j]).remove(s[i]));
    let tj = t[j];
    assert(tj == s[j]);
    let m2 = t.update(j, s[i]).to_multiset();
    assert(m2 == m1.insert(s[i]).remove(tj));
    assert forall|x: Move| m2.count(x) == m0.count(x) by {
        if s[i] == s[j] {
        } else {
        }
    }
    assert(m2 =~= m0);
}

/// `sorted` holds the moves of `orig` rearranged by `perm` (move `i` of
/// `sorted` is move `perm[i]` of `orig`), moves of equal `move_score` in
/// the order they have in `orig`.
pub open spec fn stable_order(
    orig: Seq<Move>,
    sorted: Seq<Move>,
    perm: Seq<int>,
    pos: Position,
    pv_move: Move,
    killers: [Move; 2],
    history: HistoryTable,
) -> bool {
    &&& perm.len() == orig.len()
    &&& sorted.len() == orig.len()
    &&& forall|i: int| 0 <= i < perm.len() ==> 0 <= #[trigger] perm[i] < perm.len() && sorted[i] == orig[perm[i]]
    &&& forall|i: int, j: int| 0 <= i < j < perm.len() ==> perm[i] != perm[j]
    &&& forall|i: int, j: int|
        0 <= i < j < perm.len() && move_score(pos, sorted[i], pv_move, killers, history) == move_score(
            pos,
            sorted[j],
            pv_move,
            killers,
            history,
        ) ==> perm[i] < perm[j]
}

/// Sorts `moves` by `move_score`, highest first; moves of equal score keep
/// their order.
#[verifier::spinoff_prover]
pub fn order_moves(
    moves: &mut MoveList,
    pv_move: Move,
    killers: &[Move; 2],
    history: &HistoryTable,
    pos: &Position,
)
    requires
        pos.wf(),
        forall|i: int| 0 <= i < old(moves)@.len() ==> pos.board()[#[trigger] old(moves)@[i].spec_from() as int] is Some,
    ensures
        final(moves)@.to_multiset() == old(moves)@.to_multiset(),
        final(moves)@.len() == old(moves)@.len(),
        forall|i: int, j: int|
            0 <= i < j < final(moves)@.len() ==> move_score(*pos, final(moves)@[i], pv_move, *killers, *history)
                >= move_score(*pos, final(moves)@[j], pv_move, *killers, *history),
        exists|perm: Seq<int>| #[trigger] stable_order(old(moves)@, final(moves)@, perm, *pos, pv_move, *killers, *history),
{
    let n = moves.len();
    let ghost orig = moves@;
    let mut scores: Vec<i32> = Vec::new();
    let mut k: usize = 0;
    while k < n
        invariant
            k <= n,
            n == moves@.len(),
            moves@ == orig,
            pos.wf(),
            forall|i: int| 0 <= i < moves@.len() ==> pos.board()[#[trigger] moves@[i].spec_from() as int] is Some,
            scores@.len() == k,
            forall|i: int| 0 <= i < k ==> scores@[i] == move_score(*pos, moves@[i], pv_move, *killers, *history),
        decreases n - k,
    {
        let mv = moves.get(k);
        scores.push(score_move(pos, mv, pv_move, killers, history));
        k = k + 1;
    }
    // Insertion sort, highest score first; only strictly lower scores are
    // passed, so equal scores keep their order.
    let mut i: usize = 1;
    let ghost mut perm: Seq<int> = Seq::new(n as nat, |k: int| k);
    while i < n
        invariant
            1 <= i || n == 0,
            n == moves@.len(),
            n == orig.len(),
            scores@.len() == n,
            moves@.to_multiset() == orig.to_multiset(),
            forall|p: int| 0 <= p < n ==> scores@[p] == move_score(*pos, moves@[p], pv_move, *killers, *history),
            forall|p: int, q: int| 0 <= p < q < i && q < n ==> scores@[p] >= scores@[q],
            pos.wf(),
            perm.len() == n,
            forall|p: int| 0 <= p < n ==> 0 <= #[trigger] perm[p] < n && moves@[p] == orig[perm[p]],
            forall|p: int, q: int| 0 <= p < q < n ==> perm[p] != perm[q],
            forall|q: int| i <= q < n ==> #[trigger] perm[q] == q,
            forall|p: int| 0 <= p < i && p < n ==> #[trigger] perm[p] < i,
            forall|p: int, q: int| 0 <= p < q < i && q < n && scores@[p] == scores@[q] ==> perm[p] < perm[q],
        decreases n - i,
    {
        let mut j: usize = i;
        while j > 0 && scores[j - 1] < scores[j]
            invariant
                0 <= j <= i < n,
                n == moves@.len(),
                n == orig.len(),
                scores@.len() == n,
                moves@.to_multiset() == orig.to_multiset(),
                forall|p: int| 0 <= p < n ==> scores@[p] == move_score(*pos, moves@[p], pv_move, *killers, *history),
                forall|p: int, q: int| 0 <= p < q <= i && p != j && q != j ==> scores@[p] >= scores@[q],
                forall|q: int| j < q <= i ==> scores@[j as int] > scores@[q],
                perm.len() == n,
                forall|p: int| 0 <= p < n ==> 0 <= #[trigger] perm[p] < n && moves@[p] == orig[perm[p]],
                forall|p: int, q: int| 0 <= p < q < n ==> perm[p] != perm[q],
                forall|q: int| i < q < n ==> #[trigger] perm[q] == q,
                perm[j as int] == i,
                forall|p: int| 0 <= p <= i && p != j ==> #[trigger] perm[p] < i,
                forall|p: int, q: int| 0 <= p < q <= i && p != j && q != j && scores@[p] == scores@[q] ==> perm[p] < perm[q],
            decreases j,
        {
            let ghost before = moves@;
            moves.swap(j - 1, j);
            proof {
                lemma_swap_multiset(before, j - 1, j as int);
                let pj = perm[j as int];
                let pj1 = perm[j - 1];
                perm = perm.update(j - 1, pj).update(j as int, pj1);
            }
            let a = scores[j - 1];
            let b = scores[j];
            scores.set(j - 1, b);
            scores.set(j, a);
            j = j - 1;
        }
        proof {
            assert forall|p: int, q: int| 0 <= p < q <= i implies scores@[p] >= scores@[q] by {
                if q == j && p < j - 1 {
                    assert(scores@[p] >= scores@[j - 1]);
                }
            }
            assert forall|p: int, q: int| 0 <= p < q < i + 1 && q < n && scores@[p] == scores@[q] implies perm[p] < perm[q] by {
                if q == j {
                    assert(perm[p] < i);
                } else if p == j {
                    assert(scores@[j as int] > scores@[q]);
                }
            }
        }
        i = i + 1;
    }
    proof {
        assert forall|p: int, q: int| 0 <= p < q < moves@.len() implies move_score(
            *pos,
            moves@[p],
            pv_move,
            *killers,
            *history,
        ) >= move_score(*pos, moves@[q], pv_move, *killers, *history) by {
            assert(scores@[p] >= scores@[q]);
        }
        assert forall|p: int, q: int| 0 <= p < q < perm.len() && move_score(*pos, moves@[p], pv_move, *killers, *history)
            == move_score(*pos, moves@[q], pv_move, *killers, *history) implies perm[p] < perm[q] by {
            assert(scores@[p] == scores@[q]);
        }
        assert(stable_order(orig, moves@, perm, *pos, pv_move, *killers, *history));
    }
}

} // verus!
