//! The value quiescence search computes: the minimax value of the capture
//! tree below a position, where the side to move may always stand pat on the
//! static evaluation, and the search stops at the quiescence ply limit.

use vstd::prelude::*;

use crate::board::Position;
use crate::eval::eval_spec;
use crate::movegen::{crowded, legal_move};
use crate::search::alphabeta::MAX_QPLY;
use crate::search::made;
use crate::types::Move;

verus! {

/// The larger of two scores.
pub open spec fn larger(a: int, b: int) -> int {
    if a >= b {
        a
    } else {
        b
    }
}

/// The position that move `m` leads to from `pos`.
pub open spec fn child(pos: Position, m: Move) -> Position {
    choose|p: Position| made(pos, m, p)
}

/// The quiescence value of `pos` at quiescence ply `qply`: the static
/// evaluation at the ply limit; below it, the best of standing pat and
/// every legal capture, each worth the negated value of the position it
/// leads to.
pub open spec fn qvalue(pos: Position, qply: nat) -> int
    decreases MAX_QPLY - qply, 65537int,
{
    if qply >= MAX_QPLY {
        eval_spec(pos)
    } else {
        best_from(pos, qply, 0)
    }
}

/// The best of standing pat and the legal captures of `pos` whose code is
/// at least `k`.
pub open spec fn best_from(pos: Position, qply: nat, k: int) -> int
    decreases MAX_QPLY - qply, 65536 - k,
{
    if k >= 65536 || k < 0 || qply >= MAX_QPLY {
        eval_spec(pos)
    } else {
        let m = Move(k as u16);
        let rest = best_from(pos, qply, k + 1);
        if legal_move(pos, m, true) {
            larger(rest, -qvalue(child(pos, m), qply + 1))
        } else {
            rest
        }
    }
}

/// Every position of the capture tree below `pos` (down to the ply limit)
/// has all its legal captures generated (none is crowded).
pub open spec fn q_uncrowded(pos: Position, qply: nat) -> bool
    decreases MAX_QPLY - qply,
{
    qply >= MAX_QPLY || (!crowded(pos, true) && forall|m: Move|
        legal_move(pos, m, true) ==> q_uncrowded(#[trigger] child(pos, m), qply + 1))
}

/// The fail-soft window property of a search result `r` for a position of
/// value `v` searched within (`alpha`, `beta`): exact inside the window, a
/// bound between the value and the window edge outside it.
pub open spec fn fail_soft(r: int, v: int, alpha: int, beta: int) -> bool {
    &&& v <= alpha ==> v <= r <= alpha
    &&& alpha < v < beta ==> r == v
    &&& beta <= v ==> beta <= r <= v
}

/// The best of standing pat and the captures `l[0..i]`.
pub open spec fn fold_best(pos: Position, qply: nat, l: Seq<Move>, i: int) -> int
    decreases i,
{
    if i <= 0 {
        eval_spec(pos)
    } else {
        larger(fold_best(pos, qply, l, i - 1), -qvalue(child(pos, l[i - 1]), qply + 1))
    }
}

/// The child of a made move is the position the move was made into.
pub proof fn lemma_child_is(pos: Position, m: Move, p: Position)
    requires
        made(pos, m, p),
    ensures
        child(pos, m) == p,
{
    let q = child(pos, m);
    assert(made(pos, m, q));
    p.lemma_fields_determine(q);
}

proof fn lemma_best_from_eval(pos: Position, qply: nat, k: int)
    ensures
        best_from(pos, qply, k) >= eval_spec(pos),
    decreases 65536 - k,
{
    if !(k >= 65536 || k < 0 || qply >= MAX_QPLY) {
        lemma_best_from_eval(pos, qply, k + 1);
    }
}

proof fn lemma_best_from_upper(pos: Position, qply: nat, k: int, m: Move)
    requires
        qply < MAX_QPLY,
        0 <= k <= m.0,
        legal_move(pos, m, true),
    ensures
        best_from(pos, qply, k) >= -qvalue(child(pos, m), qply + 1),
    decreases m.0 - k,
{
    if k == m.0 {
        assert(Move(k as u16) == m);
    } else {
        lemma_best_from_upper(pos, qply, k + 1, m);
    }
}

proof fn lemma_best_from_attained(pos: Position, qply: nat, k: int)
    ensures
        best_from(pos, qply, k) == eval_spec(pos) || exists|m: Move|
            legal_move(pos, m, true) && best_from(pos, qply, k) == -qvalue(#[trigger] child(pos, m), qply + 1),
    decreases 65536 - k,
{
    if !(k >= 65536 || k < 0 || qply >= MAX_QPLY) {
        lemma_best_from_attained(pos, qply, k + 1);
        let m = Move(k as u16);
        if legal_move(pos, m, true) && best_from(pos, qply, k) == -qvalue(child(pos, m), qply + 1) {
            assert(legal_move(pos, m, true) && best_from(pos, qply, k) == -qvalue(child(pos, m), qply + 1));
        }
    }
}

proof fn lemma_fold_eval(pos: Position, qply: nat, l: Seq<Move>, i: int)
    ensures
        fold_best(pos, qply, l, i) >= eval_spec(pos),
    decreases i,
{
    if i > 0 {
        lemma_fold_eval(pos, qply, l, i - 1);
    }
}

proof fn lemma_fold_upper(pos: Position, qply: nat, l: Seq<Move>, i: int, j: int)
    requires
        0 <= j < i,
    ensures
        fold_best(pos, qply, l, i) >= -qvalue(child(pos, l[j]), qply + 1),
    decreases i,
{
    if j < i - 1 {
        lemma_fold_upper(pos, qply, l, i - 1, j);
    }
}

proof fn lemma_fold_attained(pos: Position, qply: nat, l: Seq<Move>, i: int)
    ensures
        fold_best(pos, qply, l, i) == eval_spec(pos) || exists|j: int|
            0 <= j < i && fold_best(pos, qply, l, i) == -qvalue(child(pos, #[trigger] l[j]), qply + 1),
    decreases i,
{
    if i > 0 {
        lemma_fold_attained(pos, qply, l, i - 1);
        if fold_best(pos, qply, l, i) == -qvalue(child(pos, l[i - 1]), qply + 1) {
            assert(0 <= i - 1 < i && fold_best(pos, qply, l, i) == -qvalue(child(pos, l[i - 1]), qply + 1));
        } else {
            assert(fold_best(pos, qply, l, i) == fold_best(pos, qply, l, i - 1));
        }
    }
}

/// Standing pat and taking the best of a list that holds exactly the legal
/// captures gives the quiescence value.
pub proof fn lemma_fold_is_qvalue(pos: Position, qply: nat, l: Seq<Move>)
    requires
        qply < MAX_QPLY,
        forall|j: int| 0 <= j < l.len() ==> legal_move(pos, #[trigger] l[j], true),
        forall|m: Move| legal_move(pos, m, true) ==> #[trigger] l.contains(m),
    ensures
        fold_best(pos, qply, l, l.len() as int) == qvalue(pos, qply),
{
    let f = fold_best(pos, qply, l, l.len() as int);
    let b = best_from(pos, qply, 0);
    lemma_fold_eval(pos, qply, l, l.len() as int);
    lemma_best_from_eval(pos, qply, 0);
    lemma_fold_attained(pos, qply, l, l.len() as int);
    lemma_best_from_attained(pos, qply, 0);
    if f != eval_spec(pos) {
        let j = choose|j: int| 0 <= j < l.len() && f == -qvalue(child(pos, #[trigger] l[j]), qply + 1);
        lemma_best_from_upper(pos, qply, 0, l[j]);
    }
    if b != eval_spec(pos) {
        let m = choose|m: Move| legal_move(pos, m, true) && b == -qvalue(#[trigger] child(pos, m), qply + 1);
        assert(l.contains(m));
        let j = choose|j: int| 0 <= j < l.len() && l[j] == m;
        lemma_fold_upper(pos, qply, l, l.len() as int, j);
    }
}

/// The quiescence value is at least the static evaluation and at least the
/// negated value of each legal capture's position.
pub proof fn lemma_qvalue_bounds(pos: Position, qply: nat, m: Move)
    requires
        qply < MAX_QPLY,
    ensures
        qvalue(pos, qply) >= eval_spec(pos),
        legal_move(pos, m, true) ==> qvalue(pos, qply) >= -qvalue(child(pos, m), qply + 1),
{
    lemma_best_from_eval(pos, qply, 0);
    if legal_move(pos, m, true) {
        lemma_best_from_upper(pos, qply, 0, m);
    }
}

/// One move of the capture loop: with `a` the larger of `alpha` and the best
/// `w` so far, a child result `rc` that is fail-soft for the child value `vc`
/// in (-`beta`, -`a`) either cuts off between `beta` and -`vc`, or leaves the
/// larger of `a` and its negation equal to the larger of `alpha` and the new
/// best.
pub proof fn lemma_window_step(alpha: int, beta: int, a: int, w: int, rc: int, vc: int)
    requires
        a == larger(alpha, w),
        a < beta,
        fail_soft(rc, vc, -beta, -a),
    ensures
        -rc >= beta ==> beta <= -rc <= -vc,
        -rc < beta ==> larger(a, -rc) == larger(alpha, larger(w, -vc)),
{
}

} // verus!
