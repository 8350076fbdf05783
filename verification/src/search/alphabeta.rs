//! Principal-variation alpha-beta search with transposition table, null-move
//! pruning, killer ordering, and a capture-only quiescence
//! search.

use vstd::prelude::*;
use std::sync::atomic::{AtomicBool, AtomicU64, Ordering};
use std::sync::Arc;
use std::time::{Duration, Instant};

use crate::board::{insufficient_material, Position};
use crate::eval::{eval_spec, evaluate, EVAL_BOUND};
use crate::movegen::{
    clocks_ok, gen_ready, in_check_on, generate_captures, generate_moves, legal_move, lemma_pawns_ok_after,
    lemma_pseudo_legal_from, lemma_pseudo_legal_move_ok, pawns_ok,
};
use crate::search::minimax::{
    fail_soft, fold_best, larger, lemma_child_is, lemma_fold_is_qvalue, lemma_qvalue_bounds, lemma_window_step,
    q_uncrowded, qvalue,
};
use crate::search::ordering::{order_moves, HistoryTable, KillerTable, MAX_PLY};
use crate::search::tt::{TTData, TTFlag, TranspositionTable};
use crate::tablebase::{SyzygyTablebase, WdlResult};
use crate::types::{Color, Move, Piece};

verus! {

#[verifier::external_type_specification]
#[verifier::external_body]
pub struct ExInstant(Instant);

pub const MATE_SCORE: i32 = 30000;

pub const INFINITY: i32 = 32000;

/// Score used for tablebase wins/losses. Below mate, above normal eval range.
pub const TABLEBASE_WIN: i32 = 20000;

/// Most plies of quiescence search below a leaf.
pub const MAX_QPLY: usize = 64;

/// The score stored in the table for `s` found `ply` plies from the root:
/// mate scores are made relative to this node; the value is truncated to
/// 16 bits.
pub open spec fn score_to_tt_spec(s: i32, ply: i32) -> i16 {
    if s >= MATE_SCORE - 1000 {
        (s + ply) as i16
    } else if s <= -MATE_SCORE + 1000 {
        (s - ply) as i16
    } else {
        s as i16
    }
}

/// The score a table entry `s` gives at `ply` plies from the root.
pub open spec fn score_from_tt_spec(s: i16, ply: i32) -> int {
    if s >= MATE_SCORE - 1000 {
        s - ply
    } else if s <= -MATE_SCORE + 1000 {
        s + ply
    } else {
        s as int
    }
}

pub fn score_to_tt(s: i32, ply: i32) -> (r: i16)
    requires
        i32::MIN <= s + ply <= i32::MAX,
        i32::MIN <= s - ply <= i32::MAX,
    ensures
        r == score_to_tt_spec(s, ply),
{
    if s >= MATE_SCORE - 1000 {
        (s + ply) as i16
    } else if s <= -MATE_SCORE + 1000 {
        (s - ply) as i16
    } else {
        s as i16
    }
}

pub fn score_from_tt(s: i16, ply: i32) -> (r: i32)
    requires
        s >= MATE_SCORE - 1000 ==> s - ply <= i32::MAX,
        s <= -MATE_SCORE + 1000 ==> i32::MIN <= s + ply,
    ensures
        r == score_from_tt_spec(s, ply),
{
    let s = s as i32;
    if s >= MATE_SCORE - 1000 {
        s - ply
    } else if s <= -MATE_SCORE + 1000 {
        s + ply
    } else {
        s
    }
}

/// Storing a score and reading it back at the same ply gives it back, when
/// the stored value fits in 16 bits and stays on the same side of the mate
/// thresholds.
pub proof fn lemma_tt_score_roundtrip(s: i32, ply: i32)
    requires
        0 <= ply <= 1000,
        -32768 <= s - ply,
        s + ply <= 32767,
    ensures
        score_from_tt_spec(score_to_tt_spec(s, ply), ply) == s,
{
}

/// The current instant (std `Instant::now`).
#[verifier::external_body]
fn now() -> Instant {
    Instant::now()
}

/// The time since `t` (std `Instant::elapsed`).
#[verifier::external_body]
fn elapsed_since(t: &Instant) -> Duration {
    t.elapsed()
}

/// Whole milliseconds of `d` (std `Duration::as_millis`).
#[verifier::external_body]
fn as_millis(d: &Duration) -> u128 {
    d.as_millis()
}

/// The current instant, for timing a search.
pub fn now_instant() -> Instant {
    now()
}

/// Milliseconds since `t`.
pub fn millis_since(t: &Instant) -> u128 {
    as_millis(&elapsed_since(t))
}

/// Whether `flag` is up.
pub fn stop_flag(flag: &AtomicBool) -> bool {
    flag.load(Ordering::Relaxed)
}

/// The value of a node counter.
pub fn node_count(nodes: &AtomicU64) -> u64 {
    nodes.load(Ordering::Relaxed)
}

/// Per-search state: the killer table, the history table move ordering
/// reads (the search records nothing in it, so it stays empty), the shared
/// node counter and
/// stop/ponder flags, and the time and node limits.
pub struct SearchState<'a> {
    pub killers: KillerTable,
    pub history: HistoryTable,
    pub nodes: &'a AtomicU64,
    pub stop: &'a AtomicBool,
    pub pondering: &'a AtomicBool,
    pub start_time: Instant,
    pub movetime: Option<u64>,
    pub nodes_limit: Option<u64>,
    pub tablebase: Option<Arc<SyzygyTablebase>>,
    pub was_pondering: bool,
    /// Set once a stop (the stop flag, or a time or node limit) has cut the
    /// search short; a search that ends with it clear ran to completion.
    pub halted: Ghost<bool>,
    /// Set once a transposition-table entry has decided a node's score or
    /// narrowed its window; a search that ends with it clear read nothing
    /// from the table.
    pub table_used: Ghost<bool>,
}

impl<'a> SearchState<'a> {
    pub fn new(
        stop: &'a AtomicBool,
        pondering: &'a AtomicBool,
        nodes: &'a AtomicU64,
        movetime: Option<u64>,
        nodes_limit: Option<u64>,
    ) -> (s: SearchState<'a>)
        ensures
            s.stop == stop,
            s.pondering == pondering,
            s.nodes == nodes,
            s.movetime == movetime,
            s.nodes_limit == nodes_limit,
            s.tablebase is None,
            !s.halted@,
            !s.table_used@,
            forall|side: int, from: int, to: int|
                0 <= side < 2 && 0 <= from < 64 && 0 <= to < 64 ==> #[trigger] s.history.entry(side, from, to) == 0,
    {
        let was_pondering = pondering.load(Ordering::Relaxed);
        SearchState {
            killers: KillerTable::new(),
            history: HistoryTable::new(),
            nodes,
            stop,
            pondering,
            start_time: now(),
            movetime,
            nodes_limit,
            tablebase: None,
            was_pondering,
            halted: Ghost(false),
            table_used: Ghost(false),
        }
    }
}

/// Counts a node; the new count.
fn count_node(state: &SearchState) -> u64 {
    state.nodes.fetch_add(1, Ordering::Relaxed).wrapping_add(1)
}

fn stop_requested(state: &SearchState) -> bool {
    state.stop.load(Ordering::Relaxed)
}

fn request_stop(state: &SearchState) {
    state.stop.store(true, Ordering::Relaxed);
}

fn pondering_now(state: &SearchState) -> bool {
    state.pondering.load(Ordering::Relaxed)
}

/// A search limit is reached: `elapsed` ms of `movetime`, or `nodes` of
/// `nodes_limit`.
pub open spec fn limit_reached_spec(elapsed: u128, movetime: Option<u64>, nodes: u64, nodes_limit: Option<u64>) -> bool {
    ||| (movetime matches Some(limit) && elapsed >= limit)
    ||| (nodes_limit matches Some(limit) && nodes >= limit)
}

pub fn limit_reached(elapsed: u128, movetime: Option<u64>, nodes: u64, nodes_limit: Option<u64>) -> (r: bool)
    ensures
        r == limit_reached_spec(elapsed, movetime, nodes, nodes_limit),
{
    if let Some(limit) = movetime {
        if elapsed >= limit as u128 {
            return true;
        }
    }
    if let Some(limit) = nodes_limit {
        if nodes >= limit {
            return true;
        }
    }
    false
}

/// The check made every 2048 nodes: true when the search must stop (the
/// stop flag is up, or, unless pondering, a time or node limit is reached,
/// which raises the stop flag). Leaving ponder mode restarts the clock.
fn must_stop(state: &mut SearchState, nodes: u64, track_ponder: bool) -> (r: bool)
    ensures
        final(state).halted == old(state).halted,
        final(state).table_used == old(state).table_used,
        final(state).killers == old(state).killers,
        final(state).history == old(state).history,
        final(state).nodes == old(state).nodes,
        final(state).stop == old(state).stop,
        final(state).pondering == old(state).pondering,
        final(state).movetime == old(state).movetime,
        final(state).nodes_limit == old(state).nodes_limit,
        final(state).tablebase == old(state).tablebase,
        final(state).was_pondering ==> old(state).was_pondering,
        !track_ponder ==> final(state).was_pondering == old(state).was_pondering && final(state).start_time
            == old(state).start_time,
{
    if stop_requested(state) {
        return true;
    }
    let currently_pondering = pondering_now(state);
    if track_ponder && state.was_pondering && !currently_pondering {
        state.start_time = now();
        state.was_pondering = false;
    }
    if !currently_pondering {
        let elapsed = as_millis(&elapsed_since(&state.start_time));
        if limit_reached(elapsed, state.movetime, nodes, state.nodes_limit) {
            request_stop(state);
            return true;
        }
    }
    false
}

/// Whether `mv` captures (en passant included) or promotes.
pub fn is_capture_or_promotion(mv: Move, pos: &Position) -> (b: bool)
    requires
        pos.wf(),
    ensures
        b == (mv.spec_flags() == 1 || pos.board()[mv.spec_to() as int] is Some || mv.spec_flags() == 2),
{
    let to = mv.to_sq();
    proof {
        assert(pos.board()[to.0 as int] == pos.piece_on(to.0 as int));
    }
    mv.is_promotion() || pos.piece_at(to).is_some() || mv.is_en_passant()
}

/// Scores the search returns stay within this, window values aside.
pub open spec fn score_lo(alpha: int) -> int {
    if alpha < -EVAL_BOUND { alpha } else { -EVAL_BOUND as int }
}

pub open spec fn score_hi(beta: int) -> int {
    if beta > EVAL_BOUND { beta } else { EVAL_BOUND as int }
}

/// The clocks can advance `n` more plies without overflowing.
pub open spec fn clock_room(pos: Position, n: int) -> bool {
    &&& pos.spec_halfmove() + n < u32::MAX
    &&& pos.spec_fullmove() + n < u32::MAX
}

/// What a search node needs: a position ready for move generation, room on
/// the clocks for the rest of the search, a non-empty window within bounds.
pub open spec fn node_ok(pos: Position, ply: int, alpha: int, beta: int) -> bool {
    &&& pos.wf()
    &&& pawns_ok(pos)
    &&& clock_room(pos, MAX_PLY - ply + MAX_QPLY + 2)
    &&& alpha < beta
    &&& -(EVAL_BOUND + ply) <= alpha
    &&& beta <= EVAL_BOUND + ply
}

/// Whether `pos` can be searched (see `iterative_deepening`): no pawn on its
/// far rank, and room on the clocks for the deepest line.
pub fn search_ready(pos: &Position) -> (b: bool)
    requires
        pos.wf(),
    ensures
        b == (pawns_ok(*pos) && clock_room(*pos, MAX_PLY + MAX_QPLY + 2)),
{
    let room: u32 = (MAX_PLY + MAX_QPLY + 2) as u32;
    if pos.halfmove_clock() >= u32::MAX - room || pos.fullmove_number() >= u32::MAX - room {
        return false;
    }
    let pawns_fine = crate::movegen::is_gen_ready(pos);
    pawns_fine
}

/// What a quiescence search of `pos` within (`alpha`, `beta`) at quiescence
/// ply `qply` returns when no stop cuts it short: the static evaluation at
/// the ply limit, or when the evaluation reaches `beta` (stand pat);
/// otherwise a score no lower than `alpha` or the evaluation, and exactly the
/// larger of the two when the side to move has no legal capture.
pub open spec fn qs_outcome(pos: Position, alpha: int, beta: int, qply: int, r: int) -> bool {
    if qply >= MAX_QPLY || eval_spec(pos) >= beta {
        r == eval_spec(pos)
    } else {
        &&& r >= alpha
        &&& r >= eval_spec(pos)
        &&& (forall|m: Move| !legal_move(pos, m, true)) ==> r == (if alpha >= eval_spec(pos) {
            alpha
        } else {
            eval_spec(pos)
        })
    }
}

/// Quiescence search: stand pat on the static evaluation, then try the
/// legal captures, best first.
#[verifier::spinoff_prover]
#[verifier::rlimit(40)]
pub fn quiescence(pos: &Position, state: &mut SearchState, alpha: i32, beta: i32, qply: usize) -> (r: i32)
    requires
        pos.wf(),
        pawns_ok(*pos),
        qply <= MAX_QPLY,
        clock_room(*pos, MAX_QPLY - qply + 1),
        alpha < beta,
        -(EVAL_BOUND + MAX_PLY + MAX_QPLY) <= alpha,
        beta <= EVAL_BOUND + MAX_PLY + MAX_QPLY,
    ensures
        score_lo(alpha as int) <= r <= score_hi(beta as int),
        qply >= MAX_QPLY ==> r == eval_spec(*pos) || r == 0,
        eval_spec(*pos) >= beta ==> r == eval_spec(*pos) || r == 0,
        old(state).halted@ ==> final(state).halted@,
        final(state).history == old(state).history,
        final(state).table_used == old(state).table_used,
        !final(state).halted@ ==> qs_outcome(*pos, alpha as int, beta as int, qply as int, r as int),
        !final(state).halted@ && q_uncrowded(*pos, qply as nat) ==> fail_soft(
            r as int,
            qvalue(*pos, qply as nat),
            alpha as int,
            beta as int,
        ),
    decreases MAX_QPLY - qply,
{
    let mut a = alpha;
    let nodes = count_node(state);
    // Check stop flag every 2048 nodes
    if nodes & 0x7FF == 0 {
        if must_stop(state, nodes, false) {
            state.halted = Ghost(true);
            return 0;
        }
    }
    // Ply bound for quiescence
    if qply >= MAX_QPLY {
        return evaluate(pos);
    }
    let stand_pat = evaluate(pos);
    proof {
        lemma_qvalue_bounds(*pos, qply as nat, Move(0));
    }
    if stand_pat >= beta {
        return stand_pat;
    }
    if stand_pat > a {
        a = stand_pat;
    }
    let mut moves = generate_captures(pos);
    proof {
        if moves@.len() > 0 {
            assert(legal_move(*pos, moves@[0], true));
        }
    }
    // Move ordering for captures (MVV-LVA)
    proof {
        assert forall|i: int| 0 <= i < moves@.len() implies pos.board()[#[trigger] moves@[i].spec_from() as int] is Some by {
            assert(legal_move(*pos, moves@[i], true));
            lemma_pseudo_legal_from(*pos, moves@[i], true);
        }
    }
    let ghost before_order = moves@;
    order_moves(&mut moves, Move::none(), &[Move::none(), Move::none()], &state.history, pos);
    proof {
        broadcast use vstd::seq_lib::to_multiset_contains;
        assert forall|i: int| 0 <= i < moves@.len() implies legal_move(*pos, #[trigger] moves@[i], true) by {
            assert(moves@.contains(moves@[i]));
            assert(moves@.to_multiset().count(moves@[i]) > 0);
            assert(before_order.to_multiset().count(moves@[i]) > 0);
            assert(before_order.contains(moves@[i]));
        }
        if q_uncrowded(*pos, qply as nat) {
            assert forall|m: Move| legal_move(*pos, m, true) implies #[trigger] moves@.contains(m) by {
                assert(before_order.contains(m));
                assert(before_order.to_multiset().count(m) > 0);
                assert(moves@.to_multiset().count(m) > 0);
            }
        }
    }
    let n = moves.len();
    let mut i: usize = 0;
    while i < n
        invariant
            pos.wf(),
            pawns_ok(*pos),
            qply < MAX_QPLY,
            clock_room(*pos, MAX_QPLY - qply + 1),
            n == moves@.len(),
            i <= n,
            forall|j: int| 0 <= j < moves@.len() ==> legal_move(*pos, #[trigger] moves@[j], true),
            alpha <= a < beta,
            eval_spec(*pos) <= a,
            eval_spec(*pos) < beta,
            beta <= EVAL_BOUND + MAX_PLY + MAX_QPLY,
            -(EVAL_BOUND + MAX_PLY + MAX_QPLY) <= alpha,
            a <= score_hi(beta as int),
            old(state).halted@ ==> state.halted@,
            state.history == old(state).history,
            state.table_used == old(state).table_used,
            n == 0 ==> a == (if alpha >= eval_spec(*pos) { alpha as int } else { eval_spec(*pos) }),
            q_uncrowded(*pos, qply as nat) ==> forall|m: Move| legal_move(*pos, m, true) ==> #[trigger] moves@.contains(m),
            q_uncrowded(*pos, qply as nat) && !state.halted@ ==> a == larger(
                alpha as int,
                fold_best(*pos, qply as nat, moves@, i as int),
            ),
        decreases n - i,
    {
        let mv = moves.get(i);
        proof {
            lemma_pseudo_legal_move_ok(*pos, mv, true);
        }
        let mut next_pos = *pos;
        next_pos.make_move(mv);
        proof {
            lemma_pawns_ok_after(*pos, mv, true, next_pos);
        }
        let ghost halted_before = state.halted@;
        let child = quiescence(&next_pos, state, -beta, -a, qply + 1);
        assert(score_lo(-beta as int) <= child);
        let score = -child;
        assert(score <= score_hi(beta as int));
        proof {
            lemma_child_is(*pos, mv, next_pos);
            if q_uncrowded(*pos, qply as nat) && !state.halted@ {
                assert(!halted_before);
                assert(q_uncrowded(next_pos, (qply + 1) as nat));
                lemma_window_step(
                    alpha as int,
                    beta as int,
                    a as int,
                    fold_best(*pos, qply as nat, moves@, i as int),
                    child as int,
                    qvalue(next_pos, (qply + 1) as nat),
                );
                lemma_qvalue_bounds(*pos, qply as nat, mv);
            }
        }
        if stop_requested(state) {
            state.halted = Ghost(true);
            return 0;
        }
        if score >= beta {
            return score;
        }
        if score > a {
            a = score;
        }
        i = i + 1;
    }
    proof {
        if n > 0 {
            assert(legal_move(*pos, moves@[0], true));
        }
        if q_uncrowded(*pos, qply as nat) && !state.halted@ {
            lemma_fold_is_qvalue(*pos, qply as nat, moves@);
        }
    }
    a
}
/// What a table entry `data` decides at a node searched to `depth`, `ply`
/// plies from the root, within (`alpha`, `beta`): a score to return (first
/// component), else the window to search with. At the root, or when the
/// entry is shallower than `depth`, nothing changes. Otherwise, with `s` the
/// entry's score seen from this ply: an exact entry returns `s`; a lower
/// bound returns `s` when it reaches `beta`, else raises `alpha` to `s`; an
/// upper bound returns `s` when it is at most `alpha`, else lowers `beta` to
/// `s`.
pub open spec fn tt_cutoff_spec(data: TTData, depth: i32, ply: int, alpha: int, beta: int) -> (Option<int>, int, int) {
    let s = score_from_tt_spec(data.score, ply as i32);
    if ply <= 0 || data.depth < (depth as i8) {
        (None, alpha, beta)
    } else {
        match data.flag {
            TTFlag::Exact => (Some(s), alpha, beta),
            TTFlag::LowerBound => if s >= beta {
                (Some(s), alpha, beta)
            } else {
                (None, larger(alpha, s), beta)
            },
            TTFlag::UpperBound => if s <= alpha {
                (Some(s), alpha, beta)
            } else {
                (None, alpha, if s < beta { s } else { beta })
            },
        }
    }
}

/// The table-hit step of `search` (see `tt_cutoff_spec`).
pub fn tt_cutoff(data: TTData, depth: i32, ply: usize, alpha: i32, beta: i32) -> (r: (Option<i32>, i32, i32))
    requires
        ply < MAX_PLY,
    ensures
        r.0 is Some <==> tt_cutoff_spec(data, depth, ply as int, alpha as int, beta as int).0 is Some,
        r.0 matches Some(s) ==> s == tt_cutoff_spec(data, depth, ply as int, alpha as int, beta as int).0->0,
        r.1 == tt_cutoff_spec(data, depth, ply as int, alpha as int, beta as int).1,
        r.2 == tt_cutoff_spec(data, depth, ply as int, alpha as int, beta as int).2,
{
    if data.depth >= depth as i8 && ply > 0 {
        let score = score_from_tt(data.score, ply as i32);
        match data.flag {
            TTFlag::Exact => (Some(score), alpha, beta),
            TTFlag::LowerBound => {
                if score >= beta {
                    (Some(score), alpha, beta)
                } else if score > alpha {
                    (None, score, beta)
                } else {
                    (None, alpha, beta)
                }
            },
            TTFlag::UpperBound => {
                if score <= alpha {
                    (Some(score), alpha, beta)
                } else if score < beta {
                    (None, alpha, score)
                } else {
                    (None, alpha, beta)
                }
            },
        }
    } else {
        (None, alpha, beta)
    }
}

/// The remaining search depth as a termination measure.
pub open spec fn depth_measure(depth: i32) -> int {
    if depth > 0 {
        depth as int
    } else {
        0
    }
}

/// Alpha-beta search of `pos` to `depth` plies, `ply` plies below the root,
/// within the window (`alpha`, `beta`). Stores its result in `tt`.
#[verifier::spinoff_prover]
#[verifier::rlimit(80)]
pub fn search(
    pos: &Position,
    state: &mut SearchState,
    tt: &TranspositionTable,
    depth: i32,
    ply: usize,
    alpha: i32,
    beta: i32,
) -> (r: i32)
    requires
        node_ok(*pos, ply as int, alpha as int, beta as int),
        ply + depth_measure(depth) < MAX_PLY,
    ensures
        score_lo(alpha as int) <= r <= score_hi(beta as int),
        pos.spec_halfmove() >= 100 ==> r == 0,
        ply > 0 && insufficient_material(*pos) ==> r == 0,
        ply == 0 && depth >= 1 && (forall|m: Move| !legal_move(*pos, m, false)) ==> {
            &&& in_check_on(pos.board(), pos.spec_side()) ==> r == -MATE_SCORE || r == 0
            &&& !in_check_on(pos.board(), pos.spec_side()) ==> r == 0
        },
        old(state).halted@ ==> final(state).halted@,
        final(state).history == old(state).history,
        old(state).table_used@ ==> final(state).table_used@,
        !final(state).halted@ && !final(state).table_used@ && depth >= 1 && (forall|m: Move|
            !legal_move(*pos, m, false)) && !in_check_on(pos.board(), pos.spec_side()) ==> r == 0 || (
        depth >= 3 && ply > 0 && r == beta),
        !final(state).halted@ && !final(state).table_used@ && depth >= 1 && pos.spec_halfmove() < 100 && !(ply
            > 0 && insufficient_material(*pos)) && (forall|m: Move| !legal_move(*pos, m, false)) && in_check_on(
            pos.board(),
            pos.spec_side(),
        ) ==> r == -MATE_SCORE + ply,
        !final(state).halted@ && ply == 0 && depth >= 1 && pos.spec_halfmove() < 100 && (forall|m: Move|
            !legal_move(*pos, m, false)) ==> r == (if in_check_on(pos.board(), pos.spec_side()) {
            -MATE_SCORE
        } else {
            0
        }),
        !final(state).halted@ && ply == 0 && depth <= 0 && pos.spec_halfmove() < 100 ==> qs_outcome(
            *pos,
            alpha as int,
            beta as int,
            0,
            r as int,
        ),
        !final(state).halted@ && ply == 0 && depth <= 0 && pos.spec_halfmove() < 100 && q_uncrowded(*pos, 0)
            ==> fail_soft(r as int, qvalue(*pos, 0), alpha as int, beta as int),
    decreases depth_measure(depth),
{
    let mut a = alpha;
    let mut b = beta;
    let nodes = count_node(state);
    // Check stop flag every 2048 nodes
    if nodes & 0x7FF == 0 {
        if must_stop(state, nodes, true) {
            state.halted = Ghost(true);
            return 0;
        }
    }
    // Check for draw
    if pos.is_draw_by_fifty() || (ply > 0 && pos.is_draw_by_insufficient_material()) {
        return 0;
    }
    // TT Probe
    let tt_hit = tt.probe(pos.hash());
    let mut pv_move = Move::none();
    if let Some(data) = tt_hit {
        pv_move = data.best_move;
        let (cut, new_alpha, new_beta) = tt_cutoff(data, depth, ply, a, b);
        if let Some(score) = cut {
            state.table_used = Ghost(true);
            return score;
        }
        proof {
            if new_alpha != a || new_beta != b {
                state.table_used = Ghost(true);
            }
        }
        a = new_alpha;
        b = new_beta;
    }
    // Tablebase probe
    match &state.tablebase {
        Some(tb) => {
            if pos.occupancy().count() <= 6 {
                if let Some(wdl) = tb.probe_wdl(pos) {
                    let score = match wdl {
                        WdlResult::Win => TABLEBASE_WIN - ply as i32,
                        WdlResult::Loss => -TABLEBASE_WIN + ply as i32,
                        WdlResult::CursedWin => 1,
                        WdlResult::BlessedLoss => -1,
                        WdlResult::Draw => 0,
                    };
                    return score;
                }
            }
        },
        None => {},
    }
    // Null Move Pruning (not at the root, not in check, not with king and
    // pawns alone)
    if depth >= 3 && !pos.is_in_check(pos.side_to_move()) && ply > 0 {
        let us = pos.side_to_move();
        let non_pawn_pieces = pos.occupancy_color(us).0 & !(pos.pieces(us, Piece::Pawn).0 | pos.pieces(
            us,
            Piece::King,
        ).0);
        if non_pawn_pieces != 0 {
            let mut next_pos = *pos;
            next_pos.make_null_move();
            // Reduction: R=3
            let r: i32 = 3;
            let child = search(&next_pos, state, tt, depth - 1 - r, ply + 1, -b, -b + 1);
            let score = -child;
            if score >= b {
                return b;
            }
        }
    }
    if depth <= 0 {
        return quiescence(pos, state, a, b, 0);
    }
    let mut moves = generate_moves(pos);
    proof {
        if moves@.len() > 0 {
            assert(legal_move(*pos, moves@[0], false));
        }
    }
    if moves.is_empty() {
        if pos.is_in_check(pos.side_to_move()) {
            return -MATE_SCORE + ply as i32;
        } else {
            return 0;  // Stalemate
        }
    }
    proof {
        assert forall|i: int| 0 <= i < moves@.len() implies pos.board()[#[trigger] moves@[i].spec_from() as int] is Some by {
            assert(legal_move(*pos, moves@[i], false));
            lemma_pseudo_legal_from(*pos, moves@[i], false);
        }
    }
    let killers = state.killers.at(ply);
    let ghost before_order = moves@;
    order_moves(&mut moves, pv_move, &killers, &state.history, pos);
    proof {
        broadcast use vstd::seq_lib::to_multiset_contains;
        assert forall|i: int| 0 <= i < moves@.len() implies legal_move(*pos, #[trigger] moves@[i], false) by {
            assert(moves@.contains(moves@[i]));
            assert(moves@.to_multiset().count(moves@[i]) > 0);
            assert(before_order.to_multiset().count(moves@[i]) > 0);
            assert(before_order.contains(moves@[i]));
        }
    }
    let mut best_move = Move::none();
    let mut best_score = -INFINITY;
    let old_alpha = a;
    let n = moves.len();
    let mut i: usize = 0;
    let mut cutoff = false;
    while i < n && !cutoff
        invariant
            node_ok(*pos, ply as int, alpha as int, beta as int),
            ply + depth_measure(depth) < MAX_PLY,
            1 <= depth,
            n == moves@.len(),
            i <= n,
            forall|j: int| 0 <= j < moves@.len() ==> legal_move(*pos, #[trigger] moves@[j], false),
            alpha <= a,
            b <= beta,
            cutoff ==> a >= b,
            !cutoff ==> a < b,
            a <= score_hi(beta as int),
            score_lo(alpha as int) <= best_score <= score_hi(beta as int),
            old_alpha < b,
            old(state).halted@ ==> state.halted@,
            state.history == old(state).history,
            old(state).table_used@ ==> state.table_used@,
        decreases n - i,
    {
        let mv = moves.get(i);
        proof {
            lemma_pseudo_legal_move_ok(*pos, mv, false);
        }
        let mut next_pos = *pos;
        next_pos.make_move(mv);
        proof {
            lemma_pawns_ok_after(*pos, mv, false, next_pos);
        }
        let mut score: i32;
        if i == 0 {
            // Full window search for first move (PV move)
            score = -search(&next_pos, state, tt, depth - 1, ply + 1, -b, -a);
        } else {
            // Null window search for non-PV moves
            score = -search(&next_pos, state, tt, depth - 1, ply + 1, -a - 1, -a);
            if score > a && score < b {
                // Re-search with full window if it might be a new best move
                score = -search(&next_pos, state, tt, depth - 1, ply + 1, -b, -a);
            }
        }
        if stop_requested(state) {
            state.halted = Ghost(true);
            return 0;
        }
        if score > best_score {
            best_score = score;
            best_move = mv;
            if score > a {
                a = score;
                if score >= b {
                    // Killer move for quiet moves
                    if !is_capture_or_promotion(mv, pos) {
                        state.killers.store(ply, mv);
                    }
                    cutoff = true;
                }
            }
        }
        i = i + 1;
    }
    // TT Store
    let flag = if best_score >= b {
        TTFlag::LowerBound
    } else if best_score > old_alpha {
        TTFlag::Exact
    } else {
        TTFlag::UpperBound
    };
    tt.store(
        pos.hash(),
        TTData {
            depth: depth as i8,
            score: score_to_tt(best_score, ply as i32),
            flag,
            best_move,
            gen: 0,  // set by tt.store
        },
    );
    best_score
}

} // verus!
