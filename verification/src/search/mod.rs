pub mod alphabeta;
pub mod minimax;
pub mod ordering;
pub mod smp;
pub mod tt;

use vstd::prelude::*;
use std::sync::atomic::{AtomicBool, AtomicU64};
use std::sync::Arc;

use crate::board::Position;
use crate::movegen::{crowded, gen_ready, generate_moves, legal_move, lemma_pawns_ok_after,
    lemma_pseudo_legal_move_ok, pawns_ok};
use crate::search::alphabeta::{clock_room, search, SearchState, INFINITY, MATE_SCORE, MAX_QPLY};
use crate::search::ordering::MAX_PLY;
use crate::search::tt::{TTData, TranspositionTable};
use crate::tablebase::SyzygyTablebase;
use crate::types::{Color, Move};
use crate::eval::EVAL_BOUND;

verus! {

#[derive(Clone, Copy, Debug)]
pub struct SearchLimits {
    pub depth: Option<i32>,
    pub movetime: Option<u64>,
    pub nodes: Option<u64>,
    pub infinite: bool,
    pub ponder: bool,
}

impl Default for SearchLimits {
    fn default() -> (l: SearchLimits)
        ensures
            l.depth is None,
            l.movetime is None,
            l.nodes is None,
            !l.infinite,
            !l.ponder,
    {
        SearchLimits { depth: None, movetime: None, nodes: None, infinite: false, ponder: false }
    }
}

pub struct SearchInfo {
    pub depth: i32,
    pub nodes: u64,
    pub score: i32,
    pub time: u128,
    pub pv: Vec<Move>,
}

pub struct SearchResult {
    pub best_move: Move,
    pub score: i32,
    pub ponder_move: Option<Move>,
}

/// `post` is what `make_move` gives for `mv` in `pre`.
pub open spec fn made(pre: Position, mv: Move, post: Position) -> bool {
    &&& post.wf()
    &&& post.board() == pre.board_after(mv)
    &&& post.spec_side() == pre.spec_side().spec_opposite()
    &&& post.spec_castling() == pre.castling_after(mv)
    &&& post.spec_ep() == pre.ep_after(mv)
    &&& post.spec_halfmove() == pre.halfmove_after(mv)
    &&& post.spec_fullmove() == (if pre.spec_side() == Color::Black {
        pre.spec_fullmove() + 1
    } else {
        pre.spec_fullmove() as int
    })
}

/// `chain` walks the line `pv` from `pos`: each move is legal where it is
/// played and leads to the next position.
pub open spec fn line_from(pos: Position, chain: Seq<Position>, pv: Seq<Move>) -> bool {
    &&& chain.len() == pv.len() + 1
    &&& chain[0] == pos
    &&& forall|i: int|
        0 <= i < pv.len() ==> legal_move(chain[i], #[trigger] pv[i], false) && made(
            chain[i],
            pv[i],
            chain[i + 1],
        )
}

/// The principal variation: the table's best moves from `pos`, followed as
/// long as each is legal, at most `depth` of them.
#[verifier::spinoff_prover]
pub fn get_pv(pos: &Position, tt: &TranspositionTable, depth: i32) -> (pv: Vec<Move>)
    requires
        pos.wf(),
        pawns_ok(*pos),
        clock_room(*pos, depth as int + 1),
    ensures
        pv@.len() <= (if depth > 0 { depth as int } else { 0 }),
        exists|chain: Seq<Position>| line_from(*pos, chain, pv@),
{
    let mut pv: Vec<Move> = Vec::new();
    let mut current_pos = *pos;
    let ghost mut chain: Seq<Position> = seq![*pos];
    let mut k: i32 = 0;
    let mut done = false;
    while k < depth && !done
        invariant
            0 <= k,
            k <= depth || (k == 0 && depth <= 0),
            pv@.len() == k || (done && pv@.len() <= k),
            pv@.len() <= k,
            current_pos.wf(),
            pawns_ok(current_pos),
            clock_room(current_pos, depth - pv@.len() + 1),
            line_from(*pos, chain, pv@),
            chain[pv@.len() as int] == current_pos,
        decreases depth - k,
    {
        match tt.probe(current_pos.hash()) {
            Some(data) => {
                let mv = data.best_move;
                if mv == Move::none() {
                    done = true;
                } else {
                    // Simple legality check
                    let moves = generate_moves(&current_pos);
                    let mut found = false;
                    let mut i: usize = 0;
                    while i < moves.len()
                        invariant
                            i <= moves@.len(),
                            found ==> legal_move(current_pos, mv, false),
                            forall|j: int| 0 <= j < moves@.len() ==> legal_move(current_pos, #[trigger] moves@[j], false),
                        decreases moves@.len() - i,
                    {
                        if moves.get(i) == mv {
                            found = true;
                        }
                        i = i + 1;
                    }
                    if !found {
                        done = true;
                    } else {
                        proof {
                            lemma_pseudo_legal_move_ok(current_pos, mv, false);
                        }
                        let ghost before = current_pos;
                        let ghost old_pv = pv@;
                        pv.push(mv);
                        current_pos.make_move(mv);
                        proof {
                            lemma_pawns_ok_after(before, mv, false, current_pos);
                            let new_chain = chain.push(current_pos);
                            assert forall|i: int| 0 <= i < pv@.len() implies legal_move(new_chain[i], #[trigger] pv@[i], false) && made(new_chain[i], pv@[i], new_chain[i + 1]) by {
                                if i < old_pv.len() {
                                    assert(pv@[i] == old_pv[i]);
                                    assert(new_chain[i] == chain[i]);
                                    assert(new_chain[i + 1] == chain[i + 1]);
                                }
                            }
                            chain = new_chain;
                        }
                    }
                }
            },
            None => {
                done = true;
            },
        }
        k = k + 1;
    }
    pv
}

/// The deepest iteration of a search under `limits`: the depth limit, or
/// 100 without one.
pub open spec fn depth_cap(limits: SearchLimits) -> int {
    match limits.depth {
        Some(d) => d as int,
        None => 100,
    }
}

/// The best move and score after an iteration that scored `score`, given
/// whether the search was `stopped` and the table entry `hit` of the root,
/// from the previous `best_move` and `best_score`. A stopped iteration keeps
/// the previous pair unless the entry names a move, whose move and stored
/// score it then takes. A completed iteration takes `score`, and the entry's
/// move when there is an entry.
pub open spec fn iteration_spec(stopped: bool, score: i32, hit: Option<TTData>, best_move: Move, best_score: i32) -> (
    Move,
    i32,
) {
    if stopped {
        match hit {
            Some(d) => if d.best_move.0 != 0 {
                (d.best_move, d.score as i32)
            } else {
                (best_move, best_score)
            },
            None => (best_move, best_score),
        }
    } else {
        match hit {
            Some(d) => (d.best_move, score),
            None => (best_move, score),
        }
    }
}

/// The update of the best move and score after each iteration (see
/// `iteration_spec`).
pub fn iteration_result(stopped: bool, score: i32, hit: Option<TTData>, best_move: Move, best_score: i32) -> (r: (
    Move,
    i32,
))
    ensures
        r == iteration_spec(stopped, score, hit, best_move, best_score),
{
    if stopped {
        match hit {
            Some(data) => {
                if data.best_move != Move::none() {
                    (data.best_move, data.score as i32)
                } else {
                    (best_move, best_score)
                }
            },
            None => (best_move, best_score),
        }
    } else {
        match hit {
            Some(data) => (data.best_move, score),
            None => (best_move, score),
        }
    }
}

/// Whether `s` is a mate score (beyond `MATE_SCORE - 1000` either way).
pub fn is_mate_score(s: i32) -> (b: bool)
    ensures
        b == (s > MATE_SCORE - 1000 || s < -(MATE_SCORE - 1000)),
{
    s > MATE_SCORE - 1000 || s < -(MATE_SCORE - 1000)
}

/// Iterative deepening from `start_depth` to the depth limit (100 without
/// one): each iteration searches the full window, reports a `SearchInfo`,
/// and the loop ends when the search is stopped or a mate is found.
#[verifier::spinoff_prover]
pub fn iterative_deepening(
    pos: &Position,
    tt: &TranspositionTable,
    limits: &SearchLimits,
    stop: &AtomicBool,
    pondering: &AtomicBool,
    tablebase: Option<Arc<SyzygyTablebase>>,
    start_depth: i32,
    info_callback: impl Fn(SearchInfo),
) -> (r: SearchResult)
    requires
        pos.wf(),
        pawns_ok(*pos),
        clock_room(*pos, MAX_PLY + MAX_QPLY + 2),
        limits.depth matches Some(d) ==> d < MAX_PLY,
        forall|info: SearchInfo| info_callback.requires((info,)),
    ensures
        -EVAL_BOUND <= r.score <= EVAL_BOUND,
        r.ponder_move matches Some(m) ==> exists|chain: Seq<Position>, line: Seq<Move>|
            line_from(*pos, chain, line) && line.len() >= 2 && line[1] == m,
        start_depth > depth_cap(*limits) ==> {
            &&& r.score == 0
            &&& r.ponder_move is None
            &&& r.best_move.0 == 0 || legal_move(*pos, r.best_move, false)
            &&& (forall|m: Move| !legal_move(*pos, m, false)) ==> r.best_move.0 == 0
            &&& !crowded(*pos, false) && (exists|m: Move| legal_move(*pos, m, false)) ==> legal_move(
                *pos,
                r.best_move,
                false,
            )
        },
{
    let start_time = alphabeta::now_instant();
    let nodes = AtomicU64::new(0);
    let mut state = SearchState::new(stop, pondering, &nodes, limits.movetime, limits.nodes);
    state.tablebase = tablebase;
    let mut best_score: i32 = 0;
    let mut best_move = {
        let moves = generate_moves(pos);
        proof {
            if moves@.len() > 0 {
                assert(legal_move(*pos, moves@[0], false));
            }
            if !crowded(*pos, false) && (exists|m: Move| legal_move(*pos, m, false)) {
                let m = choose|m: Move| legal_move(*pos, m, false);
                assert(moves@.contains(m));
            }
        }
        if moves.is_empty() {
            Move::none()
        } else {
            moves.get(0)
        }
    };
    let ghost first_move = best_move;
    let mut ponder_move: Option<Move> = None;
    let max_depth: i32 = match limits.depth {
        Some(d) => d,
        None => 100,
    };
    let mut depth: i32 = start_depth;
    let mut finished = false;
    while depth <= max_depth && !finished
        invariant
            pos.wf(),
            pawns_ok(*pos),
            clock_room(*pos, MAX_PLY + MAX_QPLY + 2),
            max_depth < MAX_PLY,
            -EVAL_BOUND <= best_score <= EVAL_BOUND,
            forall|info: SearchInfo| info_callback.requires((info,)),
            ponder_move matches Some(m) ==> exists|chain: Seq<Position>, line: Seq<Move>|
                line_from(*pos, chain, line) && line.len() >= 2 && line[1] == m,
            max_depth == depth_cap(*limits),
            depth == start_depth ==> best_score == 0 && ponder_move is None && best_move == first_move,
            depth >= start_depth,
            start_depth > max_depth ==> depth == start_depth,
            first_move.0 == 0 || legal_move(*pos, first_move, false),
            (forall|m: Move| !legal_move(*pos, m, false)) ==> first_move.0 == 0,
            !crowded(*pos, false) && (exists|m: Move| legal_move(*pos, m, false)) ==> legal_move(
                *pos,
                first_move,
                false,
            ),
        decreases MAX_PLY - depth,
    {
        let score = search(pos, &mut state, tt, depth, 0, -INFINITY, INFINITY);
        let stopped = alphabeta::stop_flag(stop);
        let hit = tt.probe(pos.hash());
        let (next_move, next_score) = iteration_result(stopped, score, hit, best_move, best_score);
        best_move = next_move;
        best_score = next_score;
        if stopped {
            finished = true;
        } else {
            let pv = get_pv(pos, tt, depth);
            if pv.len() >= 2 {
                ponder_move = Some(pv[1]);
            } else {
                ponder_move = None;
            }
            let info = SearchInfo {
                depth,
                nodes: alphabeta::node_count(&nodes),
                score: best_score,
                time: alphabeta::millis_since(&start_time),
                pv,
            };
            info_callback(info);
            if alphabeta::stop_flag(stop) {
                finished = true;
            }
            // If we found mate, we can stop
            if is_mate_score(best_score) {
                finished = true;
            }
        }
        depth = depth + 1;
    }
    SearchResult { best_move, score: best_score, ponder_move }
}

} // verus!
