//! The text side of the UCI protocol: telling the commands apart, reading
//! "go", "position" and "setoption" commands, and the texts of best moves
//! and scores. Reading and writing the streams is left to the caller.

use vstd::prelude::*;

use crate::board::Position;
use crate::board::fen::{
    digits_upto, fen_parse, is_space, parse_digits, parse_u32_spec, split_tokens, start_board, views,
};
use crate::movegen::{crowded, gen_ready, legal_move, lemma_pawns_ok_after, lemma_pseudo_legal_move_ok,
    pawns_ok, clocks_ok};
use crate::search::{line_from, made};
use crate::time::GoParams;
use crate::types::{CastlingRights, Color, Move, Piece, Square, same_chars, str_chars, chars_to_string};

verus! {

/// The whitespace-separated tokens of a command line.
pub fn command_tokens(line: &str) -> (t: Vec<Vec<char>>)
    ensures
        views(t@) == crate::board::fen::fen_tokens(line@),
{
    split_tokens(&str_chars(line))
}

/// Whether token `t` reads `word`.
fn token_is(t: &Vec<char>, word: &str) -> (b: bool)
    ensures
        b == (t@ == word@),
{
    same_chars(t, &str_chars(word))
}

/// `t` without a leading '+' (when more follows).
pub open spec fn strip_plus(t: Seq<char>) -> Seq<char> {
    if t.len() > 1 && t[0] == '+' {
        t.drop_first()
    } else {
        t
    }
}

/// A `u64` as `str::parse::<u64>` reads it.
pub open spec fn parse_u64_spec(t: Seq<char>) -> Option<u64> {
    match digits_upto(strip_plus(t), u64::MAX as int) {
        Some(v) => Some(v as u64),
        None => None,
    }
}

/// An `i32` as `str::parse::<i32>` reads it: an optional sign, then digits.
pub open spec fn parse_i32_spec(t: Seq<char>) -> Option<i32> {
    if t.len() > 1 && t[0] == '-' {
        match digits_upto(t.drop_first(), 0x8000_0000) {
            Some(v) => Some((-v) as i32),
            None => None,
        }
    } else {
        match digits_upto(strip_plus(t), 0x7FFF_FFFF) {
            Some(v) => Some(v as i32),
            None => None,
        }
    }
}

fn parse_u64(t: &Vec<char>) -> (r: Option<u64>)
    ensures
        r == parse_u64_spec(t@),
{
    let start: usize = if t.len() > 1 && t[0] == '+' { 1 } else { 0 };
    proof {
        assert(strip_plus(t@) =~= t@.subrange(start as int, t@.len() as int));
    }
    parse_digits(t, start, u64::MAX)
}

fn parse_u32_token(t: &Vec<char>) -> (r: Option<u32>)
    ensures
        r == parse_u32_spec(t@),
{
    let start: usize = if t.len() > 1 && t[0] == '+' { 1 } else { 0 };
    proof {
        assert(strip_plus(t@) =~= t@.subrange(start as int, t@.len() as int));
    }
    match parse_digits(t, start, 0xFFFF_FFFF) {
        Some(v) => Some(v as u32),
        None => None,
    }
}

fn parse_i32(t: &Vec<char>) -> (r: Option<i32>)
    ensures
        r == parse_i32_spec(t@),
{
    if t.len() > 1 && t[0] == '-' {
        proof {
            assert(t@.drop_first() =~= t@.subrange(1, t@.len() as int));
        }
        match parse_digits(t, 1, 0x8000_0000) {
            Some(v) => Some((0 - v as i64) as i32),
            None => None,
        }
    } else {
        let start: usize = if t.len() > 1 && t[0] == '+' { 1 } else { 0 };
        proof {
            assert(strip_plus(t@) =~= t@.subrange(start as int, t@.len() as int));
        }
        match parse_digits(t, start, 0x7FFF_FFFF) {
            Some(v) => Some(v as i32),
            None => None,
        }
    }
}

/// The "go" parameters read from token `i` on into `p`: each keyword takes
/// the next token as its value (unreadable values become `None`); a keyword
/// with no token after it, and unknown tokens, are skipped.
pub open spec fn go_from(toks: Seq<Seq<char>>, i: int, p: GoParams) -> GoParams
    decreases toks.len() - i,
{
    if i < 0 || i >= toks.len() {
        p
    } else {
        let has_value = i + 1 < toks.len();
        let t = toks[i];
        if t == "infinite"@ {
            go_from(toks, i + 1, GoParams { infinite: true, ..p })
        } else if t == "ponder"@ {
            go_from(toks, i + 1, GoParams { ponder: true, ..p })
        } else if !has_value {
            go_from(toks, i + 1, p)
        } else if t == "wtime"@ {
            go_from(toks, i + 2, GoParams { wtime: parse_u64_spec(toks[i + 1]), ..p })
        } else if t == "btime"@ {
            go_from(toks, i + 2, GoParams { btime: parse_u64_spec(toks[i + 1]), ..p })
        } else if t == "winc"@ {
            go_from(toks, i + 2, GoParams { winc: parse_u64_spec(toks[i + 1]), ..p })
        } else if t == "binc"@ {
            go_from(toks, i + 2, GoParams { binc: parse_u64_spec(toks[i + 1]), ..p })
        } else if t == "movestogo"@ {
            go_from(toks, i + 2, GoParams { movestogo: parse_u32_spec(toks[i + 1]), ..p })
        } else if t == "depth"@ {
            go_from(toks, i + 2, GoParams { depth: parse_i32_spec(toks[i + 1]), ..p })
        } else if t == "nodes"@ {
            go_from(toks, i + 2, GoParams { nodes: parse_u64_spec(toks[i + 1]), ..p })
        } else if t == "movetime"@ {
            go_from(toks, i + 2, GoParams { movetime: parse_u64_spec(toks[i + 1]), ..p })
        } else {
            go_from(toks, i + 1, p)
        }
    }
}

/// The defaults of a "go" command.
pub open spec fn go_defaults() -> GoParams {
    GoParams {
        wtime: None,
        btime: None,
        winc: None,
        binc: None,
        movestogo: None,
        depth: None,
        nodes: None,
        movetime: None,
        infinite: false,
        ponder: false,
    }
}

/// Reads the parameters of a "go" command (`tokens[0]` is "go").
#[verifier::spinoff_prover]
#[verifier::rlimit(40)]
pub fn parse_go(tokens: &Vec<Vec<char>>) -> (p: GoParams)
    ensures
        p == go_from(views(tokens@), 1, go_defaults()),
{
    let ghost toks = views(tokens@);
    let mut params = GoParams::default();
    let mut i: usize = 1;
    while i < tokens.len()
        invariant
            toks == views(tokens@),
            1 <= i <= tokens@.len() + 1,
            go_from(toks, i as int, params) == go_from(toks, 1, go_defaults()),
        decreases tokens@.len() + 1 - i,
    {
        let t = &tokens[i];
        proof {
            assert(toks[i as int] == tokens@[i as int]@);
            if i + 1 < tokens@.len() {
                assert(toks[i + 1] == tokens@[i + 1]@);
            }
        }
        let has_value = i + 1 < tokens.len();
        if token_is(t, "infinite") {
            params.infinite = true;
        } else if token_is(t, "ponder") {
            params.ponder = true;
        } else if !has_value {
        } else if token_is(t, "wtime") {
            params.wtime = parse_u64(&tokens[i + 1]);
            i = i + 1;
        } else if token_is(t, "btime") {
            params.btime = parse_u64(&tokens[i + 1]);
            i = i + 1;
        } else if token_is(t, "winc") {
            params.winc = parse_u64(&tokens[i + 1]);
            i = i + 1;
        } else if token_is(t, "binc") {
            params.binc = parse_u64(&tokens[i + 1]);
            i = i + 1;
        } else if token_is(t, "movestogo") {
            params.movestogo = parse_u32_token(&tokens[i + 1]);
            i = i + 1;
        } else if token_is(t, "depth") {
            params.depth = parse_i32(&tokens[i + 1]);
            i = i + 1;
        } else if token_is(t, "nodes") {
            params.nodes = parse_u64(&tokens[i + 1]);
            i = i + 1;
        } else if token_is(t, "movetime") {
            params.movetime = parse_u64(&tokens[i + 1]);
            i = i + 1;
        }
        i = i + 1;
    }
    params
}

/// Index of the first token from `i` on that reads `w`.
pub open spec fn first_index(toks: Seq<Seq<char>>, w: Seq<char>, i: int) -> Option<int>
    decreases toks.len() - i,
{
    if i < 0 || i >= toks.len() {
        None
    } else if toks[i] == w {
        Some(i)
    } else {
        first_index(toks, w, i + 1)
    }
}

/// Tokens `lo..hi` joined by single spaces.
pub open spec fn join_tokens(toks: Seq<Seq<char>>, lo: int, hi: int) -> Seq<char>
    decreases hi - lo,
{
    if hi <= lo {
        seq![]
    } else if hi == lo + 1 {
        toks[lo]
    } else {
        join_tokens(toks, lo, hi - 1) + seq![' '] + toks[hi - 1]
    }
}

/// The name and value of "setoption name <name> value <value>": the tokens
/// between the first "name" and the first "value", and those after it.
pub open spec fn setoption_spec(toks: Seq<Seq<char>>) -> Option<(Seq<char>, Seq<char>)> {
    match (first_index(toks, "name"@, 0), first_index(toks, "value"@, 0)) {
        (Some(ni), Some(vi)) => if vi <= ni {
            None
        } else {
            Some((join_tokens(toks, ni + 1, vi), join_tokens(toks, vi + 1, toks.len() as int)))
        },
        _ => None,
    }
}

fn find_token(tokens: &Vec<Vec<char>>, word: &str) -> (r: Option<usize>)
    ensures
        r matches Some(i) ==> i < tokens@.len() && first_index(views(tokens@), word@, 0) == Some(
            i as int,
        ),
        r is None ==> first_index(views(tokens@), word@, 0) is None,
{
    let ghost toks = views(tokens@);
    let mut i: usize = 0;
    while i < tokens.len()
        invariant
            toks == views(tokens@),
            i <= tokens@.len(),
            first_index(toks, word@, 0) == first_index(toks, word@, i as int),
        decreases tokens@.len() - i,
    {
        proof {
            assert(toks[i as int] == tokens@[i as int]@);
        }
        if token_is(&tokens[i], word) {
            return Some(i);
        }
        i = i + 1;
    }
    None
}

fn join_range(tokens: &Vec<Vec<char>>, lo: usize, hi: usize) -> (s: Vec<char>)
    requires
        lo <= hi <= tokens@.len(),
    ensures
        s@ == join_tokens(views(tokens@), lo as int, hi as int),
{
    let ghost toks = views(tokens@);
    let mut out: Vec<char> = Vec::new();
    let mut k: usize = lo;
    while k < hi
        invariant
            toks == views(tokens@),
            lo <= k <= hi <= tokens@.len(),
            out@ == join_tokens(toks, lo as int, k as int),
        decreases hi - k,
    {
        let ghost before = out@;
        if k > lo {
            out.push(' ');
        }
        let t = &tokens[k];
        let mut j: usize = 0;
        while j < t.len()
            invariant
                j <= t@.len(),
                out@ == (if k > lo { before + seq![' '] } else { before }) + t@.subrange(0, j as int),
            decreases t@.len() - j,
        {
            out.push(t[j]);
            j = j + 1;
            proof {
                assert(out@ =~= (if k > lo { before + seq![' '] } else { before }) + t@.subrange(0, j as int));
            }
        }
        proof {
            assert(t@.subrange(0, t@.len() as int) =~= t@);
            assert(toks[k as int] == t@);
            assert(out@ =~= join_tokens(toks, lo as int, k + 1));
        }
        k = k + 1;
    }
    out
}

/// Reads "setoption name <name> value <value>" (see `setoption_spec`).
pub fn parse_setoption(tokens: &Vec<Vec<char>>) -> (r: Option<(String, String)>)
    ensures
        match setoption_spec(views(tokens@)) {
            Some((n, v)) => r matches Some((rn, rv)) && rn@ == n && rv@ == v,
            None => r is None,
        },
{
    let ni = match find_token(tokens, "name") {
        Some(i) => i,
        None => {
            return None;
        },
    };
    let vi = match find_token(tokens, "value") {
        Some(i) => i,
        None => {
            return None;
        },
    };
    if vi <= ni {
        return None;
    }
    let n = tokens.len();
    let name = join_range(tokens, ni + 1, vi);
    let value = join_range(tokens, vi + 1, n);
    Some((chars_to_string(&name), chars_to_string(&value)))
}

/// The text of a best move: "0000" for no move, else its UCI text.
pub open spec fn bestmove_spec(mv: Move) -> Seq<char> {
    if mv.0 == 0 {
        seq!['0', '0', '0', '0']
    } else {
        mv.spec_uci()
    }
}

pub fn bestmove_text(mv: Move) -> (s: String)
    ensures
        s@ == bestmove_spec(mv),
{
    if mv.0 == 0 {
        let v: Vec<char> = vec!['0', '0', '0', '0'];
        proof {
            assert(v@ =~= seq!['0', '0', '0', '0']);
        }
        chars_to_string(&v)
    } else {
        mv.to_uci()
    }
}

/// How a score is reported: `(true, n)` for mate in `n` moves (negative when
/// being mated), `(false, cp)` for centipawns.
pub open spec fn report_spec(score: i32) -> (bool, int) {
    let a = if score < 0 { -score } else { score as int };
    if a > 29000 {
        let n = crate::eval::trunc_div(30000 - a + 1, 2);
        (true, if score > 0 { n } else { -n })
    } else {
        (false, score as int)
    }
}

pub fn score_report(score: i32) -> (r: (bool, i32))
    requires
        score > i32::MIN,
    ensures
        r.0 == report_spec(score).0,
        r.1 == report_spec(score).1,
{
    let a = if score < 0 { -score } else { score };
    if a > 29000 {
        let n = (30000 - a + 1) / 2;
        (true, if score > 0 { n } else { -n })
    } else {
        (false, score)
    }
}

/// Nodes per second: `nodes * 1000 / time` for a positive time, else 0
/// (wrapping in 64 bits, as the report does).
pub fn nodes_per_second(nodes: u64, time: u128) -> (r: u64)
    ensures
        time == 0 ==> r == 0,
        time > 0 && time <= u64::MAX ==> r == (nodes.wrapping_mul(1000) / (time as u64)) as u64,
{
    if time > 0 {
        let t = time as u64;
        if t == 0 {
            0
        } else {
            nodes.wrapping_mul(1000) / t
        }
    } else {
        0
    }
}

#[derive(Debug, PartialEq, Eq, Structural)]
pub enum PositionCommandError {
    /// A move of the command is not legal where it is played.
    InvalidMove,
}

/// Index of the first token at or after `i` that reads "moves" (or the end).
pub open spec fn moves_index(toks: Seq<Seq<char>>, i: int) -> int
    decreases toks.len() - i,
{
    if i < 0 || i >= toks.len() {
        toks.len() as int
    } else if toks[i] == "moves"@ {
        i
    } else {
        moves_index(toks, i + 1)
    }
}

/// Where the base position of a "position" command ends.
pub open spec fn base_end(toks: Seq<Seq<char>>) -> int {
    if toks[1] == "startpos"@ {
        2
    } else if toks[1] == "fen"@ {
        moves_index(toks, 2)
    } else {
        1
    }
}

/// `b` has the fields a FEN parse gave.
pub open spec fn has_fen_fields(
    b: Position,
    f: (Seq<Option<(Color, Piece)>>, Color, u8, Option<Square>, u32, u32),
) -> bool {
    &&& b.wf()
    &&& b.board() == f.0
    &&& b.spec_side() == f.1
    &&& b.spec_castling() == f.2
    &&& b.spec_ep() == f.3
    &&& b.spec_halfmove() == f.4
    &&& b.spec_fullmove() == f.5
}

/// `b` is the base position of a "position" command in `current`: the
/// starting position for "startpos", the FEN for "fen" (the current
/// position when the FEN is invalid), else the current position.
pub open spec fn base_ok(toks: Seq<Seq<char>>, current: Position, b: Position) -> bool {
    if toks[1] == "startpos"@ {
        has_fen_fields(b, (start_board(), Color::White, CastlingRights::ALL, None, 0, 1))
    } else if toks[1] == "fen"@ {
        match fen_parse(join_tokens(toks, 2, moves_index(toks, 2))) {
            Ok(f) => has_fen_fields(b, f),
            Err(_) => b == current,
        }
    } else {
        b == current
    }
}

/// The move texts of a "position" command: the tokens after "moves".
pub open spec fn move_texts(toks: Seq<Seq<char>>) -> Seq<Seq<char>> {
    let e = base_end(toks);
    if e < toks.len() && toks[e] == "moves"@ {
        toks.subrange(e + 1, toks.len() as int)
    } else {
        Seq::empty()
    }
}

/// Applies a "position" command to `current`: the base position, then the
/// listed moves. All or nothing: when a move is not legal where it is
/// played, the result is an error and the caller keeps its position.
#[verifier::spinoff_prover]
#[verifier::rlimit(40)]
pub fn apply_position_command(tokens: &Vec<Vec<char>>, current: &Position) -> (r: Result<
    Position,
    PositionCommandError,
>)
    requires
        current.wf(),
    ensures
        tokens@.len() < 2 ==> r == Ok::<Position, PositionCommandError>(*current),
        r matches Ok(p) ==> p.wf(),
        tokens@.len() >= 2 && r is Ok ==> exists|b: Position, chain: Seq<Position>, mvs: Seq<Move>|
            {
                &&& base_ok(views(tokens@), *current, b)
                &&& line_from(b, chain, mvs)
                &&& chain.last() == r->Ok_0
                &&& mvs.len() == move_texts(views(tokens@)).len()
                &&& forall|i: int| 0 <= i < mvs.len() ==> #[trigger] mvs[i].spec_uci() == move_texts(views(tokens@))[i]
            },
        r is Err ==> tokens@.len() >= 2 && exists|b: Position, chain: Seq<Position>, mvs: Seq<Move>|
            {
                &&& base_ok(views(tokens@), *current, b)
                &&& line_from(b, chain, mvs)
                &&& mvs.len() < move_texts(views(tokens@)).len()
                &&& forall|i: int| 0 <= i < mvs.len() ==> #[trigger] mvs[i].spec_uci() == move_texts(views(tokens@))[i]
                &&& (gen_ready(chain.last()) && !crowded(chain.last(), false)) ==> forall|m: Move|
                    legal_move(chain.last(), m, false) ==> m.spec_uci() != move_texts(views(tokens@))[mvs.len() as int]
            },
{
    let ghost toks = views(tokens@);
    let n = tokens.len();
    if n < 2 {
        return Ok(*current);
    }
    proof {
        assert(toks[1] == tokens@[1]@);
    }
    let mut idx: usize = 1;
    let mut pos = *current;
    if token_is(&tokens[1], "startpos") {
        pos = Position::startpos();
        idx = 2;
    } else if token_is(&tokens[1], "fen") {
        idx = 2;
        let mut fen: Vec<char> = Vec::new();
        let ghost mut k0: int = 2;
        while idx < n && !token_is(&tokens[idx], "moves")
            invariant
                toks == views(tokens@),
                n == tokens@.len(),
                2 <= idx <= n,
                toks[1] == "fen"@,
                fen@ == join_tokens(toks, 2, idx as int),
                moves_index(toks, 2) == moves_index(toks, idx as int),
            decreases n - idx,
        {
            proof {
                assert(toks[idx as int] == tokens@[idx as int]@);
            }
            let ghost before = fen@;
            if idx > 2 {
                fen.push(' ');
            }
            let t = &tokens[idx];
            let mut j: usize = 0;
            while j < t.len()
                invariant
                    j <= t@.len(),
                    fen@ == (if idx > 2 { before + seq![' '] } else { before }) + t@.subrange(0, j as int),
                decreases t@.len() - j,
            {
                fen.push(t[j]);
                j = j + 1;
                proof {
                    assert(fen@ =~= (if idx > 2 { before + seq![' '] } else { before }) + t@.subrange(0, j as int));
                }
            }
            proof {
                assert(t@.subrange(0, t@.len() as int) =~= t@);
                assert(fen@ =~= join_tokens(toks, 2, idx + 1));
            }
            idx = idx + 1;
        }
        proof {
            if idx < n {
                assert(toks[idx as int] == tokens@[idx as int]@);
            }
            assert(moves_index(toks, 2) == idx);
        }
        let text = chars_to_string(&fen);
        match Position::from_fen(text.as_str()) {
            Ok(p) => {
                pos = p;
            },
            Err(_) => {},
        }
    }
    let ghost base = pos;
    proof {
        assert(base_ok(toks, *current, base));
        assert(base_end(toks) == idx);
    }
    let ghost mut chain: Seq<Position> = seq![base];
    let ghost mut mvs: Seq<Move> = Seq::empty();
    if idx < n && token_is(&tokens[idx], "moves") {
        proof {
            assert(toks[idx as int] == tokens@[idx as int]@);
        }
        let first = idx + 1;
        idx = idx + 1;
        while idx < n
            invariant
                toks == views(tokens@),
                n == tokens@.len(),
                first <= idx <= n,
                first == base_end(toks) + 1,
                base_end(toks) < n,
                toks[base_end(toks)] == "moves"@,
                pos.wf(),
                base_ok(toks, *current, base),
                line_from(base, chain, mvs),
                chain.last() == pos,
                mvs.len() == idx - first,
                forall|i: int| 0 <= i < mvs.len() ==> #[trigger] mvs[i].spec_uci() == toks[first + i],
            decreases n - idx,
        {
            proof {
                assert(move_texts(toks) =~= toks.subrange(first as int, n as int));
                assert(move_texts(toks)[mvs.len() as int] == toks[idx as int]);
                assert forall|i: int| 0 <= i < mvs.len() implies #[trigger] mvs[i].spec_uci() == move_texts(toks)[i] by {
                    assert(move_texts(toks)[i] == toks[first + i]);
                }
            }
            if !crate::movegen::is_gen_ready(&pos) {
                return Err(PositionCommandError::InvalidMove);
            }
            let text = chars_to_string(&tokens[idx]);
            match pos.parse_move(text.as_str()) {
                Some(mv) => {
                    proof {
                        lemma_pseudo_legal_move_ok(pos, mv, false);
                        assert(toks[idx as int] == tokens@[idx as int]@);
                    }
                    let ghost before = pos;
                    pos.make_move(mv);
                    proof {
                        let new_chain = chain.push(pos);
                        let new_mvs = mvs.push(mv);
                        assert forall|i: int| 0 <= i < new_mvs.len() implies legal_move(
                            new_chain[i],
                            #[trigger] new_mvs[i],
                            false,
                        ) && made(new_chain[i], new_mvs[i], new_chain[i + 1]) by {
                            if i < mvs.len() {
                                assert(new_mvs[i] == mvs[i]);
                                assert(new_chain[i] == chain[i]);
                                assert(new_chain[i + 1] == chain[i + 1]);
                            }
                        }
                        assert forall|i: int| 0 <= i < new_mvs.len() implies #[trigger] new_mvs[i].spec_uci()
                            == toks[first + i] by {
                            if i < mvs.len() {
                                assert(new_mvs[i] == mvs[i]);
                            }
                        }
                        chain = new_chain;
                        mvs = new_mvs;
                    }
                },
                None => {
                    proof {
                        assert(toks[idx as int] == tokens@[idx as int]@);
                    }
                    return Err(PositionCommandError::InvalidMove);
                },
            }
            idx = idx + 1;
        }
        proof {
            assert(move_texts(toks) =~= toks.subrange(first as int, n as int));
            assert forall|i: int| 0 <= i < mvs.len() implies #[trigger] mvs[i].spec_uci() == move_texts(toks)[i] by {
                assert(move_texts(toks)[i] == toks[first + i]);
            }
        }
    } else {
        proof {
            if idx < n {
                assert(toks[idx as int] == tokens@[idx as int]@);
            }
            assert(move_texts(toks) =~= Seq::<Seq<char>>::empty());
        }
    }
    proof {
        assert(base_ok(toks, *current, base));
        assert(line_from(base, chain, mvs));
        assert(chain.last() == pos);
        assert(mvs.len() == move_texts(toks).len());
        assert(forall|i: int| 0 <= i < mvs.len() ==> #[trigger] mvs[i].spec_uci() == move_texts(toks)[i]);
    }
    Ok(pos)
}

/// The commands of the UCI protocol the engine answers.
#[derive(Clone, Copy, Debug, PartialEq, Eq, Structural)]
pub enum UciCommand {
    Uci,
    IsReady,
    UciNewGame,
    SetOption,
    Position,
    Go,
    Stop,
    PonderHit,
    Quit,
    Unknown,
}

/// The command a first word names.
pub open spec fn command_of(word: Seq<char>) -> UciCommand {
    if word == "uci"@ {
        UciCommand::Uci
    } else if word == "isready"@ {
        UciCommand::IsReady
    } else if word == "ucinewgame"@ {
        UciCommand::UciNewGame
    } else if word == "setoption"@ {
        UciCommand::SetOption
    } else if word == "position"@ {
        UciCommand::Position
    } else if word == "go"@ {
        UciCommand::Go
    } else if word == "stop"@ {
        UciCommand::Stop
    } else if word == "ponderhit"@ {
        UciCommand::PonderHit
    } else if word == "quit"@ {
        UciCommand::Quit
    } else {
        UciCommand::Unknown
    }
}

/// The command of a tokenized line: `None` for an empty line, else the
/// command its first word names.
pub fn classify_command(tokens: &Vec<Vec<char>>) -> (c: Option<UciCommand>)
    ensures
        tokens@.len() == 0 ==> c is None,
        tokens@.len() > 0 ==> c == Some(command_of(tokens@[0]@)),
{
    if tokens.len() == 0 {
        return None;
    }
    let w = &tokens[0];
    let c = if token_is(w, "uci") {
        UciCommand::Uci
    } else if token_is(w, "isready") {
        UciCommand::IsReady
    } else if token_is(w, "ucinewgame") {
        UciCommand::UciNewGame
    } else if token_is(w, "setoption") {
        UciCommand::SetOption
    } else if token_is(w, "position") {
        UciCommand::Position
    } else if token_is(w, "go") {
        UciCommand::Go
    } else if token_is(w, "stop") {
        UciCommand::Stop
    } else if token_is(w, "ponderhit") {
        UciCommand::PonderHit
    } else if token_is(w, "quit") {
        UciCommand::Quit
    } else {
        UciCommand::Unknown
    };
    Some(c)
}

/// A `usize` as `str::parse::<usize>` reads it.
pub open spec fn parse_usize_spec(t: Seq<char>) -> Option<usize> {
    match digits_upto(strip_plus(t), usize::MAX as int) {
        Some(v) => Some(v as usize),
        None => None,
    }
}

fn parse_usize(t: &Vec<char>) -> (r: Option<usize>)
    ensures
        r == parse_usize_spec(t@),
{
    let start: usize = if t.len() > 1 && t[0] == '+' { 1 } else { 0 };
    proof {
        assert(strip_plus(t@) =~= t@.subrange(start as int, t@.len() as int));
    }
    match parse_digits(t, start, usize::MAX as u64) {
        Some(v) => Some(v as usize),
        None => None,
    }
}

/// What a "setoption" asks of the engine.
pub enum OptionChange {
    /// Resize the hash table to this many megabytes.
    Hash(usize),
    /// Search with this many threads.
    Threads(usize),
    /// Use the opening book at this path (`None`: no book).
    BookPath(Option<String>),
    /// Use the endgame tablebases at this path (`None`: none).
    SyzygyPath(Option<String>),
    /// Nothing: an unknown option, or a number that does not read.
    Ignored,
}

/// A path value: empty or "<empty>" stands for no path.
pub open spec fn path_value(v: Seq<char>) -> Option<Seq<char>> {
    if v.len() == 0 || v == "<empty>"@ {
        None
    } else {
        Some(v)
    }
}

/// The change that option `name` set to `value` asks for.
pub fn option_change(name: &str, value: &str) -> (r: OptionChange)
    ensures
        name@ == "Hash"@ ==> match parse_usize_spec(value@) {
            Some(n) => r matches OptionChange::Hash(m) && m == n,
            None => r is Ignored,
        },
        name@ == "Threads"@ ==> match parse_usize_spec(value@) {
            Some(n) => r matches OptionChange::Threads(m) && m == n,
            None => r is Ignored,
        },
        name@ == "BookPath"@ ==> match path_value(value@) {
            Some(p) => r matches OptionChange::BookPath(Some(q)) && q@ == p,
            None => r matches OptionChange::BookPath(None),
        },
        name@ == "SyzygyPath"@ ==> match path_value(value@) {
            Some(p) => r matches OptionChange::SyzygyPath(Some(q)) && q@ == p,
            None => r matches OptionChange::SyzygyPath(None),
        },
        name@ != "Hash"@ && name@ != "Threads"@ && name@ != "BookPath"@ && name@ != "SyzygyPath"@ ==> r is Ignored,
{
    proof {
        reveal_strlit("Hash");
        reveal_strlit("Threads");
        reveal_strlit("BookPath");
        reveal_strlit("SyzygyPath");
        assert("Hash"@.len() == 4 && "Threads"@.len() == 7 && "BookPath"@.len() == 8 && "SyzygyPath"@.len() == 10);
    }
    let n = str_chars(name);
    let v = str_chars(value);
    let is_path_none = v.len() == 0 || token_is(&v, "<empty>");
    if token_is(&n, "Hash") {
        match parse_usize(&v) {
            Some(size) => OptionChange::Hash(size),
            None => OptionChange::Ignored,
        }
    } else if token_is(&n, "Threads") {
        match parse_usize(&v) {
            Some(count) => OptionChange::Threads(count),
            None => OptionChange::Ignored,
        }
    } else if token_is(&n, "BookPath") {
        if is_path_none {
            OptionChange::BookPath(None)
        } else {
            OptionChange::BookPath(Some(chars_to_string(&v)))
        }
    } else if token_is(&n, "SyzygyPath") {
        if is_path_none {
            OptionChange::SyzygyPath(None)
        } else {
            OptionChange::SyzygyPath(Some(chars_to_string(&v)))
        }
    } else {
        OptionChange::Ignored
    }
}

} // verus!
