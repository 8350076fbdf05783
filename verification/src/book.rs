//! Polyglot opening books: keys, move decoding and weighted choice of a
//! book move. Reading the book file is left to the caller.

use vstd::prelude::*;
use vstd::std_specs::convert::FromSpecImpl;
use shakmaty::zobrist::ZobristHash;
use rand::Rng;

use crate::board::Position;
use crate::board::fen::fen_text;
use crate::types::{Move, Piece, Square, move_bits};

verus! {

#[derive(Debug)]
pub enum BookError {
    Io(std::io::Error),
    InvalidFile,
}

impl From<std::io::Error> for BookError {
    fn from(err: std::io::Error) -> (r: BookError) {
        BookError::Io(err)
    }
}

impl FromSpecImpl<std::io::Error> for BookError {
    open spec fn obeys_from_spec() -> bool {
        true
    }

    open spec fn from_spec(v: std::io::Error) -> BookError {
        BookError::Io(v)
    }
}

/// One 16-byte book entry.
#[derive(Clone, Copy, Debug)]
pub struct BookEntry {
    pub key: u64,
    pub raw_move: u16,
    pub weight: u16,
    pub learn: u32,
}

/// Big-endian value of `b[lo..hi]`.
pub open spec fn be_value(b: Seq<u8>, lo: int, hi: int) -> int
    decreases hi - lo,
{
    if hi <= lo {
        0
    } else {
        be_value(b, lo, hi - 1) * 256 + b[hi - 1]
    }
}

proof fn lemma_be_value_bound(b: Seq<u8>, lo: int, hi: int)
    requires
        0 <= lo <= hi <= b.len(),
    ensures
        0 <= be_value(b, lo, hi) < vstd::arithmetic::power2::pow2(8 * (hi - lo) as nat),
    decreases hi - lo,
{
    vstd::arithmetic::power2::lemma2_to64();
    if hi > lo {
        lemma_be_value_bound(b, lo, hi - 1);
        vstd::arithmetic::power2::lemma_pow2_adds(8 * (hi - 1 - lo) as nat, 8);
        let p = vstd::arithmetic::power2::pow2(8 * (hi - 1 - lo) as nat);
        assert(be_value(b, lo, hi - 1) * 256 + b[hi - 1] < p * 256) by (nonlinear_arith)
            requires
                be_value(b, lo, hi - 1) < p,
                b[hi - 1] < 256,
        ;
    }
}

/// Big-endian value of `b[lo..lo+n]` as a `u64`.
fn read_be(b: &[u8; 16], lo: usize, n: usize) -> (v: u64)
    requires
        lo + n <= 16,
        n <= 8,
    ensures
        v == be_value(b@, lo as int, lo + n),
{
    let mut v: u64 = 0;
    let mut i: usize = 0;
    proof {
        vstd::arithmetic::power2::lemma2_to64();
    }
    while i < n
        invariant
            i <= n,
            lo + n <= 16,
            n <= 8,
            v == be_value(b@, lo as int, lo + i),
        decreases n - i,
    {
        proof {
            lemma_be_value_bound(b@, lo as int, lo + i);
            vstd::arithmetic::power2::lemma2_to64_rest();
            if 8 * i < 56 {
                vstd::arithmetic::power2::lemma_pow2_strictly_increases(8 * i as nat, 56);
            }
            assert(v < 0x100000000000000);
            assert(v * 256 + 255 <= u64::MAX) by (nonlinear_arith)
                requires
                    v < 0x100000000000000,
            ;
        }
        v = v * 256 + b[lo + i] as u64;
        i = i + 1;
    }
    v
}

/// The entry stored in 16 bytes: key (8 bytes), move (2), weight (2),
/// learn (4), each big-endian.
pub fn entry_from_bytes(b: &[u8; 16]) -> (e: BookEntry)
    ensures
        e.key == be_value(b@, 0, 8),
        e.raw_move == be_value(b@, 8, 10),
        e.weight == be_value(b@, 10, 12),
        e.learn == be_value(b@, 12, 16),
{
    proof {
        vstd::arithmetic::power2::lemma2_to64();
        vstd::arithmetic::power2::lemma2_to64_rest();
        lemma_be_value_bound(b@, 8, 10);
        lemma_be_value_bound(b@, 10, 12);
        lemma_be_value_bound(b@, 12, 16);
    }
    BookEntry {
        key: read_be(b, 0, 8),
        raw_move: read_be(b, 8, 2) as u16,
        weight: read_be(b, 10, 2) as u16,
        learn: read_be(b, 12, 4) as u32,
    }
}

/// The Polyglot key of a position given by its FEN text, as shakmaty
/// computes it (`None` where shakmaty rejects the position).
pub uninterp spec fn polyglot_key(fen: Seq<char>) -> Option<u64>;

/// shakmaty's Polyglot Zobrist hash (`ZobristHash::zobrist_hash` with
/// `Zobrist64`, en passant counted only when legal) of the position read
/// from `text` (`Fen::from_ascii`, `Fen::into_position`).
#[verifier::external_body]
fn zobrist_of_fen(text: &str) -> (r: Option<u64>)
    ensures
        r == polyglot_key(text@),
{
    let fen = shakmaty::fen::Fen::from_ascii(text.as_bytes()).ok()?;
    let chess: shakmaty::Chess = fen.into_position(shakmaty::CastlingMode::Standard).ok()?;
    Some(chess.zobrist_hash::<shakmaty::zobrist::Zobrist64>(shakmaty::EnPassantMode::Legal).0)
}

/// Compute the Polyglot Zobrist hash for `pos` using shakmaty's
/// implementation, which matches the standard Polyglot random table; 0 for
/// a position shakmaty rejects.
pub fn polyglot_hash(pos: &Position) -> (h: u64)
    requires
        pos.wf(),
    ensures
        h == match polyglot_key(fen_text(*pos)) {
            Some(k) => k,
            None => 0,
        },
{
    let fen = pos.to_fen();
    match zobrist_of_fen(fen.as_str()) {
        Some(k) => k,
        None => 0,
    }
}

/// The fields of a Polyglot move: to-file, to-rank, from-file, from-rank
/// and promotion (0 none, 1 knight .. 4 queen), three bits each from the
/// lowest.
pub open spec fn to_file_of(raw: u16) -> int {
    raw as int % 8
}

pub open spec fn to_rank_of(raw: u16) -> int {
    (raw as int / 8) % 8
}

pub open spec fn from_file_of(raw: u16) -> int {
    (raw as int / 64) % 8
}

pub open spec fn from_rank_of(raw: u16) -> int {
    (raw as int / 512) % 8
}

pub open spec fn promo_of(raw: u16) -> int {
    (raw as int / 4096) % 8
}

/// The move a Polyglot move stands for in `pos`: `None` when its from-square
/// is empty or its promotion code is out of range; castling is written as
/// the king taking its own rook (e1h1, e1a1, e8h8, e8a8) and becomes the
/// king's two-square move; a pawn moving diagonally onto the en-passant
/// square captures en passant.
pub open spec fn decode_spec(raw: u16, pos: Position) -> Option<Move> {
    let from = from_rank_of(raw) * 8 + from_file_of(raw);
    let to = to_rank_of(raw) * 8 + to_file_of(raw);
    match pos.board()[from] {
        None => None,
        Some((_, p)) => if promo_of(raw) > 4 {
            None
        } else if p == Piece::King && (from == 4 || from == 60) && to_rank_of(raw) == from_rank_of(raw)
            && (to_file_of(raw) == 7 || to_file_of(raw) == 0) {
            Some(
                Move(
                    move_bits(
                        from as u8,
                        (if to_file_of(raw) == 7 { from + 2 } else { from - 2 }) as u8,
                        3,
                        0,
                    ),
                ),
            )
        } else if promo_of(raw) > 0 {
            Some(Move(move_bits(from as u8, to as u8, 1, (promo_of(raw) - 1) as u8)))
        } else if p == Piece::Pawn && pos.spec_ep() == Some(Square(to as u8)) && from_file_of(raw)
            != to_file_of(raw) {
            Some(Move(move_bits(from as u8, to as u8, 2, 0)))
        } else {
            Some(Move(move_bits(from as u8, to as u8, 0, 0)))
        },
    }
}

/// Decode a Polyglot move for `pos` (see `decode_spec`).
pub fn decode_polyglot_move(raw: u16, pos: &Position) -> (r: Option<Move>)
    requires
        pos.wf(),
    ensures
        r == decode_spec(raw, *pos),
{
    let to_file = (raw % 8) as u8;
    let to_rank = ((raw / 8) % 8) as u8;
    let from_file = ((raw / 64) % 8) as u8;
    let from_rank = ((raw / 512) % 8) as u8;
    let promo = ((raw / 4096) % 8) as u8;
    let from = Square::from_file_rank(from_file, from_rank);
    let to = Square::from_file_rank(to_file, to_rank);
    proof {
        assert(pos.board()[from.0 as int] == pos.piece_on(from.0 as int));
    }
    let piece = match pos.piece_at(from) {
        Some((_, p)) => p,
        None => {
            return None;
        },
    };
    if promo > 4 {
        return None;
    }
    if piece == Piece::King && (from.0 == 4 || from.0 == 60) && to_rank == from_rank && (to_file == 7
        || to_file == 0) {
        let king_to = if to_file == 7 {
            Square(from.0 + 2)
        } else {
            Square(from.0 - 2)
        };
        return Some(Move::new(from, king_to, 3, 0));
    }
    if promo > 0 {
        return Some(Move::new(from, to, 1, promo - 1));
    }
    if piece == Piece::Pawn && from_file != to_file {
        if let Some(ep) = pos.en_passant_square() {
            if ep.0 == to.0 {
                return Some(Move::new(from, to, 2, 0));
            }
        }
    }
    Some(Move::new(from, to, 0, 0))
}

/// A uniformly random number below `n` (rand's `thread_rng().gen_range(0..n)`).
#[verifier::external_body]
fn random_below(n: u64) -> (r: u64)
    requires
        n > 0,
    ensures
        r < n,
{
    rand::thread_rng().gen_range(0..n)
}

/// Sum of the first `k` weights.
pub open spec fn weight_prefix(w: Seq<u16>, k: int) -> int
    decreases k,
{
    if k <= 0 {
        0
    } else {
        weight_prefix(w, k - 1) + w[k - 1]
    }
}

proof fn lemma_weight_prefix_mono(w: Seq<u16>, j: int, k: int)
    requires
        0 <= j <= k <= w.len(),
    ensures
        0 <= weight_prefix(w, j) <= weight_prefix(w, k),
    decreases k - j,
{
    if j < k {
        lemma_weight_prefix_mono(w, j, k - 1);
    } else {
        lemma_weight_prefix_nonneg(w, j);
    }
}

proof fn lemma_weight_prefix_nonneg(w: Seq<u16>, k: int)
    requires
        0 <= k <= w.len(),
    ensures
        0 <= weight_prefix(w, k) <= k * 65535,
    decreases k,
{
    if k > 0 {
        lemma_weight_prefix_nonneg(w, k - 1);
    }
}

/// The index a roll below the total weight selects: the first entry whose
/// running total exceeds the roll (each entry is chosen with probability
/// proportional to its weight).
pub fn pick_weighted(weights: &Vec<u16>, roll: u64) -> (i: usize)
    requires
        weights@.len() < 0x1_0000_0000,
        roll < weight_prefix(weights@, weights@.len() as int),
    ensures
        i < weights@.len(),
        weight_prefix(weights@, i as int) <= roll < weight_prefix(weights@, i + 1),
{
    let mut acc: u64 = 0;
    let mut i: usize = 0;
    proof {
        lemma_weight_prefix_nonneg(weights@, weights@.len() as int);
    }
    while i < weights.len()
        invariant
            i <= weights@.len(),
            weights@.len() < 0x1_0000_0000,
            acc == weight_prefix(weights@, i as int),
            acc <= roll,
            roll < weight_prefix(weights@, weights@.len() as int),
        decreases weights@.len() - i,
    {
        proof {
            lemma_weight_prefix_nonneg(weights@, i + 1);
            assert((i + 1) * 65535 <= 0x1_0000_0000 * 65535) by (nonlinear_arith)
                requires
                    i + 1 <= 0x1_0000_0000,
            ;
        }
        let next = acc + weights[i] as u64;
        if roll < next {
            return i;
        }
        acc = next;
        i = i + 1;
    }
    proof {
        assert(false);
    }
    0
}

/// Entry `i` may be drawn for key `key`: it has the key, and either a
/// positive weight, or it is the first entry with the key and every entry
/// with the key weighs nothing.
pub open spec fn drawable(entries: Seq<BookEntry>, key: u64, i: int) -> bool {
    &&& 0 <= i < entries.len()
    &&& entries[i].key == key
    &&& (entries[i].weight > 0 || {
        &&& forall|k: int| 0 <= k < i ==> entries[k].key != key
        &&& forall|k: int| 0 <= k < entries.len() && entries[k].key == key ==> entries[k].weight == 0
    })
}

/// A book move for `pos` among `entries`: one of the entries with the
/// position's key, chosen at random in proportion to the weights (the first
/// such entry when all weights are zero), decoded for `pos`.
pub fn choose_book_move(entries: &Vec<BookEntry>, pos: &Position) -> (r: Option<Move>)
    requires
        pos.wf(),
        entries@.len() < 0x1_0000_0000,
    ensures
        (forall|i: int| 0 <= i < entries@.len() ==> entries@[i].key != polyglot_hash_spec(*pos))
            ==> r is None,
        (exists|i: int| 0 <= i < entries@.len() && entries@[i].key == polyglot_hash_spec(*pos))
            ==> exists|i: int| drawable(entries@, polyglot_hash_spec(*pos), i) && r == decode_spec(
                entries@[i].raw_move,
                *pos,
            ),
{
    let key = polyglot_hash(pos);
    let mut matching: Vec<BookEntry> = Vec::new();
    let mut weights: Vec<u16> = Vec::new();
    let ghost mut src: Seq<int> = Seq::empty();
    let mut i: usize = 0;
    while i < entries.len()
        invariant
            i <= entries@.len(),
            entries@.len() < 0x1_0000_0000,
            key == polyglot_hash_spec(*pos),
            matching@.len() == weights@.len(),
            matching@.len() <= i,
            forall|j: int| 0 <= j < matching@.len() ==> weights@[j] == matching@[j].weight,
            src.len() == matching@.len(),
            forall|j: int|
                0 <= j < matching@.len() ==> 0 <= #[trigger] src[j] < entries@.len() && entries@[src[j]].key
                    == key && entries@[src[j]] == matching@[j],
            matching@.len() == 0 ==> forall|k: int| 0 <= k < i ==> entries@[k].key != key,
            matching@.len() > 0 ==> forall|k: int| 0 <= k < src[0] ==> entries@[k].key != key,
            forall|k: int| 0 <= k < i && entries@[k].key == key ==> exists|j: int| 0 <= j < src.len() && #[trigger] src[j] == k,
        decreases entries@.len() - i,
    {
        let e = entries[i];
        if e.key == key {
            matching.push(e);
            weights.push(e.weight);
            proof {
                let old_src = src;
                src = src.push(i as int);
                assert(src[old_src.len() as int] == i);
                assert forall|k: int| 0 <= k < i + 1 && entries@[k].key == key implies exists|j: int| 0 <= j < src.len() && #[trigger] src[j] == k by {
                    if k < i {
                        let j = choose|j: int| 0 <= j < old_src.len() && #[trigger] old_src[j] == k;
                        assert(src[j] == k);
                    } else {
                        assert(src[old_src.len() as int] == k);
                    }
                }
            }
        }
        i = i + 1;
    }
    if matching.len() == 0 {
        return None;
    }
    proof {
        lemma_weight_prefix_nonneg(weights@, weights@.len() as int);
    }
    let total = total_weight(&weights);
    let chosen: usize = if total == 0 {
        0
    } else {
        let roll = random_below(total);
        pick_weighted(&weights, roll)
    };
    let entry = matching[chosen];
    proof {
        assert(chosen < matching@.len());
        let k = src[chosen as int];
        assert(0 <= k < entries@.len() && entries@[k].key == key && entries@[k] == matching@[chosen as int]);
        if total == 0 {
            assert forall|k2: int| 0 <= k2 < entries@.len() && entries@[k2].key == key implies entries@[k2].weight == 0 by {
                let j = choose|j: int| 0 <= j < src.len() && #[trigger] src[j] == k2;
                lemma_weight_prefix_mono(weights@, j, j + 1);
                lemma_weight_prefix_mono(weights@, j + 1, weights@.len() as int);
            }
        } else {
            assert(weights@[chosen as int] > 0);
        }
        assert(drawable(entries@, key, k));
    }
    decode_polyglot_move(entry.raw_move, pos)
}

/// Sum of the weights.
fn total_weight(weights: &Vec<u16>) -> (t: u64)
    requires
        weights@.len() < 0x1_0000_0000,
    ensures
        t == weight_prefix(weights@, weights@.len() as int),
{
    let mut t: u64 = 0;
    let mut i: usize = 0;
    while i < weights.len()
        invariant
            i <= weights@.len(),
            weights@.len() < 0x1_0000_0000,
            t == weight_prefix(weights@, i as int),
        decreases weights@.len() - i,
    {
        proof {
            lemma_weight_prefix_nonneg(weights@, i + 1);
            assert((i + 1) * 65535 <= 0x1_0000_0000 * 65535) by (nonlinear_arith)
                requires
                    i + 1 <= 0x1_0000_0000,
            ;
        }
        t = t + weights[i] as u64;
        i = i + 1;
    }
    t
}

/// The Polyglot hash of `pos` (see `polyglot_hash`).
pub open spec fn polyglot_hash_spec(pos: Position) -> u64 {
    match polyglot_key(fen_text(pos)) {
        Some(k) => k,
        None => 0,
    }
}

} // verus!
