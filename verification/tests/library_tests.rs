use chess_engine::bitboard::Bitboard;
use chess_engine::board::{FenError, Position};
use chess_engine::book::{choose_book_move, entry_from_bytes, pick_weighted, polyglot_hash, BookEntry};
use chess_engine::eval::evaluate;
use chess_engine::movegen::{generate_captures, generate_moves, magics, MoveList};
use chess_engine::search::alphabeta::{score_from_tt, score_to_tt};
use chess_engine::search::ordering::{order_moves, HistoryTable, KillerTable, HISTORY_MAX};
use chess_engine::search::tt::{decode_entry, should_replace, TTData, TTFlag};
use chess_engine::time::{allocate_time, can_allocate, GoParams};
use chess_engine::types::{Color, Move, Square};
use chess_engine::uci::{
    apply_position_command, bestmove_text, classify_command, command_tokens, nodes_per_second, option_change,
    parse_go, parse_setoption, score_report, OptionChange, UciCommand,
};

const KIWIPETE: &str = "r3k2r/p1ppqpb1/bn2pnp1/3PN3/1p2P3/2N2Q1p/PPPBBPPP/R3K2R w KQkq - 0 1";

fn uci_list(list: &MoveList) -> Vec<String> {
    let mut out = Vec::new();
    for i in 0..list.len() {
        out.push(list.get(i).to_uci());
    }
    out
}

// --- FEN errors, one per variant ---

#[test]
fn fen_too_few_fields_is_format_error() {
    assert!(matches!(Position::from_fen("8/8/8/8/8/8/8/8 w"), Err(FenError::InvalidFormat)));
    assert!(matches!(Position::from_fen(""), Err(FenError::InvalidFormat)));
}

#[test]
fn fen_seven_ranks_is_placement_error() {
    assert!(matches!(
        Position::from_fen("8/8/8/8/8/8/8 w - - 0 1"),
        Err(FenError::InvalidPiecePlacement)
    ));
    assert!(matches!(
        Position::from_fen("8/8/8/8/8/8/8/7 w - - 0 1"),
        Err(FenError::InvalidPiecePlacement)
    ));
    assert!(matches!(
        Position::from_fen("8/8/8/8/8/8/8/4X3 w - - 0 1"),
        Err(FenError::InvalidPiecePlacement)
    ));
}

#[test]
fn fen_bad_side_castling_ep_clocks() {
    assert!(matches!(
        Position::from_fen("8/8/8/8/8/8/8/4K3 x - - 0 1"),
        Err(FenError::InvalidSideToMove)
    ));
    assert!(matches!(
        Position::from_fen("8/8/8/8/8/8/8/4K3 w KX - 0 1"),
        Err(FenError::InvalidCastlingRights)
    ));
    assert!(matches!(
        Position::from_fen("8/8/8/8/8/8/8/4K3 w - z9 0 1"),
        Err(FenError::InvalidEnPassant)
    ));
    assert!(matches!(
        Position::from_fen("8/8/8/8/8/8/8/4K3 w - - x 1"),
        Err(FenError::InvalidClocks)
    ));
    assert!(matches!(
        Position::from_fen("8/8/8/8/8/8/8/4K3 w - - 0 -1"),
        Err(FenError::InvalidClocks)
    ));
}

#[test]
fn fen_missing_clocks_default() {
    let pos = Position::from_fen("8/8/8/8/8/8/8/4K3 b - -").unwrap();
    assert_eq!(pos.halfmove_clock(), 0);
    assert_eq!(pos.fullmove_number(), 1);
    assert_eq!(pos.side_to_move(), Color::Black);
    assert_eq!(pos.to_fen(), "8/8/8/8/8/8/8/4K3 b - - 0 1");
}

#[test]
fn fen_roundtrip_through_text() {
    let fens = [
        KIWIPETE,
        "8/2p5/3p4/KP5r/1R3p1k/8/4P1P1/8 w - - 0 1",
        "r3k2r/Pppp1ppp/1b3nbN/nP6/BBP1P3/q4N2/Pp1P2PP/R2Q1RK1 w kq - 0 1",
        "rnbq1k1r/pp1Pbppp/2p5/8/2B5/8/PPP1NnPP/RNBQK2R w KQ - 1 8",
        "4k3/8/8/3pP3/8/8/8/4K3 w - d6 12 345",
    ];
    for fen in &fens {
        let pos = Position::from_fen(fen).unwrap();
        let text = pos.to_fen();
        assert_eq!(&text, fen);
        let again = Position::from_fen(&text).unwrap();
        assert_eq!(again, pos);
        assert_eq!(again.hash(), pos.hash());
        assert_eq!(again.to_fen(), text);
    }
}

// --- Move generation: each legal move once, none missing ---

#[test]
fn generated_moves_are_distinct() {
    let pos = Position::from_fen(KIWIPETE).unwrap();
    let moves = uci_list(&generate_moves(&pos));
    assert_eq!(moves.len(), 48);
    for i in 0..moves.len() {
        for j in (i + 1)..moves.len() {
            assert_ne!(moves[i], moves[j]);
        }
    }
}

#[test]
fn captures_are_the_capturing_legal_moves() {
    let pos = Position::from_fen(KIWIPETE).unwrap();
    let caps = uci_list(&generate_captures(&pos));
    assert_eq!(caps.len(), 8);
    let all = uci_list(&generate_moves(&pos));
    for c in &caps {
        assert!(all.contains(c));
    }
    let start = generate_captures(&Position::startpos());
    assert!(start.is_empty());
}

#[test]
fn parse_move_finds_only_legal_moves() {
    let pos = Position::startpos();
    assert!(pos.parse_move("e2e4").is_some());
    assert!(pos.parse_move("g1f3").is_some());
    assert!(pos.parse_move("e2e5").is_none());
    assert!(pos.parse_move("e1g1").is_none());
    assert!(pos.parse_move("").is_none());
    let promo = Position::from_fen("8/P6k/8/8/8/8/8/K7 w - - 0 1").unwrap();
    assert!(promo.parse_move("a7a8q").is_some());
    assert!(promo.parse_move("a7a8n").is_some());
    assert!(promo.parse_move("a7a8").is_none());
}

#[test]
fn move_list_drops_pushes_when_full() {
    let mut list = MoveList::new();
    for i in 0..300u32 {
        list.push(Move((i % 60000) as u16 + 1));
    }
    assert_eq!(list.len(), 256);
    assert_eq!(list.get(255), Move(256));
}

// --- Evaluation ---

#[test]
fn eval_negates_when_the_move_passes() {
    let w = Position::from_fen(KIWIPETE).unwrap();
    let b = Position::from_fen("r3k2r/p1ppqpb1/bn2pnp1/3PN3/1p2P3/2N2Q1p/PPPBBPPP/R3K2R b KQkq - 0 1").unwrap();
    assert_eq!(evaluate(&w), -evaluate(&b));
}

#[test]
fn eval_is_colour_blind() {
    let w = Position::from_fen(KIWIPETE).unwrap();
    let m = Position::from_fen("r3k2r/pppbbppp/2n2q1P/1P2p3/3pn3/BN2PNP1/P1PPQPB1/R3K2R b KQkq - 0 1").unwrap();
    assert_eq!(evaluate(&w), evaluate(&m));
    let a = Position::from_fen("k7/8/8/8/8/8/B1B5/K6b w - - 0 1").unwrap();
    let b = Position::from_fen("k6B/b1b5/8/8/8/8/8/K7 b - - 0 1").unwrap();
    assert_eq!(evaluate(&a), evaluate(&b));
}

// --- Transposition table words and scores ---

#[test]
fn tt_data_pack_unpack() {
    let cases = [
        TTData { depth: -3, score: -32000, flag: TTFlag::UpperBound, best_move: Move(0xFFFF), gen: 255 },
        TTData { depth: 127, score: 32767, flag: TTFlag::LowerBound, best_move: Move(1), gen: 0 },
        TTData { depth: 0, score: 0, flag: TTFlag::Exact, best_move: Move(0), gen: 7 },
    ];
    for d in &cases {
        assert_eq!(TTData::unpack(d.pack()), *d);
        let hash = 0xDEAD_BEEF_0123_4567u64;
        assert_eq!(decode_entry(hash ^ d.pack(), d.pack(), hash), Some(*d));
        assert_eq!(decode_entry(hash ^ d.pack(), d.pack(), hash ^ 1), None);
    }
}

#[test]
fn tt_replacement_rule() {
    let old = TTData { depth: 8, score: 0, flag: TTFlag::Exact, best_move: Move(0), gen: 3 };
    let w1 = old.pack();
    let w0 = 0x55u64 ^ w1;
    // Empty entry: always replaced.
    assert!(should_replace(0, 0, 0x77, 1, 3));
    // Same position: always replaced.
    assert!(should_replace(w0, w1, 0x55, 1, 3));
    // Another position from this generation, deeper: kept.
    assert!(!should_replace(w0, w1, 0x77, 7, 3));
    // Not shallower, or from an older generation: replaced.
    assert!(should_replace(w0, w1, 0x77, 8, 3));
    assert!(should_replace(w0, w1, 0x77, 1, 4));
}

#[test]
fn tt_mate_scores_are_ply_adjusted() {
    assert_eq!(score_to_tt(29990, 5), 29995);
    assert_eq!(score_from_tt(29995, 5), 29990);
    assert_eq!(score_to_tt(-29990, 5), -29995);
    assert_eq!(score_from_tt(-29995, 5), -29990);
    assert_eq!(score_to_tt(150, 5), 150);
    assert_eq!(score_from_tt(150, 5), 150);
}

// --- Ordering tables ---

#[test]
fn killer_table_keeps_two_distinct() {
    let mut k = KillerTable::new();
    let a = Move::new(Square(12), Square(28), 0, 0);
    let b = Move::new(Square(6), Square(21), 0, 0);
    k.store(3, a);
    k.store(3, a);
    assert_eq!(k.at(3), [a, Move::none()]);
    k.store(3, b);
    assert_eq!(k.at(3), [b, a]);
    assert_eq!(k.at(4), [Move::none(), Move::none()]);
}

#[test]
fn history_is_capped() {
    let mut h = HistoryTable::new();
    h.record(0, 12, 28, 3);
    assert_eq!(h.score(0, 12, 28), 9);
    h.record(0, 12, 28, 30);
    assert_eq!(h.score(0, 12, 28), 409);
    for _ in 0..2000 {
        h.record(0, 12, 28, 100);
    }
    assert_eq!(h.score(0, 12, 28), HISTORY_MAX);
    assert_eq!(h.score(1, 12, 28), 0);
}

#[test]
fn ordering_keeps_equal_scores_in_place() {
    let pos = Position::startpos();
    let before = uci_list(&generate_moves(&pos));
    let mut moves = generate_moves(&pos);
    let h = HistoryTable::new();
    order_moves(&mut moves, Move::none(), &[Move::none(), Move::none()], &h, &pos);
    assert_eq!(uci_list(&moves), before);
    // A killer moves ahead of the other quiet moves, which keep their order.
    let killer = moves.get(10);
    let mut again = generate_moves(&pos);
    order_moves(&mut again, Move::none(), &[killer, Move::none()], &h, &pos);
    let after = uci_list(&again);
    assert_eq!(after[0], killer.to_uci());
    let rest: Vec<String> = before.iter().filter(|m| **m != killer.to_uci()).cloned().collect();
    assert_eq!(after[1..].to_vec(), rest);
}

// --- Time allocation ---

#[test]
fn time_allocation_formula() {
    let mut p = GoParams::default();
    p.wtime = Some(60000);
    p.winc = Some(1000);
    assert_eq!(allocate_time(&p, Color::White).movetime, Some(2750));
    assert_eq!(allocate_time(&p, Color::Black).movetime, None);
    p.movestogo = Some(10);
    assert_eq!(allocate_time(&p, Color::White).movetime, Some(6750));
    let mut short = GoParams::default();
    short.btime = Some(100);
    short.binc = Some(1000);
    assert_eq!(allocate_time(&short, Color::Black).movetime, Some(50));
    let mut fixed = GoParams::default();
    fixed.wtime = Some(60000);
    fixed.depth = Some(5);
    let l = allocate_time(&fixed, Color::White);
    assert_eq!(l.movetime, None);
    assert_eq!(l.depth, Some(5));
}

// --- UCI helpers ---

#[test]
fn go_command_fields() {
    let t = command_tokens("go wtime 1000 btime +2000 winc 10 binc 20 movestogo 5 depth -3 nodes x ponder");
    let p = parse_go(&t);
    assert_eq!(p.wtime, Some(1000));
    assert_eq!(p.btime, Some(2000));
    assert_eq!(p.winc, Some(10));
    assert_eq!(p.binc, Some(20));
    assert_eq!(p.movestogo, Some(5));
    assert_eq!(p.depth, Some(-3));
    assert_eq!(p.nodes, None);
    assert!(p.ponder);
    assert!(!p.infinite);
    let q = parse_go(&command_tokens("go infinite movetime"));
    assert!(q.infinite);
    assert_eq!(q.movetime, None);
}

#[test]
fn setoption_name_and_value() {
    let r = parse_setoption(&command_tokens("setoption name Book File value my book.bin"));
    assert_eq!(r, Some(("Book File".to_string(), "my book.bin".to_string())));
    assert_eq!(parse_setoption(&command_tokens("setoption name Hash")), None);
    assert_eq!(parse_setoption(&command_tokens("setoption value 3 name Hash")), None);
}

#[test]
fn bestmove_and_score_texts() {
    assert_eq!(bestmove_text(Move::none()), "0000");
    assert_eq!(bestmove_text(Move::new(Square(52), Square(60), 1, 3)), "e7e8q");
    assert_eq!(score_report(29995), (true, 3));
    assert_eq!(score_report(-29998), (true, -1));
    assert_eq!(score_report(150), (false, 150));
    assert_eq!(nodes_per_second(5000, 0), 0);
    assert_eq!(nodes_per_second(5000, 250), 20000);
}

#[test]
fn position_command_is_all_or_nothing() {
    let cur = Position::from_fen(KIWIPETE).unwrap();
    let ok = apply_position_command(&command_tokens("position startpos moves e2e4 e7e5"), &cur).unwrap();
    assert_eq!(ok.to_fen(), "rnbqkbnr/pppp1ppp/8/4p3/4P3/8/PPPP1PPP/RNBQKBNR w KQkq e6 0 2");
    assert!(apply_position_command(&command_tokens("position startpos moves e2e4 e2e4"), &cur).is_err());
    let bad_fen = apply_position_command(&command_tokens("position fen 8/8 w - - 0 1"), &cur).unwrap();
    assert_eq!(bad_fen.to_fen(), cur.to_fen());
    let fen = apply_position_command(&command_tokens("position fen 8/8/8/8/8/8/8/4K2k w - - 0 1 moves e1d1"), &cur)
        .unwrap();
    assert_eq!(fen.to_fen(), "8/8/8/8/8/8/8/3K3k b - - 1 1");
}

// --- Opening book ---

#[test]
fn book_entry_is_big_endian() {
    let bytes: [u8; 16] = [0x46, 0x3b, 0x96, 0x18, 0x16, 0x91, 0xfc, 0x9c, 0x03, 0x1c, 0x00, 0x05, 0, 0, 1, 2];
    let e = entry_from_bytes(&bytes);
    assert_eq!(e.key, 0x463b96181691fc9c);
    assert_eq!(e.raw_move, 0x031c);
    assert_eq!(e.weight, 5);
    assert_eq!(e.learn, 0x0102);
}

#[test]
fn weighted_pick_by_running_total() {
    let w = vec![0u16, 3, 0, 2];
    assert_eq!(pick_weighted(&w, 0), 1);
    assert_eq!(pick_weighted(&w, 2), 1);
    assert_eq!(pick_weighted(&w, 3), 3);
    assert_eq!(pick_weighted(&w, 4), 3);
}

#[test]
fn book_move_comes_from_a_weighted_entry() {
    let pos = Position::startpos();
    let key = polyglot_hash(&pos);
    // e2e4 (weight 0), d2d4 (weight 7), and an entry of another position.
    let entries = vec![
        BookEntry { key, raw_move: 0x031c, weight: 0, learn: 0 },
        BookEntry { key, raw_move: 0x02db, weight: 7, learn: 0 },
        BookEntry { key: key ^ 1, raw_move: 0x0000, weight: 9, learn: 0 },
    ];
    for _ in 0..20 {
        let m = choose_book_move(&entries, &pos).unwrap();
        assert_eq!(m.to_uci(), "d2d4");
    }
    let zero = vec![
        BookEntry { key, raw_move: 0x031c, weight: 0, learn: 0 },
        BookEntry { key, raw_move: 0x02db, weight: 0, learn: 0 },
    ];
    assert_eq!(choose_book_move(&zero, &pos).unwrap().to_uci(), "e2e4");
    let other = vec![BookEntry { key: key ^ 1, raw_move: 0x031c, weight: 5, learn: 0 }];
    assert!(choose_book_move(&other, &pos).is_none());
}

#[test]
fn commands_are_classified_by_first_word() {
    assert_eq!(classify_command(&command_tokens("   ")), None);
    assert_eq!(classify_command(&command_tokens("uci")), Some(UciCommand::Uci));
    assert_eq!(classify_command(&command_tokens("isready")), Some(UciCommand::IsReady));
    assert_eq!(classify_command(&command_tokens("ucinewgame")), Some(UciCommand::UciNewGame));
    assert_eq!(classify_command(&command_tokens("setoption name Hash value 8")), Some(UciCommand::SetOption));
    assert_eq!(classify_command(&command_tokens("  position startpos")), Some(UciCommand::Position));
    assert_eq!(classify_command(&command_tokens("go depth 3")), Some(UciCommand::Go));
    assert_eq!(classify_command(&command_tokens("stop")), Some(UciCommand::Stop));
    assert_eq!(classify_command(&command_tokens("ponderhit")), Some(UciCommand::PonderHit));
    assert_eq!(classify_command(&command_tokens("quit now")), Some(UciCommand::Quit));
    assert_eq!(classify_command(&command_tokens("gox")), Some(UciCommand::Unknown));
}

#[test]
fn option_changes() {
    assert!(matches!(option_change("Hash", "128"), OptionChange::Hash(128)));
    assert!(matches!(option_change("Hash", "+16"), OptionChange::Hash(16)));
    assert!(matches!(option_change("Hash", "big"), OptionChange::Ignored));
    assert!(matches!(option_change("Threads", "4"), OptionChange::Threads(4)));
    assert!(matches!(option_change("Threads", "-1"), OptionChange::Ignored));
    assert!(matches!(option_change("BookPath", "<empty>"), OptionChange::BookPath(None)));
    assert!(matches!(option_change("BookPath", ""), OptionChange::BookPath(None)));
    match option_change("BookPath", "books/main.bin") {
        OptionChange::BookPath(Some(p)) => assert_eq!(p, "books/main.bin"),
        _ => panic!("expected a book path"),
    }
    match option_change("SyzygyPath", "/tb") {
        OptionChange::SyzygyPath(Some(p)) => assert_eq!(p, "/tb"),
        _ => panic!("expected a tablebase path"),
    }
    assert!(matches!(option_change("SyzygyPath", "<empty>"), OptionChange::SyzygyPath(None)));
    assert!(matches!(option_change("Ponder", "true"), OptionChange::Ignored));
}

#[test]
fn allocation_checks() {
    let mut p = GoParams::default();
    assert!(can_allocate(&p, Color::White));
    p.wtime = Some(40);
    assert!(!can_allocate(&p, Color::White));
    p.wtime = Some(60000);
    assert!(can_allocate(&p, Color::White));
    p.movestogo = Some(0);
    assert!(!can_allocate(&p, Color::White));
    p.depth = Some(4);
    assert!(can_allocate(&p, Color::White));
    let mut q = GoParams::default();
    q.btime = Some(1000);
    q.binc = Some(u64::MAX);
    assert!(!can_allocate(&q, Color::Black));
}

#[test]
fn magic_lookups_match_ray_scans() {
    let t = magics::init();
    let mut x: u64 = 0x9E37_79B9_7F4A_7C15;
    for sq in 0..64u8 {
        let s = Square(sq);
        assert_eq!(t.knight_attacks(s), magics::knight_attacks(s));
        assert_eq!(t.king_attacks(s), magics::king_attacks(s));
        assert_eq!(t.pawn_attacks(Color::White, s), magics::pawn_attacks(Color::White, s));
        assert_eq!(t.pawn_attacks(Color::Black, s), magics::pawn_attacks(Color::Black, s));
        for _ in 0..40 {
            x ^= x << 13;
            x ^= x >> 7;
            x ^= x << 17;
            let occ = Bitboard(x & (x >> 3));
            assert_eq!(t.bishop_attacks(s, occ), magics::bishop_attacks(s, occ));
            assert_eq!(t.rook_attacks(s, occ), magics::rook_attacks(s, occ));
            assert_eq!(t.queen_attacks(s, occ), magics::queen_attacks(s, occ));
        }
    }
}

#[test]
fn thread_pool_sizes_and_helper_depths() {
    let mut pool = chess_engine::search::smp::ThreadPool::new(0);
    assert_eq!(pool.num_threads, 1);
    pool.resize(4);
    assert_eq!(pool.num_threads, 4);
    pool.resize(0);
    assert_eq!(pool.num_threads, 1);
    let depths: Vec<i32> = (1..7).map(chess_engine::search::smp::ThreadPool::helper_start_depth).collect();
    assert_eq!(depths, vec![2, 3, 1, 2, 3, 1]);
}
