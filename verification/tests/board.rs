use std::sync::atomic::AtomicBool;
use std::sync::Arc;

use beatrijs::bitmove::{BitMove, MoveFlag};
use beatrijs::board::Board;
use beatrijs::fen::from_fen_bytes;
use beatrijs::defs::{PieceType, Player, INFINITY};
use beatrijs::eval::evaluate;
use beatrijs::heuristics::Heuristics;
use beatrijs::movegen::{find_move, is_legal_ep, is_legal_move, smallest_attacker, MovegenParams};
use beatrijs::movelist::MoveList;
use beatrijs::order::pick_next_move;
use beatrijs::search::{lmr_reduction, table_cutoff, Searcher, LMR_SIZE};
use beatrijs::search_info::SearchInfo;
use beatrijs::table::{Bound, HashEntry, HashTable, Table};
use beatrijs::utils::{is_draw, is_material_draw, is_repetition};

const START: &str = "rnbqkbnr/pppppppp/8/8/8/8/PPPPPPPP/RNBQKBNR w KQkq - 0 1";
const KIWIPETE: &str = "r3k2r/p1ppqpb1/bn2pnp1/3PN3/1p2P3/2N2Q1p/PPPBBPPP/R3K2R w KQkq - 0 1";

fn legal(board: &Board) -> MoveList {
    MoveList::legal(MovegenParams::simple(board))
}

fn find(board: &Board, s: &str) -> u16 {
    let b = s.as_bytes();
    let src = ((b[1] - b'1') * 8 + (b[0] - b'a')) as i8;
    let dest = ((b[3] - b'1') * 8 + (b[2] - b'a')) as i8;
    let prom = match b.get(4) {
        Some(b'q') => PieceType::Queen,
        Some(b'r') => PieceType::Rook,
        Some(b'b') => PieceType::Bishop,
        Some(b'n') => PieceType::Knight,
        _ => PieceType::NoPiece,
    };
    find_move(&legal(board), src, dest, prom).expect("legal move")
}

#[test]
fn fen_start_position_matches_start_pos() {
    let a = Board::from_fen(START);
    let b = Board::start_pos();
    assert_eq!(a.key(), b.key());
    assert_eq!(a.pieces, b.pieces);
    assert_eq!(a.piece_bb, b.piece_bb);
    assert_eq!(a.side_bb, b.side_bb);
    assert_eq!(a.turn, Player::White);
    assert_eq!(a.pos.castling, 15);
    assert_eq!(a.pos.ep_square, 64);
    assert_eq!(a.piece_type(4), PieceType::King);
    assert_eq!(a.piece(60).c, Player::Black);
    assert_eq!(a.king_square(Player::Black), 60);
}

#[test]
fn fen_rejects_malformed_strings() {
    // five fields
    assert!(from_fen_bytes("8/8/8/8/8/8/8/K6k w - - 0".as_bytes()).is_none());
    // unknown piece letter
    assert!(from_fen_bytes("8/8/8/8/8/8/8/K5xk w - - 0 1".as_bytes()).is_none());
    // side to move
    assert!(from_fen_bytes("8/8/8/8/8/8/8/K6k x - - 0 1".as_bytes()).is_none());
    // castling letters
    assert!(from_fen_bytes("8/8/8/8/8/8/8/K6k w KX - 0 1".as_bytes()).is_none());
    // en passant square
    assert!(from_fen_bytes("8/8/8/8/8/8/8/K6k w - e9 0 1".as_bytes()).is_none());
    // half-move clock out of range
    assert!(from_fen_bytes("8/8/8/8/8/8/8/K6k w - - 256 1".as_bytes()).is_none());
    // no black king
    assert!(from_fen_bytes("8/8/8/8/8/8/8/K7 w - - 0 1".as_bytes()).is_none());
    // a clean one
    let b = Board::from_fen("8/8/8/8/8/8/8/K6k b - - 17 1");
    assert_eq!(b.turn, Player::Black);
    assert_eq!(b.pos.rule_fifty, 17);
}

#[test]
fn fen_reads_en_passant_and_castling() {
    let b = Board::from_fen("rnbqkbnr/pppp1ppp/8/4pP2/8/8/PPPPP1PP/RNBQKBNR w Kq e6 0 3");
    assert_eq!(b.pos.ep_square, 44);
    assert_eq!(b.ep_square(), Some(44));
    assert!(b.can_castle_king(Player::White));
    assert!(!b.can_castle_queen(Player::White));
    assert!(b.can_castle_queen(Player::Black));
    assert!(!b.can_castle_king(Player::Black));
}

#[test]
fn incremental_key_matches_key_from_scratch() {
    let mut board = Board::start_pos();
    let m = find(&board, "e2e4");
    assert!(board.move_fits(m));
    board.make_move(m);
    let fresh = Board::from_fen("rnbqkbnr/pppppppp/8/8/4P3/8/PPPP1PPP/RNBQKBNR b KQkq e3 0 1");
    assert_eq!(board.key(), fresh.key());
    let m2 = find(&board, "g8f6");
    board.make_move(m2);
    let fresh2 = Board::from_fen("rnbqkb1r/pppppppp/5n2/8/4P3/8/PPPP1PPP/RNBQKBNR w KQkq - 1 2");
    assert_eq!(board.key(), fresh2.key());
}

#[test]
fn unmake_restores_the_position() {
    let mut board = Board::from_fen(KIWIPETE);
    let key = board.key();
    let pieces = board.pieces;
    let moves = legal(&board);
    for i in 0..moves.size() {
        let m = moves.get(i);
        board.make_move(m);
        board.unmake_move(m);
        assert_eq!(board.key(), key);
        assert_eq!(board.pieces, pieces);
    }
    let castle = find(&board, "e1g1");
    assert_eq!(BitMove::flag(castle), MoveFlag::CASTLE_KING);
    board.make_move(castle);
    assert_eq!(board.piece_type(5), PieceType::Rook);
    assert_eq!(board.piece_type(6), PieceType::King);
    board.unmake_last_move();
    assert_eq!(board.key(), key);
}

#[test]
fn null_move_round_trip() {
    let mut board = Board::from_fen(KIWIPETE);
    let key = board.key();
    board.make_null_move();
    assert_eq!(board.turn, Player::Black);
    assert_ne!(board.key(), key);
    board.unmake_null_move();
    assert_eq!(board.turn, Player::White);
    assert_eq!(board.key(), key);
}

#[test]
fn legal_moves_and_checks() {
    let board = Board::start_pos();
    assert_eq!(legal(&board).size(), 20);
    let kiwi = Board::from_fen(KIWIPETE);
    assert_eq!(legal(&kiwi).size(), 48);
    // the pinned knight on c6 may not move
    let pinned = Board::from_fen("4k3/8/2n5/8/B7/8/8/4K3 b - - 0 1");
    let moves = MoveList::all(MovegenParams::simple(&pinned));
    let mut knight_moves = 0;
    for i in 0..moves.size() {
        let m = moves.get(i);
        if BitMove::src(m) == 42 {
            knight_moves += 1;
            assert!(!is_legal_move(&pinned, m));
        }
    }
    assert_eq!(knight_moves, 8);
    // a rook move giving check
    let b = Board::from_fen("4k3/8/8/8/8/8/8/R3K3 w - - 0 1");
    let check = find(&b, "a1a8");
    assert!(b.gives_check(check));
    let quiet = find(&b, "a1b1");
    assert!(!b.gives_check(quiet));
}

#[test]
fn exchange_evaluation() {
    // pawn takes a defended knight: wins material
    let b = Board::from_fen("4k3/8/3p4/4n3/3P4/8/8/4K3 w - - 0 1");
    let m = find(&b, "d4e5");
    assert!(b.see_ge(m, 0));
    assert!(b.see_ge(m, 500));
    assert_eq!(b.see_approximate(m), 781 - 126);
    // queen takes a defended pawn: loses material
    let q = Board::from_fen("4k3/8/3p4/4p3/8/8/4Q3/4K3 w - - 0 1");
    let m = find(&q, "e2e5");
    assert!(!q.see_ge(m, 0));
    assert_eq!(smallest_attacker(&q, 36, Player::Black), (PieceType::NoPiece, 64));
    assert_eq!(smallest_attacker(&q, 43, Player::Black), (PieceType::Pawn, 36));
    assert_eq!(smallest_attacker(&q, 36, Player::White), (PieceType::Queen, 12));
}

#[test]
fn evaluation_of_the_start_position() {
    let b = Board::start_pos();
    assert_eq!(evaluate(&b), 10);
    let black = Board::from_fen("rnbqkbnr/pppppppp/8/8/8/8/PPPPPPPP/RNBQKBNR b KQkq - 0 1");
    assert_eq!(evaluate(&black), 10);
    // two bare kings are a draw
    let kk = Board::from_fen("8/8/8/4k3/8/8/8/4K3 w - - 0 1");
    assert_eq!(evaluate(&kk), 0);
    // a queen up is good for its side
    let q = Board::from_fen("4k3/8/8/8/8/8/8/3QK3 w - - 0 1");
    assert!(evaluate(&q) > 2000);
}

#[test]
fn draws() {
    let kk = Board::from_fen("8/8/8/4k3/8/8/8/4K3 w - - 0 1");
    assert!(is_material_draw(&kk));
    assert!(is_draw(&kk));
    let kn = Board::from_fen("8/8/8/4k3/8/8/8/3NK3 w - - 0 1");
    assert!(is_material_draw(&kn));
    let kr = Board::from_fen("8/8/8/4k3/8/8/8/3RK3 w - - 0 1");
    assert!(!is_material_draw(&kr));
    let fifty = Board::from_fen("8/8/8/4k3/8/8/8/3RK3 w - - 100 80");
    assert!(is_draw(&fifty));
    // knights shuffling back and forth repeat the position
    let mut b = Board::from_fen("4k1n1/8/8/8/8/8/8/4K1N1 w - - 0 1");
    assert!(!is_repetition(&b));
    for s in ["g1f3", "g8f6", "f3g1", "f6g8"] {
        let m = find(&b, s);
        b.make_move(m);
    }
    assert!(is_repetition(&b));
}

#[test]
fn pretty_board() {
    let s = Board::start_pos().pretty_string();
    let lines: Vec<&str> = s.lines().collect();
    assert_eq!(lines[1], "+---+---+---+---+---+---+---+---+");
    assert_eq!(lines[2], "| r | n | b | q | k | b | n | r | 8");
    assert_eq!(lines[16], "| R | N | B | Q | K | B | N | R | 1");
    assert_eq!(lines[18], "  a   b   c   d   e   f   g   h  ");
}

#[test]
fn ordering_picks_the_best_score() {
    let board = Board::start_pos();
    let mut moves = MoveList::legal(MovegenParams::simple(&board));
    for i in 0..moves.size() {
        moves.set_score(i, i as i32);
    }
    let last = moves.get(moves.size() - 1);
    pick_next_move(&mut moves, 0);
    assert_eq!(moves.get(0), last);
    assert_eq!(moves.get_score(0), moves.size() as i32 - 1);
}

#[test]
fn transposition_table_round_trip() {
    let mut t = HashTable::new(1024);
    assert!(t.probe(12345, 0).is_none());
    assert_eq!(t.hash_full(), 0);
    let e = HashEntry::new(12345, 4, 77, 30_990, 15, Bound::Exact);
    t.store(e, 3);
    let back = t.probe(12345, 3).unwrap();
    assert_eq!(back.score, 30_990);
    assert_eq!(back.m, 77);
    assert_eq!(t.best_move(12345), Some(77));
    // from another ply the mate is counted from there
    assert_eq!(t.probe(12345, 1).unwrap().score, 30_992);
    assert_eq!(table_cutoff(back, 4, -100, 100), Some(30_990));
    assert_eq!(table_cutoff(back, 5, -100, 100), None);
    t.delete(12345);
    assert!(t.probe(12345, 0).is_none());
}

#[test]
fn late_move_reductions() {
    assert_eq!(lmr_reduction(2, 10, true, false, false, 0), 2);
    assert_eq!(lmr_reduction(2, 10, false, false, false, 0), 3);
    assert_eq!(lmr_reduction(2, 10, true, true, true, 5), 1);
    assert_eq!(lmr_reduction(20, 4, false, false, false, 0), 3);
}

#[test]
fn search_finds_mate_in_one() {
    let board = Board::from_fen("6k1/5ppp/8/8/8/8/8/R5K1 w - - 0 1");
    let mate = find(&board, "a1a8");
    let mut searcher = Searcher::new(
        board,
        Arc::new(AtomicBool::new(false)),
        HashTable::new(1 << 16),
        SearchInfo::with_depth(3),
        vec![0; LMR_SIZE],
    );
    searcher.clear_for_search();
    let mut score = 0;
    for depth in 1..=3 {
        score = searcher.aspiration_search(depth, score);
    }
    assert_eq!(score, 31_000 - 1);
    assert_eq!(searcher.best_move(), mate);
    let pv = searcher.table.extract_pv(&mut searcher.board, 3);
    assert_eq!(pv[0], mate);
}

#[test]
fn capture_exchange_values() {
    // rook takes a pawn defended by a knight and is taken back
    let b = Board::from_fen("4k3/5n2/8/4p3/8/8/8/4RK2 w - - 0 1");
    let m = find(&b, "e1e5");
    assert_eq!(b.see_capture(m), 126 - 1276);
    // an undefended knight is won outright
    let n = Board::from_fen("4k3/8/8/4n3/8/8/8/4RK2 w - - 0 1");
    assert_eq!(n.see_capture(find(&n, "e1e5")), 781);
    // a quiet move exchanges nothing
    assert_eq!(b.see_capture(find(&b, "e1e2")), 0);
}

#[test]
fn history_statistics_follow_cutoffs() {
    let board = Board::start_pos();
    let mut h = Heuristics::new();
    let best = find(&board, "e2e4");
    let other = find(&board, "d2d4");
    let mut quiets = MoveList::new();
    quiets.push(best, 0);
    quiets.push(other, 0);
    h.update(&board, 3, best, quiets, MoveList::new(), &[]);
    // depth 3 gives a bonus of 16 * 4 * 4
    assert_eq!(h.get_history(Player::White, 12, 28), 256);
    assert_eq!(h.get_history(Player::White, 11, 27), -256);
    assert_eq!(h.get_heuristic(&board, best), 256);
    // a second reward is damped by the statistic already gathered
    let mut quiets = MoveList::new();
    quiets.push(best, 0);
    h.update(&board, 3, best, quiets, MoveList::new(), &[]);
    assert_eq!(h.get_history(Player::White, 12, 28), 256 + 256 - 256 * 256 / 32768);
    // deep searches cap the bonus at 1200
    let mut fresh = Heuristics::new();
    fresh.update(&board, 40, other, MoveList::new(), MoveList::new(), &[]);
    assert_eq!(fresh.get_history(Player::White, 11, 27), 1200);
}

#[test]
fn capture_and_continuation_statistics() {
    let mut board = Board::start_pos();
    let e4 = find(&board, "e2e4");
    board.make_move(e4);
    let e5 = find(&board, "e7e5");
    let mut h = Heuristics::new();
    assert_eq!(h.get_continuation(&board, e5), 0);
    h.update(&board, 0, e5, MoveList::new(), MoveList::new(), &[]);
    // the reply to e2e4 is now remembered: 16 for a depth of zero
    assert_eq!(h.get_continuation(&board, e5), 16);
    assert_eq!(h.continuation[0][28][6][36], 16);

    let c = Board::from_fen("4k3/8/8/3p4/4P3/8/8/4K3 w - - 0 1");
    let take = find(&c, "e4d5");
    let mut h = Heuristics::new();
    h.update(&c, 1, take, MoveList::new(), MoveList::new(), &[]);
    // white pawn takes a pawn on d5: bonus 16 * 2 * 2
    assert_eq!(h.get_capture(beatrijs::defs::Piece::new(PieceType::Pawn, Player::White), 35, PieceType::Pawn), 64);
    assert_eq!(h.get_heuristic(&c, take), 64);
}

#[test]
fn en_passant_discovered_check() {
    // both pawns leave the fifth rank and uncover the rook on h5
    let pinned = Board::from_fen("8/8/8/KPp4r/8/8/8/4k3 w - c6 0 1");
    assert!(!is_legal_ep(&pinned, 33));
    let free = Board::from_fen("8/8/8/KPp5/8/8/8/4k3 w - c6 0 1");
    assert!(is_legal_ep(&free, 33));
    assert_eq!(free.colored_piece(PieceType::King, Player::White), 1u64 << 32);
    assert_eq!(pinned.colored_piece_like(PieceType::Rook, Player::Black), 1u64 << 39);
}

#[test]
fn table_interface() {
    let mut t = <HashTable as Table<HashEntry>>::new(8);
    let e = HashEntry::new(9, 2, 5, 40, 7, Bound::Lower);
    Table::store(&mut t, e);
    // key 9 lives in slot 1 of 8 and reads back unchanged
    assert_eq!(Table::probe(&t, 9), Some(e));
    assert_eq!(Table::get(&t, 1).key, 9);
    // another key of the same slot finds nothing
    assert_eq!(Table::probe(&t, 17), None);
    // the empty key is never found
    assert_eq!(Table::probe(&t, 0), None);
    Table::clear(&mut t);
    assert_eq!(Table::probe(&t, 9), None);
    let big = <HashTable as Table<HashEntry>>::with_size(1);
    assert!(big.size > 0);
}

#[test]
fn insufficient_material_evaluates_to_zero() {
    for fen in [
        "4k3/8/8/8/8/8/8/4K3 w - - 0 1",
        "4k3/8/8/8/8/8/8/2B1K3 w - - 0 1",
        "4k3/8/3n4/8/8/8/8/1N2K3 b - - 0 1",
    ] {
        let b = Board::from_fen(fen);
        assert_eq!(evaluate(&b), 0);
    }
    // a rook is enough to play for a win
    let r = Board::from_fen("4k3/8/8/8/8/8/8/R3K3 w - - 0 1");
    assert!(evaluate(&r) > 0);
}

#[test]
fn history_statistics_stay_bounded() {
    let board = Board::start_pos();
    let m = find(&board, "g1f3");
    let mut h = Heuristics::new();
    for _ in 0..500 {
        h.update(&board, 40, m, MoveList::new(), MoveList::new(), &[]);
        assert!(h.get_history(Player::White, 6, 21) <= 32768);
    }
    assert!(h.get_history(Player::White, 6, 21) > 32000);
    for _ in 0..1000 {
        let mut quiets = MoveList::new();
        quiets.push(m, 0);
        let other = find(&board, "b1c3");
        h.update(&board, 40, other, quiets, MoveList::new(), &[]);
        assert!(h.get_history(Player::White, 6, 21) >= -32768);
    }
    assert!(h.get_history(Player::White, 6, 21) < -32000);
}

#[test]
fn hash_full_samples_both_ends() {
    let mut t = HashTable::new(8);
    assert_eq!(t.hash_full(), 0);
    t.store_raw(HashEntry::new(9, 1, 0, 0, 0, Bound::Exact));
    t.store_raw(HashEntry::new(7, 1, 0, 0, 0, Bound::Exact));
    // the bottom sample reads all 8 slots (2 in use), the top sample the 7 slots above
    // the bottom one (2 in use again): 4 of 15 samples
    assert_eq!(t.hash_full(), 4 * 1000 / 15);
}

#[test]
fn drawn_positions_below_the_root_score_zero() {
    // a rook up, but the fifty move counter has run out
    let mut board = Board::from_fen("4k3/8/8/8/8/8/8/R3K3 w - - 100 80");
    board.pos.ply = 1;
    let mut searcher = Searcher::new(
        board,
        Arc::new(AtomicBool::new(false)),
        HashTable::new(1 << 10),
        SearchInfo::with_depth(2),
        vec![0; LMR_SIZE],
    );
    assert_eq!(searcher.negamax(2, -1000, 1000, true), 0);
    // with a fresh counter the extra rook counts again
    searcher.board.pos.rule_fifty = 0;
    assert!(searcher.negamax(2, -1000, 1000, true) > 0);
}

#[test]
fn biggest_gain_counts_pawns() {
    assert_eq!(beatrijs::search::max_gain(&Board::start_pos()), 2538);
    let pawns = Board::from_fen("4k3/4p3/8/8/8/8/8/4K3 w - - 0 1");
    assert_eq!(beatrijs::search::max_gain(&pawns), 126);
    let bare = Board::from_fen("4k3/8/8/8/8/8/8/4K3 w - - 0 1");
    assert_eq!(beatrijs::search::max_gain(&bare), 0);
}

#[test]
fn clearing_a_cleared_en_passant_square_is_harmless() {
    let mut b = Board::start_pos();
    let key = b.pos.key;
    b.clear_ep();
    assert_eq!(b.pos.key, key);
    assert_eq!(b.pos.ep_square, 64);
    let mut e = Board::from_fen("4k3/8/8/8/3pP3/8/8/4K3 b - e3 0 1");
    let k0 = e.pos.key;
    e.clear_ep();
    assert_ne!(e.pos.key, k0);
    assert_eq!(e.pos.ep_square, 64);
}

#[test]
fn mated_and_stalemated_nodes() {
    // black is mated by the rook on the back rank, one ply below the root
    let mut mated = Board::from_fen("R5k1/5ppp/8/8/8/8/8/6K1 b - - 0 1");
    mated.pos.ply = 1;
    let mut s = Searcher::new(
        mated,
        Arc::new(AtomicBool::new(false)),
        HashTable::new(1 << 10),
        SearchInfo::with_depth(2),
        vec![0; LMR_SIZE],
    );
    assert_eq!(s.negamax(1, -32_000, 32_000, true), -31_000 + 1);
    // black to move has no move and is not in check
    let mut stale = Board::from_fen("7k/5Q2/6K1/8/8/8/8/8 b - - 0 1");
    stale.pos.ply = 1;
    let mut s = Searcher::new(
        stale,
        Arc::new(AtomicBool::new(false)),
        HashTable::new(1 << 10),
        SearchInfo::with_depth(2),
        vec![0; LMR_SIZE],
    );
    assert_eq!(s.negamax(1, -1000, 1000, false), 0);
}

#[test]
fn divide_lists_king_moves() {
    let mut b = Board::from_fen("4k3/8/8/8/8/8/8/4K3 w - - 0 1");
    let d = perft_divide_of(&mut b);
    assert_eq!(d.len(), 5);
    assert!(d.iter().all(|(m, n)| BitMove::src(*m) == 4 && *n == 1));
}

fn perft_divide_of(b: &mut Board) -> Vec<(u16, u64)> {
    beatrijs::perft::perft_divide(b, 1)
}

#[test]
fn start_position_generates_every_pawn_push() {
    let b = Board::start_pos();
    let all = MoveList::all(MovegenParams::simple(&b));
    let mut pawn_moves = 0;
    for i in 0..all.size() {
        let m = all.get(i);
        if b.piece(BitMove::src(m)).t == PieceType::Pawn {
            pawn_moves += 1;
            assert!(!BitMove::is_cap(m));
            assert!(!BitMove::is_prom(m));
        }
    }
    assert_eq!(pawn_moves, 16);
    for s in 8..16i8 {
        assert!(all.contains(BitMove::from_flag(s, s + 8, MoveFlag::QUIET)));
        assert!(all.contains(BitMove::from_flag(s, s + 16, MoveFlag::DOUBLE_PAWN_PUSH)));
    }
}

#[test]
fn double_check_generates_only_king_moves() {
    // rook h1 and bishop b4 both give check; the knight could block one of them
    let b = Board::from_fen("4k3/8/8/8/1b6/5N2/8/4K2r w - - 0 1");
    let all = MoveList::all(MovegenParams::simple(&b));
    assert!(all.size() > 0);
    for i in 0..all.size() {
        assert_eq!(BitMove::src(all.get(i)), 4);
    }
    let l = legal(&b);
    assert!(l.size() > 0);
    for i in 0..l.size() {
        assert_eq!(BitMove::src(l.get(i)), 4);
    }
}

#[test]
fn negamax_scores_mate_in_one() {
    let board = Board::from_fen("6k1/5ppp/8/8/8/8/8/R5K1 w - - 0 1");
    let mate = find(&board, "a1a8");
    let mut searcher = Searcher::new(
        board,
        Arc::new(AtomicBool::new(false)),
        HashTable::new(1 << 16),
        SearchInfo::with_depth(1),
        vec![0; LMR_SIZE],
    );
    searcher.clear_for_search();
    let score = searcher.negamax(1, -INFINITY, INFINITY, false);
    assert_eq!(score, 31_000 - 1);
    assert_eq!(searcher.best_root_move, mate);
}

#[test]
fn legal_list_is_the_legal_part_of_the_pseudo_legal_list() {
    let b = Board::from_fen(KIWIPETE);
    let all = MoveList::all(MovegenParams::simple(&b));
    let legal_moves = legal(&b);
    let mut kept = Vec::new();
    for i in 0..all.size() {
        if is_legal_move(&b, all.get(i)) {
            kept.push((all.get(i), all.get_score(i)));
        }
    }
    assert_eq!(kept.len(), legal_moves.size());
    assert_eq!(kept.len(), 48);
    for (i, e) in kept.iter().enumerate() {
        assert_eq!(legal_moves.get(i), e.0);
        assert_eq!(legal_moves.get_score(i), e.1);
    }
}

#[test]
fn quiescence_moves_hold_every_piece_capture() {
    // the knight on e5 can take on d7, f7 and g6; the bishop on e2 on a6
    let b = Board::from_fen(KIWIPETE);
    let q = MoveList::quiet(MovegenParams::simple(&b));
    for s in ["e5d7", "e5f7", "e5g6", "e2a6", "f3f6", "f3h3"] {
        assert!(q.contains(find(&b, s)));
    }
}

#[test]
fn quiet_knight_moves_score_zero_without_heuristics() {
    let b = Board::start_pos();
    let all = MoveList::all(MovegenParams::simple(&b));
    let m = find(&b, "g1f3");
    let mut seen = false;
    for i in 0..all.size() {
        if all.get(i) == m {
            assert_eq!(all.get_score(i), 0);
            seen = true;
        }
    }
    assert!(seen);
}

#[test]
fn every_promotion_and_castling_move_is_generated() {
    let p = Board::from_fen("1n5k/P7/8/8/8/8/8/4K2R w K - 0 1");
    let l = legal(&p);
    for s in ["a7a8q", "a7a8r", "a7a8b", "a7a8n", "a7b8q", "a7b8r", "a7b8b", "a7b8n", "e1g1"] {
        assert!(l.contains(find(&p, s)));
    }
    let k = Board::from_fen(KIWIPETE);
    let lk = legal(&k);
    assert!(lk.contains(find(&k, "e1g1")));
    assert!(lk.contains(find(&k, "e1c1")));
}
