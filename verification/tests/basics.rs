use beatrijs::search::{after_iteration, iteration_limit, score_text, ScoreText};
use beatrijs::attack::{between, bishop_attacks, king_attacks, knight_attacks, pawn_attacks, rook_attacks};
use beatrijs::bitboard::BitBoard;
use beatrijs::bitmove::{BitMove, MoveFlag};
use beatrijs::defs::{PieceType, Player};
use beatrijs::utils::{is_in_board, mirror, square_from_string, square_to_string};

#[test]
fn bitboard_single_squares() {
    assert_eq!(BitBoard::from_sq(0), 1);
    assert_eq!(BitBoard::from_sq(63), 1u64 << 63);
    assert_eq!(BitBoard::file_bb(10), BitBoard::FILE_C);
    assert_eq!(BitBoard::rank_bb(10), BitBoard::RANK_2);
    assert!(BitBoard::contains(BitBoard::FILE_A, 56));
    assert!(!BitBoard::contains(BitBoard::FILE_A, 57));
}

#[test]
fn bitboard_bit_operations() {
    let mut bb = 0u64;
    BitBoard::set_bit(&mut bb, 12);
    BitBoard::set_bit(&mut bb, 40);
    assert_eq!(bb, (1u64 << 12) | (1u64 << 40));
    assert_eq!(BitBoard::count(bb), 2);
    assert!(BitBoard::more_than_one(bb));
    assert!(!BitBoard::only_one(bb));
    assert_eq!(BitBoard::bit_scan_forward(bb), 12);
    assert_eq!(BitBoard::bit_scan_reverse(bb), 40);
    assert_eq!(BitBoard::pop_lsb(&mut bb), 12);
    assert_eq!(bb, 1u64 << 40);
    assert!(BitBoard::only_one(bb));
    assert_eq!(BitBoard::to_sq(bb), 40);
    BitBoard::pop_bit(&mut bb, 40);
    assert_eq!(bb, 0);
    assert_eq!(BitBoard::bit_scan_forward(0), 64);
    assert_eq!(BitBoard::count(u64::MAX), 64);
}

#[test]
fn bitboard_pretty_string() {
    let s = BitBoard::pretty_string(1);
    let lines: Vec<&str> = s.lines().collect();
    assert_eq!(lines.len(), 8);
    assert_eq!(lines[7], " 1  0  0  0  0  0  0  0 ");
    assert_eq!(lines[0], " 0  0  0  0  0  0  0  0 ");
}

#[test]
fn bitboard_triple_aligned() {
    // a1, h8 and d4 lie on the long diagonal
    assert!(BitBoard::triple_aligned(0, 63, 27));
    assert!(!BitBoard::triple_aligned(0, 63, 28));
    // a1 and a8 and a5 on the a-file
    assert!(BitBoard::triple_aligned(0, 56, 32));
}

#[test]
fn move_encoding_round_trip() {
    let m = BitMove::from_flag(12, 28, MoveFlag::DOUBLE_PAWN_PUSH);
    assert_eq!(BitMove::src(m), 12);
    assert_eq!(BitMove::dest(m), 28);
    assert_eq!(BitMove::flag(m), MoveFlag::DOUBLE_PAWN_PUSH);
    assert_eq!(BitMove::pretty_move(m), "e2e4");
    let q = BitMove::from_squares(4, 6);
    assert_eq!(BitMove::flag(q), MoveFlag::QUIET);
    let c = BitMove::from_flag(52, 61, MoveFlag::PROMOTE_QUEEN_CAPTURE);
    assert!(BitMove::is_cap(c));
    assert!(BitMove::is_prom(c));
    assert!(!BitMove::is_ep(c));
    assert_eq!(BitMove::prom_type(BitMove::flag(c)), PieceType::Queen);
    assert_eq!(BitMove::pretty_move(c), "e7f8");
    let k = BitMove::from_flag(4, 6, MoveFlag::CASTLE_KING);
    assert!(BitMove::is_castle(k));
    assert!(!BitMove::is_normal(k));
}

#[test]
fn attack_tables() {
    // knight on b1 attacks a3, c3 and d2
    assert_eq!(knight_attacks(1), (1u64 << 16) | (1u64 << 18) | (1u64 << 11));
    // king in the corner
    assert_eq!(king_attacks(0), (1u64 << 1) | (1u64 << 8) | (1u64 << 9));
    // white pawn on e2 attacks d3 and f3, black pawn on e7 attacks d6 and f6
    assert_eq!(pawn_attacks(12, Player::White), (1u64 << 19) | (1u64 << 21));
    assert_eq!(pawn_attacks(52, Player::Black), (1u64 << 43) | (1u64 << 45));
    // a rook on a1 with a blocker on a4
    let occ = 1u64 << 24;
    let r = rook_attacks(0, occ);
    assert!(BitBoard::contains(r, 24));
    assert!(!BitBoard::contains(r, 32));
    assert!(BitBoard::contains(r, 7));
    // a bishop on c1 on an empty board reaches h6
    assert!(BitBoard::contains(bishop_attacks(2, 0), 47));
}

#[test]
fn between_and_line() {
    assert_eq!(between(0, 3), (1u64 << 1) | (1u64 << 2));
    assert_eq!(between(0, 1), 0);
    assert_eq!(between(0, 10), 0);
    assert_eq!(beatrijs::attack::line(0, 9), 0x8040201008040201);
}

#[test]
fn square_names() {
    assert_eq!(square_from_string("e3"), 20);
    assert_eq!(square_to_string(20), "e3");
    assert_eq!(square_to_string(63), "h8");
    assert_eq!(square_to_string(64), "");
    assert!(is_in_board(0));
    assert!(!is_in_board(64));
}

#[test]
fn mirror_is_an_involution() {
    assert_eq!(mirror(4), 60);
    for sq in 0..64 {
        assert_eq!(mirror(mirror(sq)), sq);
    }
}

#[test]
fn manhattan_distance() {
    assert_eq!(beatrijs::tables::distance(0, 9), 2);
    assert_eq!(beatrijs::tables::distance(0, 63), 14);
    assert_eq!(beatrijs::tables::distance(27, 27), 0);
    assert_eq!(beatrijs::tables::distance(4, 60), 7);
}

#[test]
fn score_reports() {
    assert_eq!(score_text(31_000), ScoreText::Mate);
    assert_eq!(score_text(-31_000), ScoreText::Mate);
    assert_eq!(score_text(30_999), ScoreText::MateIn(1));
    assert_eq!(score_text(30_997), ScoreText::MateIn(2));
    assert_eq!(score_text(-30_998), ScoreText::MateIn(-1));
    assert_eq!(score_text(30_000), ScoreText::Cp(30_000));
    assert_eq!(score_text(-45), ScoreText::Cp(-45));
}

#[test]
fn iteration_decisions() {
    assert_eq!(iteration_limit(5), 5);
    assert_eq!(iteration_limit(5000), 1000);
    assert_eq!(after_iteration(3, 5, false, &vec![77, 12], 4), (true, 77));
    assert_eq!(after_iteration(5, 5, false, &vec![], 4), (false, 4));
    assert_eq!(after_iteration(2, 5, true, &vec![77], 4), (false, 4));
}
