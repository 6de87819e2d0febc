use beatrijs::board::Board;
use beatrijs::perft::{perft_counts, perft_divide, perft_nodes};

fn perft_all_test(
    fen: &str,
    depth: u8,
    nodes: u64,
    captures: u64,
    en_passants: u64,
    castles: u64,
    promotions: u64,
    checks: u64,
    check_mates: u64,
) {
    let mut board = Board::from_fen(fen);
    let result = perft_counts(&mut board, depth);

    assert_eq!(result.nodes, nodes);
    assert_eq!(result.captures, captures);
    assert_eq!(result.en_passants, en_passants);
    assert_eq!(result.castles, castles);
    assert_eq!(result.promotions, promotions);
    assert_eq!(result.checks, checks);
    assert_eq!(result.check_mates, check_mates);
}

#[test]
fn perft_all_position_1() {
    perft_all_test(
        "r3k2r/p1ppqpb1/bn2pnp1/3PN3/1p2P3/2N2Q1p/PPPBBPPP/R3K2R w KQkq - 0 1",
        4,
        4085603,
        757163,
        1929,
        128013,
        15172,
        25523,
        43,
    )
}

fn nodes(fen: &str, depth: u8) -> u64 {
    let mut board = Board::from_fen(fen);
    perft_nodes(&mut board, depth)
}

#[test]
fn perft_start_position_shallow() {
    let start = "rnbqkbnr/pppppppp/8/8/8/8/PPPPPPPP/RNBQKBNR w KQkq - 0 1";
    assert_eq!(nodes(start, 0), 1);
    assert_eq!(nodes(start, 1), 20);
    assert_eq!(nodes(start, 2), 400);
    assert_eq!(nodes(start, 3), 8902);
}

#[test]
fn perft_start_position_depth_4() {
    let mut board = Board::start_pos();
    assert_eq!(perft_nodes(&mut board, 4), 197281);
}

#[test]
fn perft_lone_pawns() {
    assert_eq!(nodes("K1k5/8/P7/8/8/8/8/8 w - - 0 1", 6), 2217);
    assert_eq!(nodes("8/8/8/8/8/p7/8/k1K5 b - - 0 1", 6), 2217);
}

#[test]
fn perft_queen_and_knight() {
    assert_eq!(nodes("8/8/2k5/5q2/5n2/8/5K2/8 b - - 0 1", 4), 23527);
    assert_eq!(nodes("8/5k2/8/5N2/5Q2/2K5/8/8 w - - 0 1", 4), 23527);
}

#[test]
fn perft_promotion_race() {
    assert_eq!(nodes("8/P1k5/K7/8/8/8/8/8 w - - 0 1", 6), 92683);
}

#[test]
fn perft_castling_through_knight_check() {
    assert_eq!(
        nodes("rnbqkb1r/pp1p1ppp/2p5/4P3/2B5/8/PPP1NnPP/RNBQK2R w KQkq - 0 1", 3),
        53392
    );
}

#[test]
fn perft_divide_sums_to_nodes() {
    let fen = "r3k2r/p1ppqpb1/bn2pnp1/3PN3/1p2P3/2N2Q1p/PPPBBPPP/R3K2R w KQkq - 0 1";
    let mut board = Board::from_fen(fen);
    let key = board.key();
    let split = perft_divide(&mut board, 2);
    assert_eq!(split.len(), 48);
    let total: u64 = split.iter().map(|(_, n)| *n).sum();
    assert_eq!(total, 2039);
    assert_eq!(board.key(), key);
    assert_eq!(perft_nodes(&mut board, 2), 2039);
}
