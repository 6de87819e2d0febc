//! Attack queries on a board, pawn pushes and captures as bitboard shifts.
use vstd::prelude::*;
use crate::bits::{bit, group_bits, lemma_zero_iff_empty, squares};
use crate::bitboard::{BitBoard, lsb, file_of, rank_of, lemma_file_rank_consts, lemma_lsb};
use crate::attack::{
    pawn_attacks, knight_attacks, bishop_attacks, rook_attacks, king_attacks, pawn_hits,
    knight_hits, bishop_hits, rook_hits, king_hits,
};
use crate::board::Board;
use crate::defs::{PieceType, Player, Square, Score, GenType, Piece, player_idx, opp_of, pt_idx, MAX_STACK_SIZE, mg_value_of};
use crate::bitmove::{BitMove, MoveFlag, move_src, move_dest, move_flag, flag_is_cap, flag_is_prom, encode, lemma_encode_decode};
use crate::heuristics::Heuristics;
use crate::movelist::MoveList;
use crate::mvvlva::mvv_lva;
use crate::board::{has_kings, king_sq_of};
use crate::makemove::dir_of;
use crate::attack::{between, attacks, piece_hits};
use crate::utils::adjacent_files;

verus! {

broadcast use group_bits;

/// A piece on `t` of the board attacks `sq` given occupancy `occ`.
pub open spec fn attacks_square(b: &Board, sq: int, occ: u64, t: int) -> bool {
    ||| pawn_hits(sq, Player::White, t) && bit(b.piece_bb[0] & b.side_bb[1], t)
    ||| pawn_hits(sq, Player::Black, t) && bit(b.piece_bb[0] & b.side_bb[0], t)
    ||| knight_hits(sq, t) && bit(b.piece_bb[1], t)
    ||| bishop_hits(sq, occ, t) && bit(b.piece_bb[2] | b.piece_bb[4], t)
    ||| rook_hits(sq, occ, t) && bit(b.piece_bb[3] | b.piece_bb[4], t)
    ||| king_hits(sq, t) && bit(b.piece_bb[5], t)
}

/// Bitboard of all the pieces that are attacking `sq`
pub fn attackers_to(board: &Board, sq: Square, occupied: u64) -> (r: u64)
    requires
        0 <= sq < 64,
    ensures
        forall|t: int| #[trigger] bit(r, t) == attacks_square(board, sq as int, occupied, t),
{
    pawn_attacks(sq, Player::White) & board.player_piece_bb(Player::Black, PieceType::Pawn)
        | pawn_attacks(sq, Player::Black) & board.player_piece_bb(Player::White, PieceType::Pawn)
        | knight_attacks(sq) & board.piece_bb(PieceType::Knight) | bishop_attacks(sq, occupied)
        & board.piece_like_bb(PieceType::Bishop) | rook_attacks(sq, occupied)
        & board.piece_like_bb(PieceType::Rook) | king_attacks(sq) & board.piece_bb(PieceType::King)
}

/// Same as [`attackers_to`].
pub fn attackers(board: &Board, sq: Square, occ: u64) -> (r: u64)
    requires
        0 <= sq < 64,
    ensures
        forall|t: int| #[trigger] bit(r, t) == attacks_square(board, sq as int, occ, t),
{
    attackers_to(board, sq, occ)
}

/// Is `sq` attacked by a piece in `attacker_bb`?
pub fn is_square_attacked(board: &Board, sq: Square, attacker_bb: u64, occupied: u64) -> (r: bool)
    requires
        0 <= sq < 64,
    ensures
        r == exists|t: int| #[trigger] bit(attacker_bb, t) && attacks_square(board, sq as int, occupied, t),
{
    let a = attackers_to(board, sq, occupied) & attacker_bb;
    proof {
        lemma_zero_iff_empty(a);
        if a != 0 {
            let t = choose|t: int| #[trigger] bit(a, t);
            assert(bit(attacker_bb, t));
        }
        if exists|t: int| #[trigger] bit(attacker_bb, t) && attacks_square(board, sq as int, occupied, t) {
            let t = choose|t: int| #[trigger] bit(attacker_bb, t) && attacks_square(board, sq as int, occupied, t);
            assert(bit(a, t));
        }
    }
    a != 0
}

/// Every pawn pushed one square forward.
pub fn pawn_push(pawns: u64, player: Player) -> (r: u64)
    ensures
        player == Player::White ==> r == pawns << 8u64,
        player == Player::Black ==> r == pawns >> 8u64,
        forall|t: int| #[trigger] bit(r, t) == (0 <= t < 64 && if player == Player::White {
            bit(pawns, t - 8)
        } else {
            bit(pawns, t + 8)
        }),
{
    match player {
        Player::White => pawns << 8u64,
        Player::Black => pawns >> 8u64,
    }
}

/// Every pawn pushed two squares forward.
pub fn double_pawn_push(pawns: u64, player: Player) -> (r: u64)
    ensures
        forall|t: int| #[trigger] bit(r, t) == (0 <= t < 64 && if player == Player::White {
            bit(pawns, t - 16)
        } else {
            bit(pawns, t + 16)
        }),
{
    match player {
        Player::White => pawns << 16u64,
        Player::Black => pawns >> 16u64,
    }
}

/// Squares the pawns attack toward the h-file.
pub fn pawn_cap_east(pawns: u64, player: Player) -> (r: u64)
    ensures
        forall|t: int| #[trigger] bit(r, t) == (0 <= t < 64 && if player == Player::White {
            bit(pawns, t - 9) && file_of(t - 9) != 7
        } else {
            bit(pawns, t + 7) && file_of(t + 7) != 7
        }),
{
    let r = match player {
        Player::White => (pawns & !BitBoard::FILE_H) << 9u64,
        Player::Black => (pawns & !BitBoard::FILE_H) >> 7u64,
    };
    proof {
        assert forall|t: int| #[trigger] bit(r, t) == (0 <= t < 64 && if player == Player::White {
            bit(pawns, t - 9) && file_of(t - 9) != 7
        } else {
            bit(pawns, t + 7) && file_of(t + 7) != 7
        }) by {
            lemma_file_rank_consts(t - 9);
            lemma_file_rank_consts(t + 7);
        }
    }
    r
}

/// Squares the pawns attack toward the a-file.
pub fn pawn_cap_west(pawns: u64, player: Player) -> (r: u64)
    ensures
        forall|t: int| #[trigger] bit(r, t) == (0 <= t < 64 && if player == Player::White {
            bit(pawns, t - 7) && file_of(t - 7) != 0
        } else {
            bit(pawns, t + 9) && file_of(t + 9) != 0
        }),
{
    let r = match player {
        Player::White => (pawns & !BitBoard::FILE_A) << 7u64,
        Player::Black => (pawns & !BitBoard::FILE_A) >> 9u64,
    };
    proof {
        assert forall|t: int| #[trigger] bit(r, t) == (0 <= t < 64 && if player == Player::White {
            bit(pawns, t - 7) && file_of(t - 7) != 0
        } else {
            bit(pawns, t + 9) && file_of(t + 9) != 0
        }) by {
            lemma_file_rank_consts(t - 7);
            lemma_file_rank_consts(t + 9);
        }
    }
    r
}

/// Squares attacked by any of the pawns.
pub fn pawn_caps(pawns: u64, player: Player) -> (r: u64)
    ensures
        forall|t: int| #[trigger] bit(r, t) == (0 <= t < 64 && if player == Player::White {
            (bit(pawns, t - 7) && file_of(t - 7) != 0) || (bit(pawns, t - 9) && file_of(t - 9) != 7)
        } else {
            (bit(pawns, t + 9) && file_of(t + 9) != 0) || (bit(pawns, t + 7) && file_of(t + 7) != 7)
        }),
{
    pawn_cap_west(pawns, player) | pawn_cap_east(pawns, player)
}

/// A piece of `side` and type index `pi` on `t` attacks `sq` (pawns by `pawn_hits(sq, side, t)`).
pub open spec fn typed_attacker(b: &Board, sq: int, side: Player, pi: int, t: int) -> bool {
    let occ = b.occ();
    &&& bit(b.piece_bb[pi] & b.side_bb[player_idx(side)], t)
    &&& if pi == 0 {
        pawn_hits(sq, side, t)
    } else if pi == 1 {
        knight_hits(sq, t)
    } else if pi == 2 {
        bishop_hits(sq, occ, t)
    } else if pi == 3 {
        rook_hits(sq, occ, t)
    } else if pi == 4 {
        bishop_hits(sq, occ, t) || rook_hits(sq, occ, t)
    } else {
        king_hits(sq, t)
    }
}

/// The occupancy after en passant from `src`: the capturing pawn leaves `src`, the
/// captured pawn leaves its square and the capturing pawn lands on the en passant square.
pub open spec fn ep_occupancy(b: &Board, src: int) -> u64 {
    let ep = b.pos.ep_square as int;
    ((b.occ() ^ (1u64 << (src as u64))) ^ (1u64 << ((ep - dir_of(b.turn)) as u64))) | (1u64 << (ep as u64))
}

/// Whether en passant from `src` leaves the king of the side to move out of reach of
/// the opponent's sliders once both pawns have left their squares.
pub fn is_legal_ep(board: &Board, src: Square) -> (r: bool)
    requires
        0 <= src < 64,
        0 <= board.pos.ep_square < 64,
        0 <= board.pos.ep_square - dir_of(board.turn) < 64,
        has_kings(board),
    ensures
        r == !((exists|t: int|
            bishop_hits(king_sq_of(board, board.turn), ep_occupancy(board, src as int), t) && #[trigger] bit(
                (board.piece_bb[2] | board.piece_bb[4]) & board.side_bb[player_idx(opp_of(board.turn))],
                t,
            )) || (exists|t: int|
            rook_hits(king_sq_of(board, board.turn), ep_occupancy(board, src as int), t) && #[trigger] bit(
                (board.piece_bb[3] | board.piece_bb[4]) & board.side_bb[player_idx(opp_of(board.turn))],
                t,
            ))),
{
    let ep_square = board.ep_square().unwrap();
    let opp = board.turn.opp();
    let king_sq = board.king_square(board.turn);
    proof {
        lemma_lsb(board.piece_bb[5] & board.side_bb[player_idx(board.turn)]);
        if board.turn == Player::White {
            assert(board.piece_bb[5] & board.side_bb[0] != 0);
        } else {
            assert(board.piece_bb[5] & board.side_bb[1] != 0);
        }
    }

    let pawn_sq = ep_square - board.turn.pawn_dir();
    let occ = board.occ_bb() ^ BitBoard::from_sq(src) ^ BitBoard::from_sq(pawn_sq)
        | BitBoard::from_sq(ep_square);

    let ghost k = king_sq_of(board, board.turn);
    let ghost socc = ep_occupancy(board, src as int);
    assert(occ == socc);
    let bishop_like = board.colored_piece_like(PieceType::Bishop, opp);
    let b_att = bishop_attacks(king_sq, occ);
    let diag = b_att & bishop_like;
    proof {
        lemma_zero_iff_empty(diag);
    }
    if diag != 0 {
        proof {
            let t = choose|t: int| bit(diag, t);
            assert(bit(b_att, t) && bit(bishop_like, t));
        }
        return false;
    }

    let rook_like = board.colored_piece_like(PieceType::Rook, opp);
    let r_att = rook_attacks(king_sq, occ);
    let ortho = r_att & rook_like;
    proof {
        lemma_zero_iff_empty(ortho);
    }
    if ortho != 0 {
        proof {
            let t = choose|t: int| bit(ortho, t);
            assert(bit(r_att, t) && bit(rook_like, t));
        }
        return false;
    }
    proof {
        assert forall|t: int| !(bishop_hits(k, socc, t) && #[trigger] bit(bishop_like, t)) by {
            assert(!bit(diag, t));
            assert(bit(b_att, t) == bishop_hits(k, socc, t));
        }
        assert forall|t: int| !(rook_hits(k, socc, t) && #[trigger] bit(rook_like, t)) by {
            assert(!bit(ortho, t));
            assert(bit(r_att, t) == rook_hits(k, socc, t));
        }
    }
    true
}

/// The cheapest piece of `side` attacking `sq` and its square.
pub fn smallest_attacker(board: &Board, sq: Square, side: Player) -> (r: (PieceType, Square))
    requires
        0 <= sq < 64,
    ensures
        r.0 == PieceType::NoPiece ==> r.1 == 64 && forall|pi: int, t: int|
            0 <= pi < 6 ==> !#[trigger] typed_attacker(board, sq as int, side, pi, t),
        r.0 != PieceType::NoPiece ==> {
            &&& typed_attacker(board, sq as int, side, crate::defs::pt_idx(r.0), r.1 as int)
            &&& forall|t: int| 0 <= t < r.1 ==> !#[trigger] typed_attacker(board, sq as int, side, crate::defs::pt_idx(r.0), t)
            &&& forall|pi: int, t: int| 0 <= pi < crate::defs::pt_idx(r.0) ==> !#[trigger] typed_attacker(board, sq as int, side, pi, t)
        },
{
    let pa = pawn_attacks(sq, side);
    let na = knight_attacks(sq);
    let occ = board.occ_bb();
    let bishop_moves = bishop_attacks(sq, occ);
    let rook_moves = rook_attacks(sq, occ);
    let ka = king_attacks(sq);
    let ghost s = sq as int;
    let pawns = pa & board.player_piece_bb(side, PieceType::Pawn);
    proof {
        lemma_lsb(pawns);
        lemma_zero_iff_empty(pawns);
        assert forall|t: int| #[trigger] typed_attacker(board, s, side, 0, t) == bit(pawns, t) by {}
    }
    if pawns != 0 {
        return (PieceType::Pawn, BitBoard::bit_scan_forward(pawns));
    }
    let knights = na & board.player_piece_bb(side, PieceType::Knight);
    proof {
        lemma_lsb(knights);
        lemma_zero_iff_empty(knights);
        assert forall|t: int| #[trigger] typed_attacker(board, s, side, 1, t) == bit(knights, t) by {}
    }
    if knights != 0 {
        return (PieceType::Knight, BitBoard::bit_scan_forward(knights));
    }
    let bishops = bishop_moves & board.player_piece_bb(side, PieceType::Bishop);
    proof {
        lemma_lsb(bishops);
        lemma_zero_iff_empty(bishops);
        assert forall|t: int| #[trigger] typed_attacker(board, s, side, 2, t) == bit(bishops, t) by {}
    }
    if bishops != 0 {
        return (PieceType::Bishop, BitBoard::bit_scan_forward(bishops));
    }
    let rooks = rook_moves & board.player_piece_bb(side, PieceType::Rook);
    proof {
        lemma_lsb(rooks);
        lemma_zero_iff_empty(rooks);
        assert forall|t: int| #[trigger] typed_attacker(board, s, side, 3, t) == bit(rooks, t) by {}
    }
    if rooks != 0 {
        return (PieceType::Rook, BitBoard::bit_scan_forward(rooks));
    }
    let queens = (bishop_moves | rook_moves) & board.player_piece_bb(side, PieceType::Queen);
    proof {
        lemma_lsb(queens);
        lemma_zero_iff_empty(queens);
        assert forall|t: int| #[trigger] typed_attacker(board, s, side, 4, t) == bit(queens, t) by {}
    }
    if queens != 0 {
        return (PieceType::Queen, BitBoard::bit_scan_forward(queens));
    }
    let king = ka & board.player_piece_bb(side, PieceType::King);
    proof {
        lemma_lsb(king);
        lemma_zero_iff_empty(king);
        assert forall|t: int| #[trigger] typed_attacker(board, s, side, 5, t) == bit(king, t) by {}
    }
    if king != 0 {
        return (PieceType::King, BitBoard::bit_scan_forward(king));
    }
    (PieceType::NoPiece, 64)
}


pub const HASH_BONUS: Score = 9_000_000;
pub const QUEEN_PROMOTE_BONUS: Score = 8_000_000;
pub const KNIGHT_PROMOTE_BONUS: Score = 7_000_000;
pub const GOOD_CAPTURE_BONUS: Score = 6_000_000;
pub const KILLER_1_BONUS: Score = 5_000_000;
pub const KILLER_2_BONUS: Score = 4_000_000;
pub const BAD_CAPTURE_BONUS: Score = 3_000_000;
pub const BAD_PROMOTE_MALUS: Score = -5_000_000;

/// What move generation reads: the board, the ordering statistics (if any) and the
/// move from the transposition table.
pub struct MovegenParams<'a> {
    pub board: &'a Board,
    pub heuristics: Option<&'a Heuristics>,
    pub hash_move: u16,
}

impl<'a> MovegenParams<'a> {
    pub fn new(board: &'a Board, heuristics: &'a Heuristics, hash_move: u16) -> (r: Self)
        ensures
            r.board == board,
            r.heuristics == Some(heuristics),
            r.hash_move == hash_move,
    {
        MovegenParams { board, heuristics: Some(heuristics), hash_move }
    }

    /// Parameters without ordering statistics or hash move.
    pub fn simple(board: &'a Board) -> (r: Self)
        ensures
            r.board == board,
            r.heuristics.is_none(),
            r.hash_move == 0,
    {
        MovegenParams { board, heuristics: None, hash_move: 0 }
    }

    /// The board is consistent, both kings stand, and with ordering statistics the ply
    /// indexes the killers.
    pub open spec fn wf(&self) -> bool {
        &&& self.board.wf()
        &&& has_kings(self.board)
        &&& (self.heuristics.is_some() ==> self.board.pos.ply < MAX_STACK_SIZE)
        &&& ep_valid(self.board)
    }
}

/// A generated move: the side to move's piece leaves its square, the destination is empty
/// unless the flag captures an enemy piece there, en passant lands on the en passant
/// square, and only pawns promote.
pub open spec fn gen_move_ok(b: &Board, m: u16) -> bool {
    let s = move_src(m);
    let d = move_dest(m);
    let f = move_flag(m);
    &&& s != d
    &&& b.at(s).t != PieceType::NoPiece
    &&& b.at(s).c == b.turn
    &&& (flag_is_cap(f) && f != MoveFlag::EN_PASSANT ==> b.at(d).t != PieceType::NoPiece && b.at(d).c == opp_of(b.turn))
    &&& (!flag_is_cap(f) ==> b.at(d).t == PieceType::NoPiece)
    &&& (f == MoveFlag::EN_PASSANT ==> d == b.pos.ep_square && b.at(s).t == PieceType::Pawn)
    &&& (flag_is_prom(f) ==> b.at(s).t == PieceType::Pawn)
    &&& (f == MoveFlag::CASTLE_KING || f == MoveFlag::CASTLE_QUEEN ==> b.at(s).t == PieceType::King && s == king_sq_of(b, b.turn))
    &&& (f == MoveFlag::CASTLE_KING ==> d == s + 2)
    &&& (f == MoveFlag::CASTLE_QUEEN ==> d == s - 2 && s >= 3)
    &&& (f == MoveFlag::DOUBLE_PAWN_PUSH ==> b.at(s).t == PieceType::Pawn)
    &&& (f == MoveFlag::QUIET || f == MoveFlag::DOUBLE_PAWN_PUSH || f == MoveFlag::CASTLE_KING
        || f == MoveFlag::CASTLE_QUEEN || f == MoveFlag::CAPTURE || f == MoveFlag::EN_PASSANT || f >= 8)
}

/// All moves of a list are generated moves.
pub open spec fn all_gen_ok(b: &Board, ms: Seq<u16>) -> bool {
    forall|i: int| 0 <= i < ms.len() ==> #[trigger] gen_move_ok(b, ms[i])
}

/// `r` is the ordering score of the generated move `m`: the hash move first, then
/// promotions by piece, captures by victim, attacker and capture history, with the good
/// capture bonus when the exchange on the square gains at least zero (`see_ge_spec`) and
/// the lesser bad capture bonus otherwise (clamped to `i32`), killers, and quiet history.
pub open spec fn move_score_ok(params: &MovegenParams, m: u16, r: int) -> bool {
    &&& m == params.hash_move ==> r == HASH_BONUS
    &&& m != params.hash_move && flag_is_prom(move_flag(m)) ==> r == (if crate::bitmove::prom_type_of(move_flag(m)) == PieceType::Queen {
        QUEEN_PROMOTE_BONUS
    } else if crate::bitmove::prom_type_of(move_flag(m)) == PieceType::Knight {
        KNIGHT_PROMOTE_BONUS
    } else {
        BAD_PROMOTE_MALUS
    })
    &&& m != params.hash_move && !flag_is_prom(move_flag(m)) && flag_is_cap(move_flag(m)) ==> ({
        let piece = params.board.at(move_src(m));
        let captured = if move_flag(m) == MoveFlag::EN_PASSANT { PieceType::Pawn } else { params.board.at(move_dest(m)).t };
        let hist = if params.heuristics.is_some() {
            params.heuristics.unwrap().capture[crate::defs::piece_idx(piece)][move_dest(m)][pt_idx(captured)] as int
        } else {
            0
        };
        let mvv = crate::mvvlva::mvv_lva_spec(pt_idx(piece.t), pt_idx(captured));
        r == crate::heuristics::clamp_score(
            (if crate::see::see_ge_spec(params.board, m, 0) { GOOD_CAPTURE_BONUS } else { BAD_CAPTURE_BONUS }) + mvv + hist,
        )
    })
    &&& m != params.hash_move && !flag_is_prom(move_flag(m)) && !flag_is_cap(move_flag(m)) && params.heuristics.is_none() ==> r == 0
    &&& m != params.hash_move && !flag_is_prom(move_flag(m)) && !flag_is_cap(move_flag(m)) && params.heuristics.is_some() ==> r == (
        if m == params.heuristics.unwrap().killers[params.board.pos.ply as int][0] {
            KILLER_1_BONUS
        } else if m == params.heuristics.unwrap().killers[params.board.pos.ply as int][1] {
            KILLER_2_BONUS
        } else {
            params.heuristics.unwrap().history[player_idx(params.board.turn)][move_src(m)][move_dest(m)]
        })
}

/// Ordering score of `m`: hash move first, then promotions by piece, captures by exchange
/// result, victim and attacker and capture history, killers, and quiet history.
pub fn score_move(m: u16, params: &MovegenParams) -> (r: Score)
    requires
        params.wf(),
        gen_move_ok(params.board, m),
    ensures
        move_score_ok(params, m, r as int),
{
    let board = params.board;
    let src = BitMove::src(m);
    let dest = BitMove::dest(m);
    if m == params.hash_move {
        HASH_BONUS
    } else if BitMove::is_prom(m) {
        match BitMove::prom_type(BitMove::flag(m)) {
            PieceType::Queen => QUEEN_PROMOTE_BONUS,
            PieceType::Knight => KNIGHT_PROMOTE_BONUS,
            _ => BAD_PROMOTE_MALUS,
        }
    } else if BitMove::is_cap(m) {
        let piece = board.piece(src);
        let captured = if BitMove::is_ep(m) {
            PieceType::Pawn
        } else {
            board.piece_type(dest)
        };
        let history_score: i64 = match params.heuristics {
            Some(h) => h.get_capture(piece, dest as usize, captured) as i64,
            None => 0,
        };
        let mvv = mvv_lva(piece.t.as_usize(), captured.as_usize()) as i64;
        let total = if board.see_ge(m, 0) {
            GOOD_CAPTURE_BONUS as i64 + mvv + history_score
        } else {
            BAD_CAPTURE_BONUS as i64 + mvv + history_score
        };
        if total > i32::MAX as i64 {
            i32::MAX
        } else if total < i32::MIN as i64 {
            i32::MIN
        } else {
            total as i32
        }
    } else {
        match params.heuristics {
            Some(h) => {
                let ply = board.pos.ply;
                if m == h.killers[ply][0] {
                    KILLER_1_BONUS
                } else if m == h.killers[ply][1] {
                    KILLER_2_BONUS
                } else {
                    h.get_history(board.turn, src as usize, dest as usize)
                }
            },
            None => 0,
        }
    }
}

/// Scores `m` and appends it to the list.
fn add_move(m: u16, params: &MovegenParams, move_list: &mut MoveList)
    requires
        params.wf(),
        gen_move_ok(params.board, m),
        old(move_list).wf(),
    ensures
        final(move_list).wf(),
        final(move_list).moves() == old(move_list).moves().push(m),
        final(move_list).scores() == old(move_list).scores().push(final(move_list).scores().last()),
        move_score_ok(params, m, final(move_list).scores().last() as int),
{
    let score = score_move(m, params);
    move_list.push(m, score);
}


/// Every square of `bb` is a legal landing square for the side to move's piece on `src`:
/// not its own piece, and on the board.
pub open spec fn landing_ok(b: &Board, src: int, bb: u64) -> bool {
    forall|d: int| #[trigger] bit(bb, d) ==> d != src && !bit(b.side_bb[player_idx(b.turn)], d)
}

/// The moves `make_moves` appends for the piece on `src` landing on the squares of
/// `bb`: one per square, in increasing order, a capture where an enemy piece of `opp_bb`
/// stands and a quiet move elsewhere.
pub open spec fn step_moves(src: int, bb: u64, opp_bb: u64) -> Seq<u16>
    decreases bb,
{
    let d = lsb(bb);
    if bb != 0 && 0 <= d < 64 && bit(bb, d) {
        proof {
            lemma_pop_decreases(bb, d as u64);
        }
        let flag = if bit(opp_bb, d) { MoveFlag::CAPTURE } else { MoveFlag::QUIET };
        seq![encode(src, d, flag as int) as u16] + step_moves(src, bb ^ (1u64 << (d as u64)), opp_bb)
    } else {
        seq![]
    }
}

/// Every landing square of `bb` has its move among `step_moves`.
pub proof fn lemma_step_moves_contains(src: int, bb: u64, opp_bb: u64, d: int)
    requires
        bit(bb, d),
    ensures
        step_moves(src, bb, opp_bb).contains(
            encode(src, d, (if bit(opp_bb, d) { MoveFlag::CAPTURE } else { MoveFlag::QUIET }) as int) as u16,
        ),
    decreases bb,
{
    lemma_lsb(bb);
    let l = lsb(bb);
    let rest = bb ^ (1u64 << (l as u64));
    let flag = if bit(opp_bb, l) { MoveFlag::CAPTURE } else { MoveFlag::QUIET };
    let head = seq![encode(src, l, flag as int) as u16];
    lemma_pop_decreases(bb, l as u64);
    assert(step_moves(src, bb, opp_bb) == head + step_moves(src, rest, opp_bb));
    if l == d {
        assert(step_moves(src, bb, opp_bb)[0] == head[0]);
    } else {
        assert(bit(rest, d));
        lemma_step_moves_contains(src, rest, opp_bb, d);
        let x = encode(src, d, (if bit(opp_bb, d) { MoveFlag::CAPTURE } else { MoveFlag::QUIET }) as int) as u16;
        let j = choose|j: int| 0 <= j < step_moves(src, rest, opp_bb).len() && step_moves(src, rest, opp_bb)[j] == x;
        assert(step_moves(src, bb, opp_bb)[j + 1] == x);
    }
}

/// The move of the piece of the side to move on `sq` onto `d`: a capture where an enemy
/// piece stands.
pub open spec fn piece_step(b: &Board, sq: int, d: int) -> u16 {
    let opp = b.side_bb[player_idx(opp_of(b.turn))];
    encode(sq, d, (if bit(opp, d) { MoveFlag::CAPTURE } else { MoveFlag::QUIET }) as int) as u16
}

/// Every move of a piece of type `pt` of the side to move onto a square of `target` it
/// attacks is among `ms`.
pub open spec fn piece_steps_in(b: &Board, pt: PieceType, target: u64, ms: Seq<u16>) -> bool {
    forall|sq: int, d: int|
        bit(b.piece_bb[pt_idx(pt)] & b.side_bb[player_idx(b.turn)], sq) && piece_hits(pt, sq, b.occ(), b.turn, d)
            && bit(target, d) ==> ms.contains(#[trigger] piece_step(b, sq, d))
}

/// What a list holds, a list it begins holds too.
pub proof fn lemma_prefix_contains(a: Seq<u16>, c: Seq<u16>)
    requires
        a.len() <= c.len(),
        c.subrange(0, a.len() as int) == a,
    ensures
        forall|x: u16| a.contains(x) ==> #[trigger] c.contains(x),
{
    assert forall|x: u16| a.contains(x) implies #[trigger] c.contains(x) by {
        let j = choose|j: int| 0 <= j < a.len() && a[j] == x;
        assert(c.subrange(0, a.len() as int)[j] == c[j]);
    }
}

/// A list that begins with `a` holds every piece move `a` holds.
pub proof fn lemma_steps_keep(b: &Board, pt: PieceType, target: u64, a: Seq<u16>, c: Seq<u16>)
    requires
        piece_steps_in(b, pt, target, a),
        a.len() <= c.len(),
        c.subrange(0, a.len() as int) == a,
    ensures
        piece_steps_in(b, pt, target, c),
{
    lemma_prefix_contains(a, c);
}

/// Every legal move of a piece of type `pt` of the side to move onto a square of
/// `target` it attacks is among `ms`.
pub open spec fn legal_piece_steps_in(b: &Board, pt: PieceType, target: u64, ms: Seq<u16>) -> bool {
    forall|sq: int, d: int|
        bit(b.piece_bb[pt_idx(pt)] & b.side_bb[player_idx(b.turn)], sq) && piece_hits(pt, sq, b.occ(), b.turn, d)
            && bit(target, d) && legal_spec(b, #[trigger] piece_step(b, sq, d)) ==> ms.contains(piece_step(b, sq, d))
}

/// Every legal move of a knight, bishop, rook or queen of the side to move onto a square
/// without its own piece is among `ms`.
pub open spec fn legal_piece_moves_in(b: &Board, ms: Seq<u16>) -> bool {
    let t = !b.side_bb[player_idx(b.turn)];
    &&& legal_piece_steps_in(b, PieceType::Knight, t, ms)
    &&& legal_piece_steps_in(b, PieceType::Bishop, t, ms)
    &&& legal_piece_steps_in(b, PieceType::Rook, t, ms)
    &&& legal_piece_steps_in(b, PieceType::Queen, t, ms)
}

/// Every move of a knight, bishop, rook or queen of the side to move onto a square
/// without its own piece is among `ms`.
pub open spec fn piece_moves_in(b: &Board, ms: Seq<u16>) -> bool {
    let t = !b.side_bb[player_idx(b.turn)];
    &&& piece_steps_in(b, PieceType::Knight, t, ms)
    &&& piece_steps_in(b, PieceType::Bishop, t, ms)
    &&& piece_steps_in(b, PieceType::Rook, t, ms)
    &&& piece_steps_in(b, PieceType::Queen, t, ms)
}

/// The legal moves of a list holding the moves of one piece type, kept in another list.
proof fn lemma_legal_piece_steps(b: &Board, pt: PieceType, t: u64, pseudo: Seq<u16>, ms: Seq<u16>)
    requires
        piece_steps_in(b, pt, t, pseudo),
        forall|j: int| 0 <= j < pseudo.len() && legal_spec(b, pseudo[j]) ==> ms.contains(#[trigger] pseudo[j]),
    ensures
        legal_piece_steps_in(b, pt, t, ms),
{
    assert forall|sq: int, d: int|
        bit(b.piece_bb[pt_idx(pt)] & b.side_bb[player_idx(b.turn)], sq) && piece_hits(pt, sq, b.occ(), b.turn, d)
            && bit(t, d) && legal_spec(b, #[trigger] piece_step(b, sq, d)) implies ms.contains(piece_step(b, sq, d)) by {
        let x = piece_step(b, sq, d);
        assert(pseudo.contains(x));
        let j = choose|j: int| 0 <= j < pseudo.len() && pseudo[j] == x;
        assert(legal_spec(b, pseudo[j]));
    }
}

/// The legal moves of a list holding the piece moves, kept in another list.
proof fn lemma_legal_piece_moves(b: &Board, pseudo: Seq<u16>, ms: Seq<u16>)
    requires
        piece_moves_in(b, pseudo),
        forall|j: int| 0 <= j < pseudo.len() && legal_spec(b, pseudo[j]) ==> ms.contains(#[trigger] pseudo[j]),
    ensures
        legal_piece_moves_in(b, ms),
{
    let t = !b.side_bb[player_idx(b.turn)];
    lemma_legal_piece_steps(b, PieceType::Knight, t, pseudo, ms);
    lemma_legal_piece_steps(b, PieceType::Bishop, t, pseudo, ms);
    lemma_legal_piece_steps(b, PieceType::Rook, t, pseudo, ms);
    lemma_legal_piece_steps(b, PieceType::Queen, t, pseudo, ms);
}

/// The king move of the side to move onto `d`: a capture where an enemy piece stands.
pub open spec fn king_step(b: &Board, d: int) -> u16 {
    let opp = b.side_bb[player_idx(opp_of(b.turn))];
    encode(king_sq_of(b, b.turn), d, (if bit(opp, d) { MoveFlag::CAPTURE } else { MoveFlag::QUIET }) as int) as u16
}

/// The castling move of the side to move, toward the king side or the queen side.
pub open spec fn castle_move(b: &Board, king_side: bool) -> u16 {
    let k = king_sq_of(b, b.turn);
    if king_side {
        encode(k, k + 2, 2) as u16
    } else {
        encode(k, k - 2, 3) as u16
    }
}

/// The side to move holds the castling right toward that side and the squares between
/// its king and rook are empty.
pub open spec fn castle_open(b: &Board, king_side: bool) -> bool {
    let k = king_sq_of(b, b.turn);
    let white = b.turn == Player::White;
    if king_side {
        &&& b.pos.castling & (if white { crate::defs::Castling::WK } else { crate::defs::Castling::BK }) != 0
        &&& k + 2 < 64
        &&& !bit(b.occ(), k + 1)
        &&& !bit(b.occ(), k + 2)
    } else {
        &&& b.pos.castling & (if white { crate::defs::Castling::WQ } else { crate::defs::Castling::BQ }) != 0
        &&& k >= 3
        &&& !bit(b.occ(), k - 1)
        &&& !bit(b.occ(), k - 2)
        &&& !bit(b.occ(), k - 3)
    }
}

/// A castling right toward one side is a right of that colour.
proof fn lemma_castle_rights(c: u8)
    ensures
        c & crate::defs::Castling::WK != 0 ==> c & crate::defs::Castling::WHITE_ALL != 0,
        c & crate::defs::Castling::WQ != 0 ==> c & crate::defs::Castling::WHITE_ALL != 0,
        c & crate::defs::Castling::BK != 0 ==> c & crate::defs::Castling::BLACK_ALL != 0,
        c & crate::defs::Castling::BQ != 0 ==> c & crate::defs::Castling::BLACK_ALL != 0,
{
    assert(c & 2u8 != 0 ==> c & 3u8 != 0) by (bit_vector);
    assert(c & 1u8 != 0 ==> c & 3u8 != 0) by (bit_vector);
    assert(c & 8u8 != 0 ==> c & 12u8 != 0) by (bit_vector);
    assert(c & 4u8 != 0 ==> c & 12u8 != 0) by (bit_vector);
}

/// Every open castling move is in `ms`.
pub open spec fn castles_in(b: &Board, ms: Seq<u16>) -> bool {
    forall|ks: bool| castle_open(b, ks) ==> ms.contains(#[trigger] castle_move(b, ks))
}

/// Every open castling move that is legal is in `ms`.
pub open spec fn legal_castles_in(b: &Board, ms: Seq<u16>) -> bool {
    forall|ks: bool| castle_open(b, ks) && legal_spec(b, castle_move(b, ks)) ==> ms.contains(#[trigger] castle_move(b, ks))
}

/// Every king move of the side to move onto a square not holding its own piece is among
/// `ms`.
pub open spec fn king_steps_in(b: &Board, ms: Seq<u16>) -> bool {
    forall|d: int|
        king_hits(king_sq_of(b, b.turn), d) && !bit(b.side_bb[player_idx(b.turn)], d) ==> ms.contains(
            #[trigger] king_step(b, d),
        )
}


/// Compresses a bitboard of destinations into moves from `src` (captures where an enemy
/// piece stands) and adds them to the list, lowest destination first, each with its
/// ordering score.
fn make_moves(params: &MovegenParams, src: Square, moves_bb: u64, opp_bb: u64, move_list: &mut MoveList)
    requires
        params.wf(),
        old(move_list).wf(),
        all_gen_ok(params.board, old(move_list).moves()),
        0 <= src < 64,
        params.board.at(src as int).t != PieceType::NoPiece,
        params.board.at(src as int).c == params.board.turn,
        params.board.at(src as int).t != PieceType::Pawn,
        opp_bb == params.board.side_bb[player_idx(opp_of(params.board.turn))],
        landing_ok(params.board, src as int, moves_bb),
    ensures
        final(move_list).wf(),
        all_gen_ok(params.board, final(move_list).moves()),
        final(move_list).moves().len() >= old(move_list).moves().len(),
        final(move_list).moves().subrange(0, old(move_list).moves().len() as int) == old(move_list).moves(),
        forall|i: int| old(move_list).moves().len() <= i < final(move_list).moves().len() ==> move_src(#[trigger] final(move_list).moves()[i]) == src && bit(moves_bb, move_dest(final(move_list).moves()[i])),
        forall|i: int| old(move_list).moves().len() <= i < final(move_list).moves().len() ==> (move_flag(#[trigger] final(move_list).moves()[i]) == MoveFlag::CAPTURE
            || move_flag(final(move_list).moves()[i]) == MoveFlag::QUIET),
        final(move_list).moves() == old(move_list).moves() + step_moves(src as int, moves_bb, opp_bb),
        final(move_list).scores().subrange(0, old(move_list).moves().len() as int) == old(move_list).scores(),
        forall|i: int| old(move_list).moves().len() <= i < final(move_list).moves().len() ==> move_score_ok(
            params,
            #[trigger] final(move_list).moves()[i],
            final(move_list).scores()[i] as int,
        ),
{
    let b = params.board;
    let ghost start = move_list.moves();
    let ghost start_scores = move_list.scores();
    proof {
        move_list.lemma_lengths();
    }
    let mut bb = moves_bb;
    while bb != 0
        invariant
            params.wf(),
            b == params.board,
            move_list.wf(),
            all_gen_ok(b, move_list.moves()),
            move_list.moves().len() >= start.len(),
            move_list.moves().subrange(0, start.len() as int) == start,
            0 <= src < 64,
            b.at(src as int).t != PieceType::NoPiece,
            b.at(src as int).c == b.turn,
            b.at(src as int).t != PieceType::Pawn,
            opp_bb == b.side_bb[player_idx(opp_of(b.turn))],
            landing_ok(b, src as int, moves_bb),
            forall|d: int| #[trigger] bit(bb, d) ==> bit(moves_bb, d),
            forall|i: int| start.len() <= i < move_list.moves().len() ==> move_src(#[trigger] move_list.moves()[i]) == src && bit(moves_bb, move_dest(move_list.moves()[i])),
            forall|i: int| start.len() <= i < move_list.moves().len() ==> (move_flag(#[trigger] move_list.moves()[i]) == MoveFlag::CAPTURE
                || move_flag(move_list.moves()[i]) == MoveFlag::QUIET),
            start + step_moves(src as int, moves_bb, opp_bb) == move_list.moves() + step_moves(src as int, bb, opp_bb),
            start_scores.len() == start.len(),
            move_list.scores().subrange(0, start.len() as int) == start_scores,
            forall|i: int| start.len() <= i < move_list.moves().len() ==> move_score_ok(
                params,
                #[trigger] move_list.moves()[i],
                move_list.scores()[i] as int,
            ),
        decreases bb,
    {
        let ghost old_bb = bb;
        let ghost old_moves = move_list.moves();
        let ghost old_scores = move_list.scores();
        proof {
            move_list.lemma_lengths();
        }
        let dest = BitBoard::pop_lsb(&mut bb);
        proof {
            lemma_wf_sq(b, dest as int);
            assert(bb < old_bb) by {
                lemma_pop_decreases(old_bb, dest as u64);
            }
        }
        let flag = if BitBoard::contains(opp_bb, dest) { MoveFlag::CAPTURE } else { MoveFlag::QUIET };
        let m = BitMove::from_flag(src, dest, flag);
        proof {
            lemma_encode_decode(src as int, dest as int, flag as int);
        }
        add_move(m, params, move_list);
        proof {
            move_list.lemma_lengths();
            assert(move_list.scores().subrange(0, start.len() as int) =~= start_scores) by {
                assert(old_scores.subrange(0, start.len() as int) == start_scores);
            }
            assert forall|i: int| start.len() <= i < move_list.moves().len() implies move_score_ok(
                params,
                #[trigger] move_list.moves()[i],
                move_list.scores()[i] as int,
            ) by {
                if i < old_moves.len() {
                    assert(move_list.moves()[i] == old_moves[i]);
                    assert(move_list.scores()[i] == old_scores[i]);
                }
            }
            assert(move_list.moves().subrange(0, start.len() as int) =~= start) by {
                assert(old_moves.subrange(0, start.len() as int) == start);
            }
            lemma_lsb(old_bb);
            assert(step_moves(src as int, old_bb, opp_bb) == seq![m] + step_moves(src as int, bb, opp_bb));
            assert(old_moves + step_moves(src as int, old_bb, opp_bb) =~= move_list.moves() + step_moves(src as int, bb, opp_bb));
        }
    }
    proof {
        crate::bits::lemma_zero_iff_empty(bb);
        assert(step_moves(src as int, bb, opp_bb) =~= Seq::<u16>::empty());
        assert(move_list.moves() + step_moves(src as int, bb, opp_bb) =~= move_list.moves());
    }
}

/// Facts about the square of a well-formed board used by generators.
proof fn lemma_wf_sq(b: &Board, d: int)
    requires
        b.wf(),
        0 <= d < 64,
    ensures
        bit(b.side_bb[0], d) == (b.at(d).t != PieceType::NoPiece && b.at(d).c == Player::White),
        bit(b.side_bb[1], d) == (b.at(d).t != PieceType::NoPiece && b.at(d).c == Player::Black),
        bit(b.occ(), d) == (b.at(d).t != PieceType::NoPiece),
{
    assert(bit(b.side_bb[0], d) == (b.at(d).t != PieceType::NoPiece && player_idx(b.at(d).c) == 0));
    assert(bit(b.side_bb[1], d) == (b.at(d).t != PieceType::NoPiece && player_idx(b.at(d).c) == 1));
}

proof fn bv_pop_decreases(b: u64, t: u64)
    by (bit_vector)
    requires
        t < 64,
        (b >> t) & 1u64 == 1u64,
    ensures
        b ^ (1u64 << t) < b,
{
}

/// Removing a set bit makes a bitboard smaller as a number.
pub proof fn lemma_pop_decreases(b: u64, t: u64)
    requires
        t < 64,
        bit(b, t as int),
    ensures
        b ^ (1u64 << t) < b,
{
    bv_pop_decreases(b, t);
}


/// The en passant square is absent, or lies where the pawn behind it is on the board.
pub open spec fn ep_valid(b: &Board) -> bool {
    &&& 0 <= b.pos.ep_square <= 64
    &&& b.pos.ep_square < 64 ==> 0 <= b.pos.ep_square - dir_of(b.turn) < 64
}

/// The four promotions of the pawn on `src` moving to `dest`, captures when `capture`,
/// are in `ms`.
pub open spec fn promotions_of(src: int, dest: int, capture: bool, ms: Seq<u16>) -> bool {
    let f: u8 = if capture { 4u8 } else { 0u8 };
    &&& ms.contains(encode(src, dest, (MoveFlag::PROMOTE_QUEEN | f) as int) as u16)
    &&& ms.contains(encode(src, dest, (MoveFlag::PROMOTE_KNIGHT | f) as int) as u16)
    &&& ms.contains(encode(src, dest, (MoveFlag::PROMOTE_BISHOP | f) as int) as u16)
    &&& ms.contains(encode(src, dest, (MoveFlag::PROMOTE_ROOK | f) as int) as u16)
}

/// Adds the promotions of the pawn move `src`-`dest` that `gen_type` asks for.
fn make_promotions(params: &MovegenParams, src: Square, dest: Square, gen_type: GenType, capture: bool, move_list: &mut MoveList)
    requires
        params.wf(),
        old(move_list).wf(),
        all_gen_ok(params.board, old(move_list).moves()),
        0 <= src < 64,
        0 <= dest < 64,
        src != dest,
        params.board.at(src as int) == (Piece { t: PieceType::Pawn, c: params.board.turn }),
        capture ==> params.board.at(dest as int).t != PieceType::NoPiece && params.board.at(dest as int).c == opp_of(params.board.turn),
        !capture ==> params.board.at(dest as int).t == PieceType::NoPiece,
    ensures
        final(move_list).wf(),
        all_gen_ok(params.board, final(move_list).moves()),
        final(move_list).moves().len() >= old(move_list).moves().len(),
        final(move_list).moves().subrange(0, old(move_list).moves().len() as int) == old(move_list).moves(),
        gen_type == GenType::NonEvasions ==> promotions_of(src as int, dest as int, capture, final(move_list).moves()),
        gen_type == GenType::Captures ==> final(move_list).moves().contains(
            encode(src as int, dest as int, (MoveFlag::PROMOTE_QUEEN | (if capture { 4u8 } else { 0u8 })) as int) as u16,
        ),
{
    let ghost start = move_list.moves();
    let flag = if capture { MoveFlag::CAPTURE } else { 0 };
    if gen_type == GenType::Captures || gen_type == GenType::EvadingCaptures || gen_type == GenType::Evasions || gen_type == GenType::NonEvasions {
        proof { lemma_prom_flag(MoveFlag::PROMOTE_QUEEN, flag, capture); lemma_encode_decode(src as int, dest as int, (MoveFlag::PROMOTE_QUEEN | flag) as int); }
        let m = BitMove::from_flag(src, dest, MoveFlag::PROMOTE_QUEEN | flag);
        add_move(m, params, move_list);
    }
    if gen_type == GenType::Quiets || gen_type == GenType::Evasions || gen_type == GenType::NonEvasions {
        proof { lemma_prom_flag(MoveFlag::PROMOTE_KNIGHT, flag, capture); lemma_encode_decode(src as int, dest as int, (MoveFlag::PROMOTE_KNIGHT | flag) as int); }
        let m = BitMove::from_flag(src, dest, MoveFlag::PROMOTE_KNIGHT | flag);
        add_move(m, params, move_list);
        proof { lemma_prom_flag(MoveFlag::PROMOTE_BISHOP, flag, capture); lemma_encode_decode(src as int, dest as int, (MoveFlag::PROMOTE_BISHOP | flag) as int); }
        let m = BitMove::from_flag(src, dest, MoveFlag::PROMOTE_BISHOP | flag);
        add_move(m, params, move_list);
        proof { lemma_prom_flag(MoveFlag::PROMOTE_ROOK, flag, capture); lemma_encode_decode(src as int, dest as int, (MoveFlag::PROMOTE_ROOK | flag) as int); }
        let m = BitMove::from_flag(src, dest, MoveFlag::PROMOTE_ROOK | flag);
        add_move(m, params, move_list);
    }
    proof {
        assert(move_list.moves().subrange(0, start.len() as int) =~= start);
        if gen_type == GenType::NonEvasions {
            let l = start.len() as int;
            let f: u8 = if capture { 4u8 } else { 0u8 };
            assert(flag == f);
            assert(move_list.moves()[l] == encode(src as int, dest as int, (MoveFlag::PROMOTE_QUEEN | f) as int) as u16);
            assert(move_list.moves()[l + 1] == encode(src as int, dest as int, (MoveFlag::PROMOTE_KNIGHT | f) as int) as u16);
            assert(move_list.moves()[l + 2] == encode(src as int, dest as int, (MoveFlag::PROMOTE_BISHOP | f) as int) as u16);
            assert(move_list.moves()[l + 3] == encode(src as int, dest as int, (MoveFlag::PROMOTE_ROOK | f) as int) as u16);
        }
        if gen_type == GenType::Captures {
            let l = start.len() as int;
            let f: u8 = if capture { 4u8 } else { 0u8 };
            assert(flag == f);
            assert(move_list.moves()[l] == encode(src as int, dest as int, (MoveFlag::PROMOTE_QUEEN | f) as int) as u16);
        }
    }
}

proof fn bv_prom_flag(p: u8, f: u8)
    by (bit_vector)
    requires
        8 <= p <= 11,
        f == 0 || f == 4,
    ensures
        p | f < 16,
        p | f >= 8,
        (((p | f) / 8) % 2 == 1),
        (((p | f) / 4) % 2 == 1) == (f == 4),
{
}

/// Promotion flags combined with the capture bit.
proof fn lemma_prom_flag(p: u8, f: u8, capture: bool)
    requires
        8 <= p <= 11,
        f == (if capture { 4u8 } else { 0u8 }),
    ensures
        p | f < 16,
        p | f >= 8,
        flag_is_prom((p | f) as int),
        flag_is_cap((p | f) as int) == capture,
        (p | f) != MoveFlag::EN_PASSANT,
{
    bv_prom_flag(p, f);
}


/// A pawn of the side to move stands on `s`.
pub open spec fn own_pawn(b: &Board, s: int) -> bool {
    0 <= s < 64 && b.at(s) == (Piece { t: PieceType::Pawn, c: b.turn })
}

/// The pawn move to `d` from `d - offset` fits the flag: a capture lands on an enemy
/// piece, anything else on an empty square.
pub open spec fn pawn_dest_ok(b: &Board, d: int, offset: int, capture: bool) -> bool {
    &&& 0 <= d < 64
    &&& offset != 0
    &&& own_pawn(b, d - offset)
    &&& capture ==> b.at(d).t != PieceType::NoPiece && b.at(d).c == opp_of(b.turn)
    &&& !capture ==> b.at(d).t == PieceType::NoPiece
}

/// A square of a side's pieces of one type holds such a piece.
proof fn lemma_own_piece(b: &Board, pi: int, c: Player, s: int)
    requires
        b.wf(),
        0 <= pi < 6,
        bit(b.piece_bb[pi] & b.side_bb[player_idx(c)], s),
    ensures
        0 <= s < 64,
        b.at(s).t == crate::defs::pt_of_idx(pi),
        b.at(s).c == c,
        b.at(s).t != PieceType::NoPiece,
{
    assert(bit(b.piece_bb[pi], s));
    assert(bit(b.side_bb[player_idx(c)], s));
    crate::defs::lemma_pt_idx(b.at(s).t);
    if b.at(s).c != c {
        assert(player_idx(b.at(s).c) != player_idx(c));
    }
}

/// Adds a pawn move from `d - offset` to each square `d` of `bb`, all with flag `flag`.
fn add_pawn_set(params: &MovegenParams, bb: u64, offset: Square, flag: u8, move_list: &mut MoveList)
    requires
        params.wf(),
        old(move_list).wf(),
        all_gen_ok(params.board, old(move_list).moves()),
        flag == MoveFlag::QUIET || flag == MoveFlag::DOUBLE_PAWN_PUSH || flag == MoveFlag::CAPTURE,
        -17 <= offset <= 17,
        forall|d: int| #[trigger] bit(bb, d) ==> pawn_dest_ok(params.board, d, offset as int, flag == MoveFlag::CAPTURE),
    ensures
        final(move_list).wf(),
        all_gen_ok(params.board, final(move_list).moves()),
        final(move_list).moves().len() >= old(move_list).moves().len(),
        final(move_list).moves().subrange(0, old(move_list).moves().len() as int) == old(move_list).moves(),
        forall|d: int| #[trigger] bit(bb, d) ==> final(move_list).moves().contains(encode(d - offset, d, flag as int) as u16),
{
    let ghost start = move_list.moves();
    let mut rest = bb;
    while rest != 0
        invariant
            params.wf(),
            move_list.wf(),
            all_gen_ok(params.board, move_list.moves()),
            flag == MoveFlag::QUIET || flag == MoveFlag::DOUBLE_PAWN_PUSH || flag == MoveFlag::CAPTURE,
            -17 <= offset <= 17,
            forall|d: int| #[trigger] bit(rest, d) ==> bit(bb, d),
            forall|d: int| #[trigger] bit(bb, d) ==> pawn_dest_ok(params.board, d, offset as int, flag == MoveFlag::CAPTURE),
            move_list.moves().len() >= start.len(),
            move_list.moves().subrange(0, start.len() as int) == start,
            forall|d: int| #[trigger] bit(bb, d) && !bit(rest, d) ==> move_list.moves().contains(encode(d - offset, d, flag as int) as u16),
        decreases rest,
    {
        let ghost old_rest = rest;
        let ghost list0 = move_list.moves();
        let dest = BitBoard::pop_lsb(&mut rest);
        proof {
            lemma_pop_decreases(old_rest, dest as u64);
            assert(pawn_dest_ok(params.board, dest as int, offset as int, flag == MoveFlag::CAPTURE));
        }
        let src = dest - offset;
        proof {
            lemma_encode_decode(src as int, dest as int, flag as int);
        }
        let m = BitMove::from_flag(src, dest, flag);
        add_move(m, params, move_list);
        proof {
            assert(move_list.moves().subrange(0, list0.len() as int) =~= list0);
            lemma_prefix_contains(list0, move_list.moves());
            assert(move_list.moves().subrange(0, start.len() as int) =~= start) by {
                assert(list0.subrange(0, start.len() as int) == start);
            }
            assert(move_list.moves()[list0.len() as int] == m);
        }
    }
    proof {
        crate::bits::lemma_zero_iff_empty(rest);
    }
}

/// Adds the promotions `gen_type` asks for, from `d - offset` to each square `d` of `bb`.
fn add_promo_set(params: &MovegenParams, bb: u64, offset: Square, gen_type: GenType, capture: bool, move_list: &mut MoveList)
    requires
        params.wf(),
        old(move_list).wf(),
        all_gen_ok(params.board, old(move_list).moves()),
        -17 <= offset <= 17,
        forall|d: int| #[trigger] bit(bb, d) ==> pawn_dest_ok(params.board, d, offset as int, capture),
    ensures
        final(move_list).wf(),
        all_gen_ok(params.board, final(move_list).moves()),
        final(move_list).moves().len() >= old(move_list).moves().len(),
        final(move_list).moves().subrange(0, old(move_list).moves().len() as int) == old(move_list).moves(),
        gen_type == GenType::NonEvasions ==> forall|d: int| #[trigger] bit(bb, d) ==> promotions_of(
            d - offset,
            d,
            capture,
            final(move_list).moves(),
        ),
        gen_type == GenType::Captures ==> forall|d: int| #[trigger] bit(bb, d) ==> final(move_list).moves().contains(
            encode(d - offset, d, (MoveFlag::PROMOTE_QUEEN | (if capture { 4u8 } else { 0u8 })) as int) as u16,
        ),
{
    let ghost start = move_list.moves();
    let mut rest = bb;
    while rest != 0
        invariant
            params.wf(),
            move_list.wf(),
            all_gen_ok(params.board, move_list.moves()),
            -17 <= offset <= 17,
            forall|d: int| #[trigger] bit(rest, d) ==> pawn_dest_ok(params.board, d, offset as int, capture),
            move_list.moves().len() >= start.len(),
            move_list.moves().subrange(0, start.len() as int) == start,
            forall|d: int| #[trigger] bit(rest, d) ==> bit(bb, d),
            forall|d: int| #[trigger] bit(bb, d) ==> pawn_dest_ok(params.board, d, offset as int, capture),
            gen_type == GenType::NonEvasions ==> forall|d: int| #[trigger] bit(bb, d) && !bit(rest, d) ==> promotions_of(
                d - offset,
                d,
                capture,
                move_list.moves(),
            ),
            gen_type == GenType::Captures ==> forall|d: int| #[trigger] bit(bb, d) && !bit(rest, d) ==> move_list.moves().contains(
                encode(d - offset, d, (MoveFlag::PROMOTE_QUEEN | (if capture { 4u8 } else { 0u8 })) as int) as u16,
            ),
        decreases rest,
    {
        let ghost list0 = move_list.moves();
        let ghost old_rest = rest;
        let dest = BitBoard::pop_lsb(&mut rest);
        proof {
            lemma_pop_decreases(old_rest, dest as u64);
            assert(pawn_dest_ok(params.board, dest as int, offset as int, capture));
        }
        let src = dest - offset;
        make_promotions(params, src, dest, gen_type, capture, move_list);
        proof {
            lemma_prefix_contains(list0, move_list.moves());
            assert(move_list.moves().subrange(0, start.len() as int) =~= start) by {
                assert(list0.subrange(0, start.len() as int) == start);
                assert forall|j: int| 0 <= j < start.len() implies move_list.moves()[j] == start[j] by {
                    assert(move_list.moves().subrange(0, list0.len() as int)[j] == move_list.moves()[j]);
                    assert(list0.subrange(0, start.len() as int)[j] == list0[j]);
                }
            }
        }
    }
    proof {
        crate::bits::lemma_zero_iff_empty(rest);
    }
}


/// A square `d` with an own pawn `offset` behind it is a pawn destination: a capture when an
/// enemy piece stands on `d`, a push when `d` is empty.
proof fn lemma_pawn_dest(b: &Board, d: int, offset: int, capture: bool)
    requires
        b.wf(),
        0 <= d < 64,
        offset != 0,
        bit(b.piece_bb[0] & b.side_bb[player_idx(b.turn)], d - offset),
        capture ==> bit(b.side_bb[player_idx(opp_of(b.turn))], d),
        !capture ==> !bit(b.occ(), d),
    ensures
        pawn_dest_ok(b, d, offset, capture),
{
    lemma_own_piece(b, 0, b.turn, d - offset);
    lemma_wf_sq(b, d);
}

/// Adds an en passant capture onto the en passant square from each square of `bb`.
fn add_ep_set(params: &MovegenParams, bb: u64, move_list: &mut MoveList)
    requires
        params.wf(),
        old(move_list).wf(),
        all_gen_ok(params.board, old(move_list).moves()),
        0 <= params.board.pos.ep_square < 64,
        forall|s: int| #[trigger] bit(bb, s) ==> own_pawn(params.board, s) && s != params.board.pos.ep_square,
    ensures
        final(move_list).wf(),
        all_gen_ok(params.board, final(move_list).moves()),
        final(move_list).moves().len() >= old(move_list).moves().len(),
        final(move_list).moves().subrange(0, old(move_list).moves().len() as int) == old(move_list).moves(),
{
    let ghost start = move_list.moves();
    let ep = params.board.pos.ep_square;
    let mut rest = bb;
    while rest != 0
        invariant
            params.wf(),
            move_list.wf(),
            all_gen_ok(params.board, move_list.moves()),
            ep == params.board.pos.ep_square,
            0 <= ep < 64,
            forall|s: int| #[trigger] bit(rest, s) ==> own_pawn(params.board, s) && s != ep,
            move_list.moves().len() >= start.len(),
            move_list.moves().subrange(0, start.len() as int) == start,
        decreases rest,
    {
        let ghost list0 = move_list.moves();
        let ghost old_rest = rest;
        let src = BitBoard::pop_lsb(&mut rest);
        proof {
            lemma_pop_decreases(old_rest, src as u64);
            assert(own_pawn(params.board, src as int));
            lemma_encode_decode(src as int, ep as int, MoveFlag::EN_PASSANT as int);
        }
        let m = BitMove::from_flag(src, ep, MoveFlag::EN_PASSANT);
        add_move(m, params, move_list);
        proof {
            assert(move_list.moves().subrange(0, start.len() as int) =~= start) by {
                assert(list0.subrange(0, start.len() as int) == start);
            }
        }
    }
}

/// A list that begins with a list beginning with `a` begins with `a`.
proof fn lemma_prefix_trans(a: Seq<u16>, b: Seq<u16>, c: Seq<u16>)
    requires
        a.len() <= b.len(),
        b.subrange(0, a.len() as int) == a,
        b.len() <= c.len(),
        c.subrange(0, b.len() as int) == b,
    ensures
        a.len() <= c.len(),
        c.subrange(0, a.len() as int) == a,
{
    assert forall|j: int| 0 <= j < a.len() implies c.subrange(0, a.len() as int)[j] == a[j] by {
        assert(c.subrange(0, b.len() as int)[j] == c[j]);
        assert(b.subrange(0, a.len() as int)[j] == b[j]);
    }
    assert(c.subrange(0, a.len() as int) =~= a);
}

/// The pawns of the side to move not on their seventh rank.
pub open spec fn pawns_below_seventh(b: &Board) -> u64 {
    (b.piece_bb[0] & b.side_bb[player_idx(b.turn)]) & !(if b.turn == Player::White {
        BitBoard::RANK_7
    } else {
        BitBoard::RANK_2
    })
}

/// `d` is the empty square one step ahead of a pawn of the side to move below its
/// seventh rank.
pub open spec fn push_dest(b: &Board, d: int) -> bool {
    0 <= d < 64 && bit(pawns_below_seventh(b), d - dir_of(b.turn)) && !bit(b.occ(), d)
}

/// `d` is the empty square two steps ahead of a pawn of the side to move on its second
/// rank, with the square between empty.
pub open spec fn double_push_dest(b: &Board, d: int) -> bool {
    let third = if b.turn == Player::White { BitBoard::RANK_3 } else { BitBoard::RANK_6 };
    &&& 0 <= d < 64
    &&& push_dest(b, d - dir_of(b.turn))
    &&& bit(third, d - dir_of(b.turn))
    &&& !bit(b.occ(), d)
}

/// `d` holds an enemy piece that a pawn of the side to move below its seventh rank
/// takes from `d - offset`, where the offset is one step ahead and one file to the side
/// (`off_file` the file the pawn may not stand on).
pub open spec fn pawn_capture_dest(b: &Board, d: int, offset: int, off_file: int) -> bool {
    &&& 0 <= d < 64
    &&& bit(pawns_below_seventh(b), d - offset)
    &&& file_of(d - offset) != off_file
    &&& bit(b.side_bb[player_idx(opp_of(b.turn))], d)
}

/// Every push, double push and capture of a pawn of the side to move below its seventh
/// rank is among `ms`.
pub open spec fn pawn_steps_in(b: &Board, ms: Seq<u16>) -> bool {
    let dir = dir_of(b.turn);
    &&& forall|d: int| #[trigger] push_dest(b, d) ==> ms.contains(encode(d - dir, d, MoveFlag::QUIET as int) as u16)
    &&& forall|d: int| #[trigger] double_push_dest(b, d) ==> ms.contains(
        encode(d - dir - dir, d, MoveFlag::DOUBLE_PAWN_PUSH as int) as u16,
    )
    &&& forall|d: int| #[trigger] pawn_capture_dest(b, d, dir + 1, 7) ==> ms.contains(
        encode(d - (dir + 1), d, MoveFlag::CAPTURE as int) as u16,
    )
    &&& forall|d: int| #[trigger] pawn_capture_dest(b, d, dir - 1, 0) ==> ms.contains(
        encode(d - (dir - 1), d, MoveFlag::CAPTURE as int) as u16,
    )
}

/// Every capture of a pawn of the side to move below its seventh rank is among `ms`.
pub open spec fn pawn_captures_in(b: &Board, ms: Seq<u16>) -> bool {
    let dir = dir_of(b.turn);
    &&& forall|d: int| #[trigger] pawn_capture_dest(b, d, dir + 1, 7) ==> ms.contains(
        encode(d - (dir + 1), d, MoveFlag::CAPTURE as int) as u16,
    )
    &&& forall|d: int| #[trigger] pawn_capture_dest(b, d, dir - 1, 0) ==> ms.contains(
        encode(d - (dir - 1), d, MoveFlag::CAPTURE as int) as u16,
    )
}

/// What a list holding the pawn captures begins, a longer list holds too.
proof fn lemma_pawn_captures_keep(b: &Board, a: Seq<u16>, c: Seq<u16>)
    requires
        pawn_captures_in(b, a),
        a.len() <= c.len(),
        c.subrange(0, a.len() as int) == a,
    ensures
        pawn_captures_in(b, c),
{
    lemma_prefix_contains(a, c);
}

/// Every legal push, double push and capture of a pawn of the side to move below its
/// seventh rank is among `ms`.
pub open spec fn legal_pawn_steps_in(b: &Board, ms: Seq<u16>) -> bool {
    let dir = dir_of(b.turn);
    &&& forall|d: int| #[trigger] push_dest(b, d) && legal_spec(b, encode(d - dir, d, MoveFlag::QUIET as int) as u16)
        ==> ms.contains(encode(d - dir, d, MoveFlag::QUIET as int) as u16)
    &&& forall|d: int| #[trigger] double_push_dest(b, d) && legal_spec(
        b,
        encode(d - dir - dir, d, MoveFlag::DOUBLE_PAWN_PUSH as int) as u16,
    ) ==> ms.contains(encode(d - dir - dir, d, MoveFlag::DOUBLE_PAWN_PUSH as int) as u16)
    &&& forall|d: int| #[trigger] pawn_capture_dest(b, d, dir + 1, 7) && legal_spec(
        b,
        encode(d - (dir + 1), d, MoveFlag::CAPTURE as int) as u16,
    ) ==> ms.contains(encode(d - (dir + 1), d, MoveFlag::CAPTURE as int) as u16)
    &&& forall|d: int| #[trigger] pawn_capture_dest(b, d, dir - 1, 0) && legal_spec(
        b,
        encode(d - (dir - 1), d, MoveFlag::CAPTURE as int) as u16,
    ) ==> ms.contains(encode(d - (dir - 1), d, MoveFlag::CAPTURE as int) as u16)
}

/// A list that begins with `a` holds every pawn move `a` holds.
proof fn lemma_pawn_steps_keep(b: &Board, a: Seq<u16>, c: Seq<u16>)
    requires
        pawn_steps_in(b, a),
        a.len() <= c.len(),
        c.subrange(0, a.len() as int) == a,
    ensures
        pawn_steps_in(b, c),
{
    lemma_prefix_contains(a, c);
}

/// The legal moves of a list holding the pawn moves, kept in another list.
proof fn lemma_legal_pawn_steps(b: &Board, pseudo: Seq<u16>, ms: Seq<u16>)
    requires
        pawn_steps_in(b, pseudo),
        forall|j: int| 0 <= j < pseudo.len() && legal_spec(b, pseudo[j]) ==> ms.contains(#[trigger] pseudo[j]),
    ensures
        legal_pawn_steps_in(b, ms),
{
    assert forall|x: u16| pseudo.contains(x) && legal_spec(b, x) implies #[trigger] ms.contains(x) by {
        let j = choose|j: int| 0 <= j < pseudo.len() && pseudo[j] == x;
        assert(legal_spec(b, pseudo[j]));
    }
}

/// The pawns of the side to move on its seventh rank.
pub open spec fn pawns_on_seventh(b: &Board) -> u64 {
    (b.piece_bb[0] & b.side_bb[player_idx(b.turn)]) & (if b.turn == Player::White {
        BitBoard::RANK_7
    } else {
        BitBoard::RANK_2
    })
}

/// `d` is the empty square ahead of a pawn of the side to move on its seventh rank.
pub open spec fn promo_push_dest(b: &Board, d: int) -> bool {
    0 <= d < 64 && bit(pawns_on_seventh(b), d - dir_of(b.turn)) && !bit(b.occ(), d)
}

/// `d` holds an enemy piece diagonally ahead, `offset` away, of a pawn of the side to move
/// on its seventh rank that is not on file `off_file`.
pub open spec fn promo_capture_dest(b: &Board, d: int, offset: int, off_file: int) -> bool {
    &&& 0 <= d < 64
    &&& bit(pawns_on_seventh(b), d - offset)
    &&& file_of(d - offset) != off_file
    &&& bit(b.side_bb[player_idx(opp_of(b.turn))], d)
}

/// Every promotion of a pawn of the side to move, by push or capture, to each of the four
/// pieces is among `ms`.
pub open spec fn promotions_in(b: &Board, ms: Seq<u16>) -> bool {
    let dir = dir_of(b.turn);
    &&& forall|d: int| #[trigger] promo_push_dest(b, d) ==> promotions_of(d - dir, d, false, ms)
    &&& forall|d: int| #[trigger] promo_capture_dest(b, d, dir + 1, 7) ==> promotions_of(d - (dir + 1), d, true, ms)
    &&& forall|d: int| #[trigger] promo_capture_dest(b, d, dir - 1, 0) ==> promotions_of(d - (dir - 1), d, true, ms)
}

/// Every promotion to a queen of a pawn of the side to move, by push or capture, is among
/// `ms`.
pub open spec fn queen_promotions_in(b: &Board, ms: Seq<u16>) -> bool {
    let dir = dir_of(b.turn);
    &&& forall|d: int| #[trigger] promo_push_dest(b, d) ==> ms.contains(
        encode(d - dir, d, (MoveFlag::PROMOTE_QUEEN | 0u8) as int) as u16,
    )
    &&& forall|d: int| #[trigger] promo_capture_dest(b, d, dir + 1, 7) ==> ms.contains(
        encode(d - (dir + 1), d, (MoveFlag::PROMOTE_QUEEN | 4u8) as int) as u16,
    )
    &&& forall|d: int| #[trigger] promo_capture_dest(b, d, dir - 1, 0) ==> ms.contains(
        encode(d - (dir - 1), d, (MoveFlag::PROMOTE_QUEEN | 4u8) as int) as u16,
    )
}

/// What a list holding the queen promotions begins, a longer list holds too.
proof fn lemma_queen_promotions_keep(b: &Board, a: Seq<u16>, c: Seq<u16>)
    requires
        queen_promotions_in(b, a),
        a.len() <= c.len(),
        c.subrange(0, a.len() as int) == a,
    ensures
        queen_promotions_in(b, c),
{
    lemma_prefix_contains(a, c);
}

/// Each legal one of the four promotions of the pawn on `src` moving to `dest` is in `ms`.
pub open spec fn legal_promotions_of(b: &Board, src: int, dest: int, capture: bool, ms: Seq<u16>) -> bool {
    let f: u8 = if capture { 4u8 } else { 0u8 };
    let q = encode(src, dest, (MoveFlag::PROMOTE_QUEEN | f) as int) as u16;
    let n = encode(src, dest, (MoveFlag::PROMOTE_KNIGHT | f) as int) as u16;
    let bi = encode(src, dest, (MoveFlag::PROMOTE_BISHOP | f) as int) as u16;
    let r = encode(src, dest, (MoveFlag::PROMOTE_ROOK | f) as int) as u16;
    &&& legal_spec(b, q) ==> ms.contains(q)
    &&& legal_spec(b, n) ==> ms.contains(n)
    &&& legal_spec(b, bi) ==> ms.contains(bi)
    &&& legal_spec(b, r) ==> ms.contains(r)
}

/// Every legal promotion of a pawn of the side to move is among `ms`.
pub open spec fn legal_promotions_in(b: &Board, ms: Seq<u16>) -> bool {
    let dir = dir_of(b.turn);
    &&& forall|d: int| #[trigger] promo_push_dest(b, d) ==> legal_promotions_of(b, d - dir, d, false, ms)
    &&& forall|d: int| #[trigger] promo_capture_dest(b, d, dir + 1, 7) ==> legal_promotions_of(b, d - (dir + 1), d, true, ms)
    &&& forall|d: int| #[trigger] promo_capture_dest(b, d, dir - 1, 0) ==> legal_promotions_of(b, d - (dir - 1), d, true, ms)
}

/// What a list holding the promotions begins, a longer list holds too.
proof fn lemma_promotions_keep(b: &Board, a: Seq<u16>, c: Seq<u16>)
    requires
        promotions_in(b, a),
        a.len() <= c.len(),
        c.subrange(0, a.len() as int) == a,
    ensures
        promotions_in(b, c),
{
    lemma_prefix_contains(a, c);
}

/// The legal moves of a list holding the promotions, kept in another list.
proof fn lemma_legal_promotions(b: &Board, pseudo: Seq<u16>, ms: Seq<u16>)
    requires
        promotions_in(b, pseudo),
        forall|j: int| 0 <= j < pseudo.len() && legal_spec(b, pseudo[j]) ==> ms.contains(#[trigger] pseudo[j]),
    ensures
        legal_promotions_in(b, ms),
{
    assert forall|x: u16| pseudo.contains(x) && legal_spec(b, x) implies #[trigger] ms.contains(x) by {
        let j = choose|j: int| 0 <= j < pseudo.len() && pseudo[j] == x;
        assert(legal_spec(b, pseudo[j]));
    }
}

/// Adds the pawn moves of the side to move that `gen_type` asks for; evasions are
/// restricted to `target` (pushes) and to the checkers (captures).
fn gen_pawn_moves(params: &MovegenParams, target: u64, gen_type: GenType, move_list: &mut MoveList)
    requires
        params.wf(),
        old(move_list).wf(),
        all_gen_ok(params.board, old(move_list).moves()),
    ensures
        final(move_list).wf(),
        all_gen_ok(params.board, final(move_list).moves()),
        final(move_list).moves().len() >= old(move_list).moves().len(),
        final(move_list).moves().subrange(0, old(move_list).moves().len() as int) == old(move_list).moves(),
        gen_type == GenType::NonEvasions ==> pawn_steps_in(params.board, final(move_list).moves()),
        gen_type == GenType::NonEvasions ==> promotions_in(params.board, final(move_list).moves()),
        gen_type == GenType::Captures ==> pawn_captures_in(params.board, final(move_list).moves()),
        gen_type == GenType::Captures ==> queen_promotions_in(params.board, final(move_list).moves()),
{
    let ghost start = move_list.moves();
    let b = params.board;
    let us = b.turn;
    let opp = us.opp();
    let opp_bb = b.player_bb(opp);
    let occ = b.occ_bb();
    let pawn_dir = us.pawn_dir();
    let rank_3 = us.rank_3();
    let rank_7 = us.rank_7();
    let pawns = b.player_piece_bb(us, PieceType::Pawn);
    let pwn_rank_7 = pawns & rank_7;
    let pwn_not_rank_7 = pawns & !rank_7;
    let ghost dir = pawn_dir as int;

    // Quiet pushes
    if gen_type != GenType::Captures && gen_type != GenType::EvadingCaptures {
        let one = pawn_push(pwn_not_rank_7, us) & !occ;
        let two = pawn_push(one & rank_3, us) & !occ;
        let mut m1 = one;
        let mut m2 = two;
        if gen_type == GenType::Evasions {
            m1 = m1 & target;
            m2 = m2 & target;
        } else if gen_type == GenType::QuietChecks {
            let opp_king_sq = b.king_square(opp);
            proof {
                lemma_lsb(b.piece_bb[5] & b.side_bb[player_idx(opp)]);
            }
            let blockers = b.blockers(opp) & pwn_not_rank_7 & !BitBoard::file_bb(opp_king_sq);
            let atk = pawn_attacks(opp_king_sq, opp);
            m1 = m1 & (atk | pawn_push(blockers, us));
            m2 = m2 & (atk | double_pawn_push(blockers, us));
        }
        proof {
            assert forall|d: int| #[trigger] bit(m1, d) implies pawn_dest_ok(b, d, dir, false) by {
                assert(bit(one, d));
                lemma_pawn_dest(b, d, dir, false);
            }
            assert forall|d: int| #[trigger] bit(m2, d) implies pawn_dest_ok(b, d, dir + dir, false) by {
                assert(bit(two, d));
                assert(bit(one & rank_3, d - dir));
                assert(bit(one, d - dir));
                lemma_pawn_dest(b, d, dir + dir, false);
            }
        }
        let ghost p0 = move_list.moves();
        add_pawn_set(params, m1, pawn_dir, MoveFlag::QUIET, move_list);
        let ghost p1 = move_list.moves();
        add_pawn_set(params, m2, pawn_dir + pawn_dir, MoveFlag::DOUBLE_PAWN_PUSH, move_list);
        proof {
            lemma_prefix_trans(p0, p1, move_list.moves());
            lemma_prefix_contains(p1, move_list.moves());
            if gen_type == GenType::NonEvasions {
                assert(pwn_not_rank_7 == pawns_below_seventh(b));
                assert forall|d: int| #[trigger] push_dest(b, d) implies move_list.moves().contains(
                    encode(d - dir, d, MoveFlag::QUIET as int) as u16,
                ) by {
                    assert(bit(one, d));
                    assert(p1.contains(encode(d - dir, d, MoveFlag::QUIET as int) as u16));
                }
                assert forall|d: int| #[trigger] double_push_dest(b, d) implies move_list.moves().contains(
                    encode(d - dir - dir, d, MoveFlag::DOUBLE_PAWN_PUSH as int) as u16,
                ) by {
                    assert(bit(one, d - dir));
                    assert(bit(one & rank_3, d - dir));
                    assert(bit(two, d));
                }
            }
        }
    }
    let ghost l_push = move_list.moves();
    proof {
        assert(start.len() <= l_push.len() && l_push.subrange(0, start.len() as int) =~= start);
    }

    // Captures
    if gen_type != GenType::Quiets && gen_type != GenType::QuietChecks {
        let mut m1 = pawn_cap_east(pwn_not_rank_7, us) & opp_bb;
        let mut m2 = pawn_cap_west(pwn_not_rank_7, us) & opp_bb;
        if gen_type == GenType::Evasions || gen_type == GenType::EvadingCaptures {
            m1 = m1 & b.pos.checkers_bb;
            m2 = m2 & b.pos.checkers_bb;
        }
        proof {
            assert forall|d: int| #[trigger] bit(m1, d) implies pawn_dest_ok(b, d, dir + 1, true) by {
                lemma_pawn_dest(b, d, dir + 1, true);
            }
            assert forall|d: int| #[trigger] bit(m2, d) implies pawn_dest_ok(b, d, dir - 1, true) by {
                lemma_pawn_dest(b, d, dir - 1, true);
            }
        }
        let ghost c0 = move_list.moves();
        add_pawn_set(params, m1, pawn_dir + 1, MoveFlag::CAPTURE, move_list);
        let ghost c1 = move_list.moves();
        add_pawn_set(params, m2, pawn_dir - 1, MoveFlag::CAPTURE, move_list);
        let ghost c2 = move_list.moves();
        proof {
            lemma_prefix_trans(c0, c1, c2);
            lemma_prefix_contains(c1, c2);
            lemma_prefix_contains(c0, c2);
            if gen_type == GenType::NonEvasions || gen_type == GenType::Captures {
                assert(pwn_not_rank_7 == pawns_below_seventh(b));
                assert forall|d: int| #[trigger] pawn_capture_dest(b, d, dir + 1, 7) implies c2.contains(
                    encode(d - (dir + 1), d, MoveFlag::CAPTURE as int) as u16,
                ) by {
                    assert(bit(m1, d));
                    assert(c1.contains(encode(d - (dir + 1), d, MoveFlag::CAPTURE as int) as u16));
                }
                assert forall|d: int| #[trigger] pawn_capture_dest(b, d, dir - 1, 0) implies c2.contains(
                    encode(d - (dir - 1), d, MoveFlag::CAPTURE as int) as u16,
                ) by {
                    assert(bit(m2, d));
                }
            }
        }

        if b.can_ep() {
            let ep = b.pos.ep_square;
            let ep_file = b.ep_file();
            let ep_pawn_sq = ep - pawn_dir;
            let m3 = pwn_not_rank_7 & BitBoard::rank_bb(ep_pawn_sq) & adjacent_files(ep_file);
            proof {
                assert forall|s: int| #[trigger] bit(m3, s) implies own_pawn(b, s) && s != ep by {
                    lemma_own_piece(b, 0, us, s);
                    assert(rank_of(s) == rank_of(ep - dir));
                }
            }
            add_ep_set(params, m3, move_list);
            proof {
                lemma_prefix_trans(c0, c2, move_list.moves());
                lemma_prefix_contains(c2, move_list.moves());
            }
        }
        proof {
            assert(c0 == l_push);
        }
    }
    let ghost l_cap = move_list.moves();
    proof {
        assert(l_cap.subrange(0, l_cap.len() as int) =~= l_cap);
        assert(l_push.len() <= l_cap.len() && l_cap.subrange(0, l_push.len() as int) == l_push);
        lemma_prefix_trans(start, l_push, l_cap);
        lemma_prefix_contains(l_push, l_cap);
        if gen_type == GenType::NonEvasions {
            assert(pawn_steps_in(b, l_cap));
        }
        if gen_type == GenType::Captures {
            assert(pawn_captures_in(b, l_cap));
        }
    }

    // Promotions
    if pwn_rank_7 != 0 && gen_type != GenType::QuietChecks {
        let mut m1 = pawn_push(pwn_rank_7, us) & !occ;
        let mut m2 = pawn_cap_east(pwn_rank_7, us) & opp_bb;
        let mut m3 = pawn_cap_west(pwn_rank_7, us) & opp_bb;
        if gen_type == GenType::Evasions || gen_type == GenType::EvadingCaptures {
            m1 = m1 & target;
            m2 = m2 & target;
            m3 = m3 & target;
        }
        proof {
            assert forall|d: int| #[trigger] bit(m1, d) implies pawn_dest_ok(b, d, dir, false) by {
                lemma_pawn_dest(b, d, dir, false);
            }
            assert forall|d: int| #[trigger] bit(m2, d) implies pawn_dest_ok(b, d, dir + 1, true) by {
                lemma_pawn_dest(b, d, dir + 1, true);
            }
            assert forall|d: int| #[trigger] bit(m3, d) implies pawn_dest_ok(b, d, dir - 1, true) by {
                lemma_pawn_dest(b, d, dir - 1, true);
            }
        }
        let ghost q0 = move_list.moves();
        add_promo_set(params, m1, pawn_dir, gen_type, false, move_list);
        let ghost q1 = move_list.moves();
        add_promo_set(params, m2, pawn_dir + 1, gen_type, true, move_list);
        let ghost q2 = move_list.moves();
        add_promo_set(params, m3, pawn_dir - 1, gen_type, true, move_list);
        proof {
            lemma_prefix_trans(q0, q1, q2);
            lemma_prefix_trans(q0, q2, move_list.moves());
            lemma_prefix_trans(q1, q2, move_list.moves());
            lemma_prefix_contains(q1, move_list.moves());
            lemma_prefix_contains(q2, move_list.moves());
            if gen_type == GenType::Captures {
                assert(pwn_rank_7 == pawns_on_seventh(b));
                assert forall|d: int| #[trigger] promo_push_dest(b, d) implies move_list.moves().contains(
                    encode(d - dir, d, (MoveFlag::PROMOTE_QUEEN | 0u8) as int) as u16,
                ) by {
                    assert(bit(m1, d));
                }
                assert forall|d: int| #[trigger] promo_capture_dest(b, d, dir + 1, 7) implies move_list.moves().contains(
                    encode(d - (dir + 1), d, (MoveFlag::PROMOTE_QUEEN | 4u8) as int) as u16,
                ) by {
                    assert(bit(m2, d));
                }
                assert forall|d: int| #[trigger] promo_capture_dest(b, d, dir - 1, 0) implies move_list.moves().contains(
                    encode(d - (dir - 1), d, (MoveFlag::PROMOTE_QUEEN | 4u8) as int) as u16,
                ) by {
                    assert(bit(m3, d));
                }
            }
            if gen_type == GenType::NonEvasions {
                assert(pwn_rank_7 == pawns_on_seventh(b));
                assert forall|d: int| #[trigger] promo_push_dest(b, d) implies promotions_of(d - dir, d, false, move_list.moves()) by {
                    assert(bit(m1, d));
                }
                assert forall|d: int| #[trigger] promo_capture_dest(b, d, dir + 1, 7) implies promotions_of(
                    d - (dir + 1),
                    d,
                    true,
                    move_list.moves(),
                ) by {
                    assert(bit(m2, d));
                }
                assert forall|d: int| #[trigger] promo_capture_dest(b, d, dir - 1, 0) implies promotions_of(
                    d - (dir - 1),
                    d,
                    true,
                    move_list.moves(),
                ) by {
                    assert(bit(m3, d));
                }
            }
        }
    } else {
        proof {
            if gen_type == GenType::NonEvasions || gen_type == GenType::Captures {
                assert(pwn_rank_7 == pawns_on_seventh(b));
                assert forall|d: int| !bit(pwn_rank_7, d) by {
                    crate::bits::lemma_zero_iff_empty(pwn_rank_7);
                }
            }
        }
    }
    proof {
        assert(move_list.moves().subrange(0, move_list.moves().len() as int) =~= move_list.moves());
        assert(l_cap.len() <= move_list.moves().len() && move_list.moves().subrange(0, l_cap.len() as int) == l_cap);
        lemma_prefix_trans(start, l_cap, move_list.moves());
        if gen_type == GenType::NonEvasions {
            lemma_pawn_steps_keep(b, l_cap, move_list.moves());
        }
        if gen_type == GenType::Captures {
            lemma_pawn_captures_keep(b, l_cap, move_list.moves());
        }
    }
}


/// Adds the knight, bishop, rook or queen moves of the side to move onto `target`; for
/// quiet checks only those that give check directly, or uncover one.
#[verifier::rlimit(40)]
fn gen_piece_moves(params: &MovegenParams, piece: PieceType, target: u64, checks: bool, move_list: &mut MoveList)
    requires
        params.wf(),
        old(move_list).wf(),
        all_gen_ok(params.board, old(move_list).moves()),
        piece == PieceType::Knight || piece == PieceType::Bishop || piece == PieceType::Rook || piece == PieceType::Queen,
        forall|d: int| #[trigger] bit(target, d) ==> !bit(params.board.side_bb[player_idx(params.board.turn)], d),
    ensures
        final(move_list).wf(),
        all_gen_ok(params.board, final(move_list).moves()),
        final(move_list).moves().len() >= old(move_list).moves().len(),
        final(move_list).moves().subrange(0, old(move_list).moves().len() as int) == old(move_list).moves(),
        !checks ==> piece_steps_in(params.board, piece, target, final(move_list).moves()),
{
    let ghost start = move_list.moves();
    let b = params.board;
    let us = b.turn;
    let opp = us.opp();
    let opp_bb = b.player_bb(opp);
    let occ = b.occ_bb();
    let all = b.player_piece_bb(us, piece);
    let mut piece_bb = all;
    while piece_bb != 0
        invariant
            params.wf(),
            b == params.board,
            us == b.turn,
            move_list.wf(),
            all_gen_ok(b, move_list.moves()),
            piece == PieceType::Knight || piece == PieceType::Bishop || piece == PieceType::Rook || piece == PieceType::Queen,
            forall|d: int| #[trigger] bit(target, d) ==> !bit(b.side_bb[player_idx(us)], d),
            opp_bb == b.side_bb[player_idx(opp_of(us))],
            all == b.piece_bb[pt_idx(piece)] & b.side_bb[player_idx(us)],
            forall|s: int| #[trigger] bit(piece_bb, s) ==> bit(all, s),
            occ == b.occ(),
            move_list.moves().len() >= start.len(),
            move_list.moves().subrange(0, start.len() as int) == start,
            !checks ==> forall|sq: int, d: int|
                bit(all, sq) && !bit(piece_bb, sq) && piece_hits(piece, sq, b.occ(), b.turn, d) && bit(target, d)
                    ==> move_list.moves().contains(#[trigger] piece_step(b, sq, d)),
        decreases piece_bb,
    {
        let ghost list0 = move_list.moves();
        let ghost old_bb = piece_bb;
        let sq = BitBoard::pop_lsb(&mut piece_bb);
        proof {
            lemma_pop_decreases(old_bb, sq as u64);
            crate::defs::lemma_pt_idx(piece);
            lemma_own_piece(b, pt_idx(piece), us, sq as int);
        }
        let mut bb = attacks(piece, sq, occ, us) & target;
        if checks {
            // Moving a blocker also gives check
            if piece == PieceType::Queen || b.pos.king_blockers[opp.as_usize()] & BitBoard::from_sq(sq) == 0 {
                bb = bb & b.pos.check_squares[piece.as_usize()];
            }
        }
        make_moves(params, sq, bb, opp_bb, move_list);
        proof {
            lemma_prefix_contains(list0, move_list.moves());
            assert(move_list.moves().subrange(0, start.len() as int) =~= start) by {
                assert(list0.subrange(0, start.len() as int) == start);
                assert(move_list.moves().subrange(0, list0.len() as int) == list0);
            }
            if !checks {
                assert forall|s2: int, d: int|
                    bit(all, s2) && !bit(piece_bb, s2) && piece_hits(piece, s2, b.occ(), b.turn, d) && bit(target, d)
                        implies move_list.moves().contains(#[trigger] piece_step(b, s2, d)) by {
                    if s2 == sq as int {
                        assert(bit(bb, d));
                        lemma_step_moves_contains(sq as int, bb, opp_bb, d);
                        let x = piece_step(b, s2, d);
                        let sm = step_moves(sq as int, bb, opp_bb);
                        let j = choose|j: int| 0 <= j < sm.len() && sm[j] == x;
                        assert(move_list.moves()[list0.len() + j] == x);
                    } else {
                        assert(list0.contains(piece_step(b, s2, d)));
                    }
                }
            }
        }
    }
    proof {
        if !checks {
            crate::bits::lemma_zero_iff_empty(piece_bb);
        }
    }
}

/// The pseudo-legal moves of kind `gen_type`: pawn and piece moves onto the target squares,
/// king moves, and castling for quiet and non-evasion generation.
fn generate_all_moves(gen_type: GenType, params: &MovegenParams, move_list: &mut MoveList)
    requires
        params.wf(),
        old(move_list).wf(),
        all_gen_ok(params.board, old(move_list).moves()),
        gen_type == GenType::Evasions || gen_type == GenType::EvadingCaptures ==> params.board.pos.checkers_bb != 0,
    ensures
        final(move_list).wf(),
        all_gen_ok(params.board, final(move_list).moves()),
        final(move_list).moves().len() >= old(move_list).moves().len(),
        final(move_list).moves().subrange(0, old(move_list).moves().len() as int) == old(move_list).moves(),
        gen_type == GenType::Evasions || gen_type == GenType::NonEvasions ==> king_steps_in(
            params.board,
            final(move_list).moves(),
        ),
        gen_type == GenType::NonEvasions ==> pawn_steps_in(params.board, final(move_list).moves()),
        gen_type == GenType::NonEvasions ==> promotions_in(params.board, final(move_list).moves()),
        gen_type == GenType::NonEvasions && params.board.pos.checkers_bb == 0 ==> castles_in(
            params.board,
            final(move_list).moves(),
        ),
        (gen_type == GenType::Evasions || gen_type == GenType::EvadingCaptures) && squares(params.board.pos.checkers_bb).len()
            > 1 ==> {
            &&& final(move_list).moves().len() >= old(move_list).moves().len()
            &&& final(move_list).moves().subrange(0, old(move_list).moves().len() as int) == old(move_list).moves()
            &&& forall|i: int| old(move_list).moves().len() <= i < final(move_list).moves().len() ==> move_src(
                #[trigger] final(move_list).moves()[i],
            ) == king_sq_of(params.board, params.board.turn) && (move_flag(final(move_list).moves()[i]) == MoveFlag::CAPTURE
                || move_flag(final(move_list).moves()[i]) == MoveFlag::QUIET)
        },
        gen_type == GenType::NonEvasions ==> {
            let t = !params.board.side_bb[player_idx(params.board.turn)];
            &&& piece_steps_in(params.board, PieceType::Knight, t, final(move_list).moves())
            &&& piece_steps_in(params.board, PieceType::Bishop, t, final(move_list).moves())
            &&& piece_steps_in(params.board, PieceType::Rook, t, final(move_list).moves())
            &&& piece_steps_in(params.board, PieceType::Queen, t, final(move_list).moves())
        },
        gen_type == GenType::Captures ==> pawn_captures_in(params.board, final(move_list).moves()),
        gen_type == GenType::Captures ==> queen_promotions_in(params.board, final(move_list).moves()),
        gen_type == GenType::Captures ==> {
            let t = params.board.side_bb[player_idx(opp_of(params.board.turn))];
            &&& piece_steps_in(params.board, PieceType::Knight, t, final(move_list).moves())
            &&& piece_steps_in(params.board, PieceType::Bishop, t, final(move_list).moves())
            &&& piece_steps_in(params.board, PieceType::Rook, t, final(move_list).moves())
            &&& piece_steps_in(params.board, PieceType::Queen, t, final(move_list).moves())
        },
{
    let ghost start = move_list.moves();
    let b = params.board;
    let us = b.turn;
    let opp = us.opp();
    let king_sq = b.cur_king_square();
    proof {
        lemma_lsb(b.piece_bb[5] & b.side_bb[player_idx(us)]);
        lemma_own_piece(b, 5, us, king_sq as int);
    }
    let checks = gen_type == GenType::QuietChecks;
    let own = b.cur_player_bb();
    let opp_bb = b.player_bb(opp);
    let mut target_bb: u64 = 0;
    proof {
        assert forall|d: int| #[trigger] bit(opp_bb, d) implies !bit(own, d) by {
            if 0 <= d < 64 {
                lemma_wf_sq(b, d);
            }
        }
    }

    // No piece moves in double check
    if (gen_type != GenType::Evasions && gen_type != GenType::EvadingCaptures) || !BitBoard::more_than_one(b.pos.checkers_bb) {
        target_bb = match gen_type {
            GenType::Evasions => {
                let checker_sq = BitBoard::bit_scan_forward(b.pos.checkers_bb);
                (between(king_sq, checker_sq) | BitBoard::from_sq(checker_sq)) & !own
            },
            GenType::EvadingCaptures => {
                let checker_sq = BitBoard::bit_scan_forward(b.pos.checkers_bb);
                (between(king_sq, checker_sq) | BitBoard::from_sq(checker_sq)) & opp_bb
            },
            GenType::Captures => opp_bb,
            GenType::Quiets | GenType::QuietChecks => !b.occ_bb(),
            _ => !own,
        };
        gen_pawn_moves(params, target_bb, gen_type, move_list);
        let ghost l_p = move_list.moves();
        gen_piece_moves(params, PieceType::Knight, target_bb, checks, move_list);
        let ghost l_n = move_list.moves();
        gen_piece_moves(params, PieceType::Bishop, target_bb, checks, move_list);
        let ghost l_b = move_list.moves();
        gen_piece_moves(params, PieceType::Rook, target_bb, checks, move_list);
        let ghost l_r = move_list.moves();
        gen_piece_moves(params, PieceType::Queen, target_bb, checks, move_list);
        proof {
            lemma_prefix_trans(start, l_p, l_n);
            lemma_prefix_trans(start, l_n, l_b);
            lemma_prefix_trans(start, l_b, l_r);
            lemma_prefix_trans(start, l_r, move_list.moves());
            if gen_type == GenType::NonEvasions || gen_type == GenType::Captures {
                let t = target_bb;
                lemma_steps_keep(b, PieceType::Knight, t, l_n, l_b);
                lemma_steps_keep(b, PieceType::Knight, t, l_b, l_r);
                lemma_steps_keep(b, PieceType::Knight, t, l_r, move_list.moves());
                lemma_steps_keep(b, PieceType::Bishop, t, l_b, l_r);
                lemma_steps_keep(b, PieceType::Bishop, t, l_r, move_list.moves());
                lemma_steps_keep(b, PieceType::Rook, t, l_r, move_list.moves());
            }
            if gen_type == GenType::NonEvasions {
                assert(target_bb == !b.side_bb[player_idx(b.turn)]);
                lemma_pawn_steps_keep(b, l_p, l_n);
                lemma_promotions_keep(b, l_p, l_n);
                lemma_pawn_steps_keep(b, l_n, l_b);
                lemma_promotions_keep(b, l_n, l_b);
                lemma_pawn_steps_keep(b, l_b, l_r);
                lemma_promotions_keep(b, l_b, l_r);
                lemma_pawn_steps_keep(b, l_r, move_list.moves());
                lemma_promotions_keep(b, l_r, move_list.moves());
            }
            if gen_type == GenType::Captures {
                lemma_pawn_captures_keep(b, l_p, l_n);
                lemma_queen_promotions_keep(b, l_p, l_n);
                lemma_pawn_captures_keep(b, l_n, l_b);
                lemma_queen_promotions_keep(b, l_n, l_b);
                lemma_pawn_captures_keep(b, l_b, l_r);
                lemma_queen_promotions_keep(b, l_b, l_r);
                lemma_pawn_captures_keep(b, l_r, move_list.moves());
                lemma_queen_promotions_keep(b, l_r, move_list.moves());
            }
        }
    }
    let ghost l_q = move_list.moves();
    proof {
        assert(l_q.len() >= start.len());
        assert(l_q.subrange(0, start.len() as int) =~= start);
    }

    if !checks || BitBoard::contains(b.blockers(opp), king_sq) {
        let ghost before_king = move_list.moves();
        let mut bb = king_attacks(king_sq);
        if gen_type == GenType::Evasions {
            bb = bb & !own;
        } else {
            bb = bb & target_bb;
        }
        if checks {
            // Check by moving a blocking king
            let opp_king_sq = b.king_square(opp);
            proof {
                lemma_lsb(b.piece_bb[5] & b.side_bb[player_idx(opp)]);
            }
            bb = bb & !between(king_sq, opp_king_sq);
        }
        make_moves(params, king_sq, bb, opp_bb, move_list);
        let ghost after_king = move_list.moves();
        proof {
            if gen_type == GenType::Evasions || gen_type == GenType::NonEvasions {
                assert forall|d: int|
                    king_hits(king_sq_of(b, b.turn), d) && !bit(b.side_bb[player_idx(b.turn)], d) implies after_king.contains(
                        #[trigger] king_step(b, d),
                    ) by {
                    assert(bit(bb, d));
                    lemma_step_moves_contains(king_sq as int, bb, opp_bb, d);
                    let x = king_step(b, d);
                    let s2 = step_moves(king_sq as int, bb, opp_bb);
                    let j = choose|j: int| 0 <= j < s2.len() && s2[j] == x;
                    assert(after_king[before_king.len() + j] == x);
                }
            }
        }

        // Castling
        proof {
            lemma_castle_rights(b.pos.castling);
        }
        if (gen_type == GenType::Quiets || gen_type == GenType::NonEvasions) && !b.in_check() && b.can_castle(us) {
            let occ = b.occ_bb();
            if b.can_castle_king(us) && king_sq + 2 < 64 && !BitBoard::contains(occ, king_sq + 1)
                && !BitBoard::contains(occ, king_sq + 2) {
                proof {
                    lemma_wf_sq(b, king_sq + 2);
                    lemma_encode_decode(king_sq as int, king_sq + 2, MoveFlag::CASTLE_KING as int);
                }
                let m = BitMove::from_flag(king_sq, king_sq + 2, MoveFlag::CASTLE_KING);
                add_move(m, params, move_list);
                proof {
                    assert(move_list.moves()[move_list.moves().len() - 1] == castle_move(b, true));
                }
            }
            let ghost mid = move_list.moves();
            if b.can_castle_queen(us) && king_sq >= 3 && !BitBoard::contains(occ, king_sq - 1)
                && !BitBoard::contains(occ, king_sq - 2) && !BitBoard::contains(occ, king_sq - 3) {
                proof {
                    lemma_wf_sq(b, king_sq - 2);
                    lemma_encode_decode(king_sq as int, king_sq - 2, MoveFlag::CASTLE_QUEEN as int);
                }
                let m = BitMove::from_flag(king_sq, king_sq - 2, MoveFlag::CASTLE_QUEEN);
                add_move(m, params, move_list);
                proof {
                    assert(move_list.moves()[move_list.moves().len() - 1] == castle_move(b, false));
                    if mid.contains(castle_move(b, true)) {
                        let k = choose|k: int| 0 <= k < mid.len() && mid[k] == castle_move(b, true);
                        assert(move_list.moves()[k] == castle_move(b, true));
                    }
                }
            }
        }
        proof {
            if gen_type == GenType::NonEvasions && b.pos.checkers_bb == 0 {
                assert(castles_in(b, move_list.moves()));
            }
        }
        proof {
            assert(move_list.moves().len() >= after_king.len());
            assert(move_list.moves().subrange(0, after_king.len() as int) =~= after_king);
            lemma_prefix_trans(start, l_q, after_king);
            lemma_prefix_trans(start, after_king, move_list.moves());
            assert forall|x: u16| after_king.contains(x) implies #[trigger] move_list.moves().contains(x) by {
                let j = choose|j: int| 0 <= j < after_king.len() && after_king[j] == x;
                assert(move_list.moves()[j] == x);
            }
            if gen_type == GenType::NonEvasions || gen_type == GenType::Captures {
                let t = target_bb;
                assert(move_list.moves().subrange(0, l_q.len() as int) =~= l_q) by {
                    assert(after_king.subrange(0, l_q.len() as int) == l_q);
                    assert forall|j: int| 0 <= j < l_q.len() implies move_list.moves()[j] == l_q[j] by {
                        assert(move_list.moves()[j] == after_king[j]);
                        assert(after_king.subrange(0, l_q.len() as int)[j] == after_king[j]);
                    }
                }
                lemma_steps_keep(b, PieceType::Knight, t, l_q, move_list.moves());
                lemma_steps_keep(b, PieceType::Bishop, t, l_q, move_list.moves());
                lemma_steps_keep(b, PieceType::Rook, t, l_q, move_list.moves());
                lemma_steps_keep(b, PieceType::Queen, t, l_q, move_list.moves());
                if gen_type == GenType::NonEvasions {
                    lemma_pawn_steps_keep(b, l_q, move_list.moves());
                    lemma_promotions_keep(b, l_q, move_list.moves());
                }
                if gen_type == GenType::Captures {
                    lemma_pawn_captures_keep(b, l_q, move_list.moves());
                    lemma_queen_promotions_keep(b, l_q, move_list.moves());
                }
            }
        }
    }
}

/// Appends the pseudo-legal moves of the position: check evasions when in check, every
/// other move otherwise.
pub fn generate_all(params: &MovegenParams, move_list: &mut MoveList)
    requires
        params.wf(),
        old(move_list).wf(),
        all_gen_ok(params.board, old(move_list).moves()),
    ensures
        final(move_list).wf(),
        all_gen_ok(params.board, final(move_list).moves()),
        king_steps_in(params.board, final(move_list).moves()),
        params.board.pos.checkers_bb == 0 ==> piece_moves_in(params.board, final(move_list).moves()),
        params.board.pos.checkers_bb == 0 ==> pawn_steps_in(params.board, final(move_list).moves()),
        params.board.pos.checkers_bb == 0 ==> castles_in(params.board, final(move_list).moves()),
        params.board.pos.checkers_bb == 0 ==> promotions_in(params.board, final(move_list).moves()),
        squares(params.board.pos.checkers_bb).len() > 1 ==> forall|i: int|
            old(move_list).moves().len() <= i < final(move_list).moves().len() ==> move_src(#[trigger] final(move_list).moves()[i])
                == king_sq_of(params.board, params.board.turn),
{
    proof {
        crate::bits::lemma_zero_iff_no_squares(params.board.pos.checkers_bb);
        if params.board.pos.checkers_bb == 0 {
            assert(squares(params.board.pos.checkers_bb).len() == 0);
        }
    }
    if params.board.in_check() {
        generate_all_moves(GenType::Evasions, params, move_list);
    } else {
        generate_all_moves(GenType::NonEvasions, params, move_list);
    }
}

/// Appends the moves searched in quiescence: captures that evade check when in check,
/// otherwise captures and queen promotions followed by quiet checks. Out of check every
/// knight, bishop, rook, queen and pawn capture of an enemy piece and every promotion to a
/// queen is among them.
pub fn generate_quiet(params: &MovegenParams, move_list: &mut MoveList)
    requires
        params.wf(),
        old(move_list).wf(),
        all_gen_ok(params.board, old(move_list).moves()),
    ensures
        final(move_list).wf(),
        all_gen_ok(params.board, final(move_list).moves()),
        final(move_list).moves().len() >= old(move_list).moves().len(),
        final(move_list).moves().subrange(0, old(move_list).moves().len() as int) == old(move_list).moves(),
        params.board.pos.checkers_bb == 0 ==> {
            let t = params.board.side_bb[player_idx(opp_of(params.board.turn))];
            &&& piece_steps_in(params.board, PieceType::Knight, t, final(move_list).moves())
            &&& piece_steps_in(params.board, PieceType::Bishop, t, final(move_list).moves())
            &&& piece_steps_in(params.board, PieceType::Rook, t, final(move_list).moves())
            &&& piece_steps_in(params.board, PieceType::Queen, t, final(move_list).moves())
            &&& pawn_captures_in(params.board, final(move_list).moves())
            &&& queen_promotions_in(params.board, final(move_list).moves())
        },
{
    if params.board.in_check() {
        generate_all_moves(GenType::EvadingCaptures, params, move_list);
    } else {
        let ghost start = move_list.moves();
        generate_all_moves(GenType::Captures, params, move_list);
        let ghost caps = move_list.moves();
        generate_all_moves(GenType::QuietChecks, params, move_list);
        proof {
            let b = params.board;
            let t = b.side_bb[player_idx(opp_of(b.turn))];
            lemma_prefix_trans(start, caps, move_list.moves());
            lemma_steps_keep(b, PieceType::Knight, t, caps, move_list.moves());
            lemma_steps_keep(b, PieceType::Bishop, t, caps, move_list.moves());
            lemma_steps_keep(b, PieceType::Rook, t, caps, move_list.moves());
            lemma_steps_keep(b, PieceType::Queen, t, caps, move_list.moves());
            lemma_pawn_captures_keep(b, caps, move_list.moves());
            lemma_queen_promotions_keep(b, caps, move_list.moves());
        }
    }
}


/// Some piece of `attackers` attacks `sq` given occupancy `occ`.
pub open spec fn attacked_by(b: &Board, sq: int, attackers: u64, occ: u64) -> bool {
    exists|t: int| #[trigger] bit(attackers, t) && attacks_square(b, sq, occ, t)
}

/// No enemy bishop, rook or queen reaches the king on `k` through occupancy `occ`.
pub open spec fn no_slider_check(b: &Board, k: int, occ: u64) -> bool {
    let opp = b.side_bb[player_idx(opp_of(b.turn))];
    forall|t: int| #[trigger] bit(opp, t) ==> !(bishop_hits(k, occ, t) && bit(b.piece_bb[2] | b.piece_bb[4], t))
        && !(rook_hits(k, occ, t) && bit(b.piece_bb[3] | b.piece_bb[4], t))
}

/// Legality of a generated move: castling out of check through unattacked squares, a king
/// step onto a square no enemy attacks once the king has left, an en passant capture that
/// uncovers no slider on the king, and any other move by a piece that is not pinned or that
/// stays on the line of its pin.
pub open spec fn legal_spec(b: &Board, m: u16) -> bool {
    let f = move_flag(m);
    let s = move_src(m);
    let d = move_dest(m);
    let k = king_sq_of(b, b.turn);
    let opp = b.side_bb[player_idx(opp_of(b.turn))];
    let occ = b.occ();
    if f == MoveFlag::CASTLE_KING || f == MoveFlag::CASTLE_QUEEN {
        let dir: int = if f == MoveFlag::CASTLE_KING { 1 } else { -1 };
        b.pos.checkers_bb == 0 && !attacked_by(b, k + dir, opp, occ) && !attacked_by(b, k + dir + dir, opp, occ)
    } else if k == s {
        !attacked_by(b, d, opp, occ ^ (1u64 << (s as u64)))
    } else if f == MoveFlag::EN_PASSANT {
        let cap = b.pos.ep_square - dir_of(b.turn);
        no_slider_check(b, k, (occ ^ (1u64 << (s as u64)) ^ (1u64 << (cap as u64))) | (1u64 << (d as u64)))
    } else {
        !bit(b.pos.king_blockers[player_idx(b.turn)], s) || crate::attack::line_hits(s, d, k)
    }
}

/// Is the generated move `m` legal?
pub fn is_legal_move(board: &Board, m: u16) -> (r: bool)
    requires
        board.wf(),
        has_kings(board),
        ep_valid(board),
        gen_move_ok(board, m),
    ensures
        r == legal_spec(board, m),
{
    let us = board.turn;
    let opp = us.opp();
    let blockers = board.blockers(us);
    let flag = BitMove::flag(m);
    let src = BitMove::src(m);
    let dest = BitMove::dest(m);
    let king_sq = board.cur_king_square();
    proof {
        lemma_lsb(board.piece_bb[5] & board.side_bb[player_idx(us)]);
    }
    if flag == MoveFlag::CASTLE_KING || flag == MoveFlag::CASTLE_QUEEN {
        // Can't castle when in check
        if board.in_check() {
            return false;
        }
        // The squares the king passes can't be attacked
        let opp_bb = board.player_bb(opp);
        let occ = board.occ_bb();
        let dir: i8 = if flag == MoveFlag::CASTLE_KING { 1 } else { -1 };
        if is_square_attacked(board, king_sq + dir, opp_bb, occ) {
            return false;
        }
        if is_square_attacked(board, king_sq + dir + dir, opp_bb, occ) {
            return false;
        }
        return true;
    }
    if king_sq == src {
        return !is_square_attacked(board, dest, board.player_bb(opp), board.occ_bb() ^ BitBoard::from_sq(src));
    }
    if flag == MoveFlag::EN_PASSANT {
        let cap_sq = board.pos.ep_square - us.pawn_dir();
        let occ = board.occ_bb() ^ BitBoard::from_sq(src) ^ BitBoard::from_sq(cap_sq) | BitBoard::from_sq(dest);
        let bishop_like_bb = board.player_piece_like_bb(opp, PieceType::Bishop);
        let rook_like_bb = board.player_piece_like_bb(opp, PieceType::Rook);
        let x = bishop_attacks(king_sq, occ) & bishop_like_bb;
        let y = rook_attacks(king_sq, occ) & rook_like_bb;
        proof {
            lemma_zero_iff_empty(x);
            lemma_zero_iff_empty(y);
            if x == 0 && y == 0 {
                assert forall|t: int| #[trigger] bit(board.side_bb[player_idx(opp_of(us))], t) implies
                    !(bishop_hits(king_sq as int, occ, t) && bit(board.piece_bb[2] | board.piece_bb[4], t))
                    && !(rook_hits(king_sq as int, occ, t) && bit(board.piece_bb[3] | board.piece_bb[4], t)) by {
                    assert(!bit(x, t));
                    assert(!bit(y, t));
                }
            }
            if x != 0 {
                let t = choose|t: int| #[trigger] bit(x, t);
                assert(bit(board.side_bb[player_idx(opp_of(us))], t));
            }
            if y != 0 {
                let t = choose|t: int| #[trigger] bit(y, t);
                assert(bit(board.side_bb[player_idx(opp_of(us))], t));
            }
        }
        x == 0 && y == 0
    } else {
        !BitBoard::contains(blockers, src) || BitBoard::triple_aligned(src, dest, king_sq)
    }
}

/// The moves of entries.
pub open spec fn entry_moves(es: Seq<(u16, i32)>) -> Seq<u16> {
    es.map_values(|e: (u16, i32)| e.0)
}

/// The entry holds a legal move of `b`.
pub open spec fn legal_entry(b: &Board) -> spec_fn((u16, i32)) -> bool {
    |e: (u16, i32)| legal_spec(b, e.0)
}

/// `es` is a list of pseudo-legal moves of `b` with their scores, as `generate_all` makes
/// it: generated moves holding every king step, out of check every knight, bishop, rook
/// and queen move, every pawn step below the seventh rank, every promotion and every open
/// castling move, and in double check king moves only.
pub open spec fn pseudo_legal_entries(b: &Board, es: Seq<(u16, i32)>) -> bool {
    let ms = entry_moves(es);
    &&& all_gen_ok(b, ms)
    &&& king_steps_in(b, ms)
    &&& b.pos.checkers_bb == 0 ==> piece_moves_in(b, ms)
    &&& b.pos.checkers_bb == 0 ==> pawn_steps_in(b, ms)
    &&& b.pos.checkers_bb == 0 ==> castles_in(b, ms)
    &&& b.pos.checkers_bb == 0 ==> promotions_in(b, ms)
    &&& squares(b.pos.checkers_bb).len() > 1 ==> forall|i: int|
        0 <= i < ms.len() ==> move_src(#[trigger] ms[i]) == king_sq_of(b, b.turn)
}

/// Appends the legal moves of the position, each with its ordering score: those of the
/// pseudo-legal list `generate_all` makes, in its order and with its scores.
pub fn generate_legal(params: &MovegenParams, move_list: &mut MoveList)
    requires
        params.wf(),
        old(move_list).wf(),
        all_gen_ok(params.board, old(move_list).moves()),
    ensures
        final(move_list).wf(),
        all_gen_ok(params.board, final(move_list).moves()),
        final(move_list).moves().len() >= old(move_list).moves().len(),
        final(move_list).moves().subrange(0, old(move_list).moves().len() as int) == old(move_list).moves(),
        forall|i: int| old(move_list).moves().len() <= i < final(move_list).moves().len() ==> legal_spec(params.board, #[trigger] final(move_list).moves()[i]),
        forall|d: int|
            king_hits(king_sq_of(params.board, params.board.turn), d) && !bit(params.board.side_bb[player_idx(params.board.turn)], d)
                && legal_spec(params.board, #[trigger] king_step(params.board, d)) ==> final(move_list).moves().contains(king_step(params.board, d)),
        params.board.pos.checkers_bb == 0 ==> legal_piece_moves_in(params.board, final(move_list).moves()),
        params.board.pos.checkers_bb == 0 ==> legal_pawn_steps_in(params.board, final(move_list).moves()),
        params.board.pos.checkers_bb == 0 ==> legal_castles_in(params.board, final(move_list).moves()),
        params.board.pos.checkers_bb == 0 ==> legal_promotions_in(params.board, final(move_list).moves()),
        exists|es: Seq<(u16, i32)>| #[trigger] pseudo_legal_entries(params.board, es)
            && final(move_list).entries() == old(move_list).entries() + es.filter(legal_entry(params.board)),
{
    let ghost start = move_list.moves();
    let ghost start_entries = move_list.entries();
    let mut pseudo = MoveList::new();
    generate_all(params, &mut pseudo);
    proof {
        pseudo.lemma_lengths();
        assert(entry_moves(pseudo.entries()) =~= pseudo.moves());
        assert(pseudo_legal_entries(params.board, pseudo.entries()));
        assert(pseudo.entries().take(0).filter(legal_entry(params.board)) =~= Seq::<(u16, i32)>::empty()) by {
            reveal(Seq::filter);
        }
        assert(move_list.entries() =~= start_entries + pseudo.entries().take(0).filter(legal_entry(params.board)));
    }
    let mut i: usize = 0;
    while i < pseudo.size()
        invariant
            params.wf(),
            pseudo.wf(),
            all_gen_ok(params.board, pseudo.moves()),
            move_list.wf(),
            all_gen_ok(params.board, move_list.moves()),
            move_list.moves().len() >= start.len(),
            move_list.moves().subrange(0, start.len() as int) == start,
            forall|j: int| start.len() <= j < move_list.moves().len() ==> legal_spec(params.board, #[trigger] move_list.moves()[j]),
            king_steps_in(params.board, pseudo.moves()),
            params.board.pos.checkers_bb == 0 ==> piece_moves_in(params.board, pseudo.moves()),
            params.board.pos.checkers_bb == 0 ==> pawn_steps_in(params.board, pseudo.moves()),
            params.board.pos.checkers_bb == 0 ==> castles_in(params.board, pseudo.moves()),
            params.board.pos.checkers_bb == 0 ==> promotions_in(params.board, pseudo.moves()),
            i <= pseudo.moves().len(),
            forall|j: int| 0 <= j < i && legal_spec(params.board, pseudo.moves()[j]) ==> move_list.moves().contains(#[trigger] pseudo.moves()[j]),
            move_list.entries() == start_entries + pseudo.entries().take(i as int).filter(legal_entry(params.board)),
        decreases pseudo.moves().len() - i,
    {
        let ghost before = move_list.moves();
        let ghost before_entries = move_list.entries();
        let ghost taken = pseudo.entries().take(i as int).filter(legal_entry(params.board));
        proof {
            pseudo.lemma_lengths();
            move_list.lemma_lengths();
            assert(pseudo.entries().take(i + 1).drop_last() =~= pseudo.entries().take(i as int));
            reveal(Seq::filter);
        }
        let (m, score) = pseudo.get_all(i);
        assert(gen_move_ok(params.board, pseudo.moves()[i as int]));
        if is_legal_move(params.board, m) {
            move_list.push(m, score);
            proof {
                assert(move_list.moves().subrange(0, start.len() as int) =~= start) by {
                    assert(before.subrange(0, start.len() as int) == start);
                }
                assert forall|j: int| 0 <= j < i + 1 && legal_spec(params.board, pseudo.moves()[j]) implies move_list.moves().contains(#[trigger] pseudo.moves()[j]) by {
                    if j < i {
                        let k = choose|k: int| 0 <= k < before.len() && before[k] == pseudo.moves()[j];
                        assert(move_list.moves()[k] == pseudo.moves()[j]);
                    } else {
                        assert(move_list.moves()[before.len() as int] == pseudo.moves()[j]);
                    }
                }
                assert forall|j: int| start.len() <= j < move_list.moves().len() implies legal_spec(params.board, #[trigger] move_list.moves()[j]) by {
                    if j < before.len() {
                        assert(move_list.moves()[j] == before[j]);
                    }
                }
                move_list.lemma_lengths();
                assert(pseudo.entries().take(i + 1).filter(legal_entry(params.board)) == taken.push((m, score)));
                assert(move_list.entries() =~= before_entries.push((m, score)));
                assert(before_entries == start_entries + taken);
                assert(move_list.entries() =~= start_entries + taken.push((m, score)));
            }
        } else {
            proof {
                assert(pseudo.entries().take(i + 1).filter(legal_entry(params.board)) == taken);
            }
        }
        i = i + 1;
    }
    proof {
        assert(pseudo.entries().take(pseudo.moves().len() as int) =~= pseudo.entries());
    }
    proof {
        let b = params.board;
        assert forall|d: int|
            king_hits(king_sq_of(b, b.turn), d) && !bit(b.side_bb[player_idx(b.turn)], d)
                && legal_spec(b, #[trigger] king_step(b, d)) implies move_list.moves().contains(king_step(b, d)) by {
            let x = king_step(b, d);
            assert(pseudo.moves().contains(x));
            let j = choose|j: int| 0 <= j < pseudo.moves().len() && pseudo.moves()[j] == x;
            assert(legal_spec(b, pseudo.moves()[j]));
        }
        if b.pos.checkers_bb == 0 {
            lemma_legal_piece_moves(b, pseudo.moves(), move_list.moves());
            lemma_legal_pawn_steps(b, pseudo.moves(), move_list.moves());
            lemma_legal_promotions(b, pseudo.moves(), move_list.moves());
            assert forall|ks: bool| castle_open(b, ks) && legal_spec(b, castle_move(b, ks)) implies move_list.moves().contains(
                #[trigger] castle_move(b, ks),
            ) by {
                let x = castle_move(b, ks);
                assert(pseudo.moves().contains(x));
                let j = choose|j: int| 0 <= j < pseudo.moves().len() && pseudo.moves()[j] == x;
                assert(legal_spec(b, pseudo.moves()[j]));
            }
        }
    }
}


impl MoveList {
    /// The pseudo-legal moves of the position.
    pub fn all(params: MovegenParams) -> (r: MoveList)
        requires
            params.wf(),
        ensures
            r.wf(),
            all_gen_ok(params.board, r.moves()),
            king_steps_in(params.board, r.moves()),
            params.board.pos.checkers_bb == 0 ==> piece_moves_in(params.board, r.moves()),
            params.board.pos.checkers_bb == 0 ==> pawn_steps_in(params.board, r.moves()),
            params.board.pos.checkers_bb == 0 ==> castles_in(params.board, r.moves()),
            params.board.pos.checkers_bb == 0 ==> promotions_in(params.board, r.moves()),
            squares(params.board.pos.checkers_bb).len() > 1 ==> forall|i: int|
                0 <= i < r.moves().len() ==> move_src(#[trigger] r.moves()[i]) == king_sq_of(params.board, params.board.turn),
    {
        let mut move_list = MoveList::new();
        generate_all(&params, &mut move_list);
        move_list
    }

    /// The legal moves of the position.
    pub fn legal(params: MovegenParams) -> (r: MoveList)
        requires
            params.wf(),
        ensures
            r.wf(),
            all_gen_ok(params.board, r.moves()),
            forall|i: int| 0 <= i < r.moves().len() ==> legal_spec(params.board, #[trigger] r.moves()[i]),
            forall|d: int|
                king_hits(king_sq_of(params.board, params.board.turn), d) && !bit(params.board.side_bb[player_idx(params.board.turn)], d)
                    && legal_spec(params.board, #[trigger] king_step(params.board, d)) ==> r.moves().contains(king_step(params.board, d)),
            params.board.pos.checkers_bb == 0 ==> legal_piece_moves_in(params.board, r.moves()),
            params.board.pos.checkers_bb == 0 ==> legal_pawn_steps_in(params.board, r.moves()),
            params.board.pos.checkers_bb == 0 ==> legal_castles_in(params.board, r.moves()),
            params.board.pos.checkers_bb == 0 ==> legal_promotions_in(params.board, r.moves()),
            exists|es: Seq<(u16, i32)>| #[trigger] pseudo_legal_entries(params.board, es)
                && r.entries() == es.filter(legal_entry(params.board)),
    {
        let mut move_list = MoveList::new();
        let ghost empty = move_list.entries();
        generate_legal(&params, &mut move_list);
        proof {
            assert(empty =~= Seq::<(u16, i32)>::empty());
            let es = choose|es: Seq<(u16, i32)>| #[trigger] pseudo_legal_entries(params.board, es)
                && move_list.entries() == empty + es.filter(legal_entry(params.board));
            assert(empty + es.filter(legal_entry(params.board)) =~= es.filter(legal_entry(params.board)));
        }
        proof {
            assert forall|i: int| 0 <= i < move_list.moves().len() implies legal_spec(params.board, #[trigger] move_list.moves()[i]) by {}
        }
        move_list
    }

    /// The moves searched in quiescence. Out of check every knight, bishop, rook, queen and
    /// pawn capture of an enemy piece and every promotion to a queen is among them.
    pub fn quiet(params: MovegenParams) -> (r: MoveList)
        requires
            params.wf(),
        ensures
            r.wf(),
            all_gen_ok(params.board, r.moves()),
            params.board.pos.checkers_bb == 0 ==> {
                let t = params.board.side_bb[player_idx(opp_of(params.board.turn))];
                &&& piece_steps_in(params.board, PieceType::Knight, t, r.moves())
                &&& piece_steps_in(params.board, PieceType::Bishop, t, r.moves())
                &&& piece_steps_in(params.board, PieceType::Rook, t, r.moves())
                &&& piece_steps_in(params.board, PieceType::Queen, t, r.moves())
                &&& pawn_captures_in(params.board, r.moves())
                &&& queen_promotions_in(params.board, r.moves())
            },
    {
        let mut move_list = MoveList::new();
        generate_quiet(&params, &mut move_list);
        move_list
    }
}


impl Board {
    /// Is the en passant square absent, or with the square of the pawn that moved past it
    /// on the board?
    pub fn ep_in_range(&self) -> (r: bool)
        ensures
            r == ep_valid(self),
    {
        let ep = self.pos.ep_square;
        if ep < 0 || ep > 64 {
            false
        } else if ep == 64 {
            true
        } else {
            let behind = ep as i16 - self.turn.pawn_dir() as i16;
            0 <= behind && behind < 64
        }
    }
}


/// The move of `moves` from `src` to `dest` promoting to `prom` (`NoPiece` for a move
/// that does not promote), the first such; `None` when there is none.
pub fn find_move(moves: &MoveList, src: Square, dest: Square, prom: PieceType) -> (r: Option<u16>)
    requires
        moves.wf(),
    ensures
        r matches Some(m) ==> moves.moves().contains(m) && move_src(m) == src && move_dest(m) == dest
            && crate::bitmove::prom_type_of(move_flag(m)) == prom,
        r is None ==> forall|i: int| 0 <= i < moves.moves().len() ==> !(move_src(#[trigger] moves.moves()[i]) == src
            && move_dest(moves.moves()[i]) == dest && crate::bitmove::prom_type_of(move_flag(moves.moves()[i])) == prom),
{
    let n = moves.size();
    let mut i: usize = 0;
    while i < n
        invariant
            moves.wf(),
            n == moves.moves().len(),
            i <= n,
            forall|j: int| 0 <= j < i ==> !(move_src(#[trigger] moves.moves()[j]) == src
                && move_dest(moves.moves()[j]) == dest && crate::bitmove::prom_type_of(move_flag(moves.moves()[j])) == prom),
        decreases n - i,
    {
        let m = moves.get(i);
        if BitMove::src(m) == src && BitMove::dest(m) == dest && BitMove::prom_type(BitMove::flag(m)) == prom {
            assert(moves.moves()[i as int] == m);
            return Some(m);
        }
        i = i + 1;
    }
    None
}

} // verus!
