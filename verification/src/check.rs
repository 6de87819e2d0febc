//! Does a move give check?
use vstd::prelude::*;
use crate::bits::{bit, group_bits, lemma_zero_iff_empty};
use crate::bitboard::{BitBoard, lemma_lsb};
use crate::bitmove::{BitMove, MoveFlag, move_src, move_dest, move_flag, flag_is_prom, prom_type_of};
use crate::board::{Board, has_kings, king_sq_of};
use crate::attack::{attacks, bishop_attacks, rook_attacks, piece_hits, bishop_hits, rook_hits, line_hits};
use crate::defs::{PieceType, Player, pt_idx, player_idx, opp_of};
use crate::movegen::{gen_move_ok, ep_valid};
use crate::makemove::dir_of;

verus! {

broadcast use group_bits;

/// A slider of the side to move reaches the enemy king on `k` through occupancy `occ`.
pub open spec fn slider_check(b: &Board, k: int, occ: u64) -> bool {
    let mine = b.side_bb[player_idx(b.turn)];
    exists|t: int| #[trigger] bit(mine, t) && ((bishop_hits(k, occ, t) && bit(b.piece_bb[2] | b.piece_bb[4], t))
        || (rook_hits(k, occ, t) && bit(b.piece_bb[3] | b.piece_bb[4], t)))
}

/// Checks a move gives, read from the stored check information: a direct check from the
/// destination, a discovered check by leaving a blocker's line, a promoted piece checking,
/// a slider uncovered by an en passant capture, or the castling rook checking.
pub open spec fn gives_check_spec(b: &Board, m: u16) -> bool {
    let s = move_src(m);
    let d = move_dest(m);
    let f = move_flag(m);
    let opp = opp_of(b.turn);
    let ok = king_sq_of(b, opp);
    let occ = b.occ();
    if bit(b.pos.check_squares[pt_idx(b.at(s).t)], d) {
        true
    } else if bit(b.pos.king_blockers[player_idx(opp)], s) && !line_hits(s, d, ok) {
        true
    } else if flag_is_prom(f) {
        piece_hits(prom_type_of(f), d, occ ^ (1u64 << (s as u64)), b.turn, ok)
    } else if f == MoveFlag::EN_PASSANT {
        let cap = d - dir_of(b.turn);
        slider_check(b, ok, (occ ^ (1u64 << (s as u64)) ^ (1u64 << (cap as u64))) | (1u64 << (d as u64)))
    } else if f == MoveFlag::CASTLE_KING || f == MoveFlag::CASTLE_QUEEN {
        let rook_dest = if d > s { d - 1 } else { d + 1 };
        rook_hits(rook_dest, occ ^ (1u64 << (s as u64)) ^ (1u64 << (d as u64)), ok)
    } else {
        false
    }
}

impl Board {
    /// Does the generated move `m` give check?
    pub fn gives_check(&self, m: u16) -> (r: bool)
        requires
            self.wf(),
            has_kings(self),
            ep_valid(self),
            gen_move_ok(self, m),
        ensures
            r == gives_check_spec(self, m),
    {
        let src = BitMove::src(m);
        let dest = BitMove::dest(m);
        let from_bb = BitBoard::from_sq(src);
        let to_bb = BitBoard::from_sq(dest);
        let piece = self.piece_type(src);

        // Direct check
        if BitBoard::contains(self.pos.check_squares[piece.as_usize()], dest) {
            return true;
        }

        // Discovered check
        let opp = self.turn.opp();
        let opp_king_sq = self.king_square(opp);
        proof {
            lemma_lsb(self.piece_bb[5] & self.side_bb[player_idx(opp)]);
        }
        if BitBoard::contains(self.blockers(opp), src) && !BitBoard::triple_aligned(src, dest, opp_king_sq) {
            return true;
        }

        let flag = BitMove::flag(m);
        if BitMove::is_normal(m) {
            return false;
        }

        if BitMove::is_prom(m) {
            let prom_type = BitMove::prom_type(flag);
            let occ = self.occ_bb() ^ from_bb;
            return BitBoard::contains(attacks(prom_type, dest, occ, self.turn), opp_king_sq);
        }

        if BitMove::is_ep(m) {
            let captured_sq = dest - self.turn.pawn_dir();
            let occ = (self.occ_bb() ^ from_bb ^ BitBoard::from_sq(captured_sq)) | to_bb;
            let bishops = bishop_attacks(opp_king_sq, occ) & self.player_piece_like_bb(self.turn, PieceType::Bishop);
            let rooks = rook_attacks(opp_king_sq, occ) & self.player_piece_like_bb(self.turn, PieceType::Rook);
            proof {
                lemma_zero_iff_empty(bishops);
                lemma_zero_iff_empty(rooks);
                let mine = self.side_bb[player_idx(self.turn)];
                if bishops != 0 {
                    let t = choose|t: int| #[trigger] bit(bishops, t);
                    assert(bit(mine, t));
                }
                if rooks != 0 {
                    let t = choose|t: int| #[trigger] bit(rooks, t);
                    assert(bit(mine, t));
                }
                if slider_check(self, opp_king_sq as int, occ) {
                    let t = choose|t: int| #[trigger] bit(mine, t) && ((bishop_hits(opp_king_sq as int, occ, t)
                        && bit(self.piece_bb[2] | self.piece_bb[4], t)) || (rook_hits(opp_king_sq as int, occ, t)
                        && bit(self.piece_bb[3] | self.piece_bb[4], t)));
                    if bishop_hits(opp_king_sq as int, occ, t) && bit(self.piece_bb[2] | self.piece_bb[4], t) {
                        assert(bit(bishops, t));
                    } else {
                        assert(bit(rooks, t));
                    }
                }
            }
            return bishops != 0 || rooks != 0;
        }

        // Castling: does the rook give check?
        let rook_dest = if dest > src { dest - 1 } else { dest + 1 };
        let occ = self.occ_bb() ^ from_bb ^ to_bb;
        BitBoard::contains(rook_attacks(rook_dest, occ), opp_king_sq)
    }
}

} // verus!
