//! Making and taking back moves.
use vstd::prelude::*;
use crate::bits::{bit, group_bits, lemma_zero_iff_empty};
use crate::bitboard::{lsb, lemma_lsb};
use crate::bitmove::{
    BitMove, MoveFlag, move_src, move_dest, move_flag, flag_is_cap, flag_is_prom, prom_type_of,
    lemma_decode_encode,
};
use crate::board::{
    Board, empty_piece, has_kings, check_info_valid, zkey, pieces_key, sq_key, castle_key,
    ep_key, side_key, lemma_xor, lemma_pieces_key_update, piece_key,
};
use crate::defs::{
    Castling, Piece, PieceType, Player, Square, MAX_GAME_LENGTH, pt_idx, player_idx, opp_of,
};
use crate::heuristics::{lemma_recorded_after_move, moves_recorded};
use crate::zobrist::Zobrist;

verus! {

broadcast use group_bits;

/// Square offset of a pawn step of `side`.
pub open spec fn dir_of(side: Player) -> int {
    if side == Player::White {
        8
    } else {
        -8
    }
}

/// Castling rights kept after a move touching `sq` (a corner square loses its rook's right).
pub open spec fn corner_mask(sq: int) -> u8 {
    if sq == 0 {
        0b1110
    } else if sq == 7 {
        0b1101
    } else if sq == 56 {
        0b1011
    } else if sq == 63 {
        0b0111
    } else {
        0b1111
    }
}

/// The moves `make_move` accepts: the mover's piece on the source square, a destination
/// matching the flag, and the rook, en passant pawn and counters the flag relies on.
pub open spec fn move_ok(b: &Board, m: u16) -> bool {
    let s = move_src(m);
    let d = move_dest(m);
    let f = move_flag(m);
    let side = b.turn;
    let foe = opp_of(side);
    let pt = b.at(s).t;
    let cap = flag_is_cap(f);
    let ep = f == MoveFlag::EN_PASSANT;
    let dir = dir_of(side);
    &&& b.wf()
    &&& has_kings(b)
    &&& s != d
    &&& pt != PieceType::NoPiece
    &&& b.at(s).c == side
    &&& b.history@.len() < MAX_GAME_LENGTH
    &&& b.pos.ply < usize::MAX
    &&& b.pos.castling < 16
    &&& 0 <= b.pos.ep_square <= 64
    &&& (pt == PieceType::Pawn || cap || b.pos.rule_fifty < 255)
    &&& (cap && !ep ==> b.at(d).t != PieceType::NoPiece && b.at(d).t != PieceType::King && b.at(
        d,
    ).c == foe)
    &&& (!cap || ep ==> b.at(d).t == PieceType::NoPiece)
    &&& (ep ==> b.pos.ep_square < 64 && d == b.pos.ep_square && 0 <= d - dir < 64 && d - dir
        != s && b.at(d - dir) == (Piece { t: PieceType::Pawn, c: foe }))
    &&& (f == MoveFlag::DOUBLE_PAWN_PUSH ==> 0 <= d - dir < 64)
    &&& (flag_is_prom(f) ==> pt == PieceType::Pawn)
    &&& (f == MoveFlag::CASTLE_KING ==> d == (if side == Player::White { 6int } else { 62int })
        && b.at(d + 1) == (Piece { t: PieceType::Rook, c: side }) && b.at(d - 1).t
        == PieceType::NoPiece && s != d + 1 && s != d - 1)
    &&& (f == MoveFlag::CASTLE_QUEEN ==> d == (if side == Player::White { 2int } else { 58int })
        && b.at(d - 2) == (Piece { t: PieceType::Rook, c: side }) && b.at(d + 1).t
        == PieceType::NoPiece && s != d - 2 && s != d + 1)
}

/// The mailbox after the captured piece, or the pawn taken en passant, leaves the board.
pub open spec fn captured_pieces(ps: Seq<Piece>, m: u16, side: Player, ep_square: int) -> Seq<Piece> {
    let d = move_dest(m);
    let f = move_flag(m);
    let cap = flag_is_cap(f);
    let ep = f == MoveFlag::EN_PASSANT;
    if cap && !ep {
        ps.update(d, empty_piece())
    } else if ep && ep_square < 64 {
        ps.update(ep_square - dir_of(side), empty_piece())
    } else {
        ps
    }
}

/// The mailbox after a castling rook jumps over the king.
pub open spec fn castled_pieces(ps: Seq<Piece>, m: u16, side: Player) -> Seq<Piece> {
    let d = move_dest(m);
    let f = move_flag(m);
    if f == MoveFlag::CASTLE_KING {
        ps.update(d + 1, empty_piece()).update(d - 1, Piece { t: PieceType::Rook, c: side })
    } else if f == MoveFlag::CASTLE_QUEEN {
        ps.update(d - 2, empty_piece()).update(d + 1, Piece { t: PieceType::Rook, c: side })
    } else {
        ps
    }
}

/// The mailbox after the moving piece (or its promotion) lands and its square empties.
pub open spec fn landed_pieces(ps: Seq<Piece>, m: u16, side: Player, pt: PieceType) -> Seq<Piece> {
    let s = move_src(m);
    let d = move_dest(m);
    let f = move_flag(m);
    let landed = if flag_is_prom(f) { prom_type_of(f) } else { pt };
    ps.update(d, Piece { t: landed, c: side }).update(s, empty_piece())
}

/// The mailbox after making `m`: the captured piece (or en passant pawn) leaves, a castling
/// rook jumps over the king, the moving piece (or its promotion) lands and its square empties.
pub open spec fn pieces_after(b: &Board, m: u16) -> Seq<Piece> {
    landed_pieces(
        castled_pieces(captured_pieces(b.pieces@, m, b.turn, b.pos.ep_square as int), m, b.turn),
        m,
        b.turn,
        b.at(move_src(m)).t,
    )
}

/// Castling rights after making `m`: a king move drops both of its side's rights, and a
/// move from or to a corner drops that corner's right.
pub open spec fn castling_after(b: &Board, m: u16) -> u8 {
    let s = move_src(m);
    let d = move_dest(m);
    let c0 = b.pos.castling;
    let c1 = if b.at(s).t == PieceType::King {
        if b.turn == Player::White {
            c0 & Castling::BLACK_ALL
        } else {
            c0 & Castling::WHITE_ALL
        }
    } else {
        c0
    };
    c1 & corner_mask(s) & corner_mask(d)
}

proof fn bv_and_le(a: u8, b: u8)
    by (bit_vector)
    ensures
        a & b <= a,
{
}

/// A mailbox entry with a king of `c` gives `c` a king.
proof fn lemma_king_on(b: &Board, c: Player, sq: int)
    requires
        b.wf(),
        0 <= sq < 64,
        b.at(sq) == (Piece { t: PieceType::King, c: c }),
    ensures
        b.piece_bb[5] & b.side_bb[player_idx(c)] != 0,
{
    assert(bit(b.piece_bb[5], sq));
    assert(bit(b.side_bb[player_idx(c)], sq));
    assert(bit(b.piece_bb[5] & b.side_bb[player_idx(c)], sq));
    lemma_zero_iff_empty(b.piece_bb[5] & b.side_bb[player_idx(c)]);
}

/// A side with a king has a king on some square.
proof fn lemma_king_somewhere(b: &Board, c: Player) -> (sq: int)
    requires
        b.wf(),
        b.piece_bb[5] & b.side_bb[player_idx(c)] != 0,
    ensures
        0 <= sq < 64,
        b.at(sq) == (Piece { t: PieceType::King, c: c }),
{
    let x = b.piece_bb[5] & b.side_bb[player_idx(c)];
    lemma_lsb(x);
    let sq = lsb(x);
    assert(bit(b.piece_bb[5], sq));
    assert(bit(b.side_bb[player_idx(c)], sq));
    assert(b.at(sq).c == c) by {
        if b.at(sq).c != c {
            assert(player_idx(b.at(sq).c) != player_idx(c));
        }
    }
    sq
}

/// Adding a piece to an empty square toggles exactly its key into the pieces key.
proof fn lemma_key_place(ps: Seq<Piece>, i: int, x: Piece)
    requires
        ps.len() == 64,
        0 <= i < 64,
        ps[i].t == PieceType::NoPiece,
    ensures
        pieces_key(ps.update(i, x), 64) == pieces_key(ps, 64) ^ sq_key(x, i),
{
    lemma_pieces_key_update(ps, 64, i, x);
    lemma_xor(0, sq_key(x, i), 0);
    lemma_xor(sq_key(x, i), 0, 0);
}

/// Removing a piece toggles exactly its key out of the pieces key.
proof fn lemma_key_lift(ps: Seq<Piece>, i: int)
    requires
        ps.len() == 64,
        0 <= i < 64,
    ensures
        pieces_key(ps.update(i, empty_piece()), 64) == pieces_key(ps, 64) ^ sq_key(ps[i], i),
{
    lemma_pieces_key_update(ps, 64, i, empty_piece());
    lemma_xor(sq_key(ps[i], i), 0, 0);
}

impl Board {
    /// Removes castling permissions for the given side
    pub fn disable_castling(&mut self, side: Player)
        ensures
            final(self).pos == (crate::position::Position {
                castling: if side == Player::White {
                    old(self).pos.castling & Castling::BLACK_ALL
                } else {
                    old(self).pos.castling & Castling::WHITE_ALL
                },
                ..old(self).pos
            }),
            final(self).pieces == old(self).pieces,
            final(self).piece_bb == old(self).piece_bb,
            final(self).side_bb == old(self).side_bb,
            final(self).turn == old(self).turn,
            final(self).history@ == old(self).history@,
            final(self).killers == old(self).killers,
    {
        match side {
            Player::White => self.pos.castling = self.pos.castling & Castling::BLACK_ALL,
            Player::Black => self.pos.castling = self.pos.castling & Castling::WHITE_ALL,
        }
    }

    /// Drops the castling rights of the corners `m` moves from or to.
    pub fn set_castling_from_move(&mut self, m: u16)
        ensures
            final(self).pos == (crate::position::Position {
                castling: old(self).pos.castling & corner_mask(move_src(m)) & corner_mask(
                    move_dest(m),
                ),
                ..old(self).pos
            }),
            final(self).pieces == old(self).pieces,
            final(self).piece_bb == old(self).piece_bb,
            final(self).side_bb == old(self).side_bb,
            final(self).turn == old(self).turn,
            final(self).history@ == old(self).history@,
            final(self).killers == old(self).killers,
    {
        let src = BitMove::src(m);
        let dest = BitMove::dest(m);
        let c = self.pos.castling;
        let m1: u8 = if src == 0 { 0b1110 } else if src == 7 { 0b1101 } else if src == 56 {
            0b1011
        } else if src == 63 {
            0b0111
        } else {
            0b1111
        };
        let m2: u8 = if dest == 0 { 0b1110 } else if dest == 7 { 0b1101 } else if dest == 56 {
            0b1011
        } else if dest == 63 {
            0b0111
        } else {
            0b1111
        };
        self.pos.castling = c & m1 & m2;
    }

    /// Sets the en passant square, toggling the key of its file.
    pub fn set_ep(&mut self, ep_square: Square)
        requires
            0 <= ep_square < 64,
        ensures
            final(self).pos == (crate::position::Position {
                ep_square: ep_square,
                key: old(self).pos.key ^ crate::zobrist::EP[ep_square as int % 8],
                ..old(self).pos
            }),
            final(self).pieces == old(self).pieces,
            final(self).piece_bb == old(self).piece_bb,
            final(self).side_bb == old(self).side_bb,
            final(self).turn == old(self).turn,
            final(self).history@ == old(self).history@,
            final(self).killers == old(self).killers,
    {
        self.pos.ep_square = ep_square;
        self.pos.key = self.pos.key ^ Zobrist::ep(self.ep_file());
    }

    /// Clears the en passant square, toggling the key of its file; calling it with the
    /// square already cleared is harmless.
    pub fn clear_ep(&mut self)
        ensures
            0 <= old(self).pos.ep_square < 64 ==> final(self).pos == (crate::position::Position {
                ep_square: 64,
                key: old(self).pos.key ^ crate::zobrist::EP[old(self).pos.ep_square as int % 8],
                ..old(self).pos
            }),
            !(0 <= old(self).pos.ep_square < 64) ==> final(self).pos == (crate::position::Position {
                ep_square: 64,
                ..old(self).pos
            }),
            final(self).pieces == old(self).pieces,
            final(self).piece_bb == old(self).piece_bb,
            final(self).side_bb == old(self).side_bb,
            final(self).turn == old(self).turn,
            final(self).history@ == old(self).history@,
            final(self).killers == old(self).killers,
    {
        if 0 <= self.pos.ep_square && self.pos.ep_square < 64 {
            self.pos.key = self.pos.key ^ Zobrist::ep(self.ep_file());
        }
        self.pos.ep_square = 64;
    }
}


/// Key bookkeeping of a move: the pieces key changes while the castling, en passant and
/// side keys are toggled out and in.
proof fn bv_key_mix(k0: u64, p0: u64, p1: u64, c0: u64, e0: u64, e1: u64, sd: u64, c1: u64, s0: u64, s1: u64, kh: u64)
    by (bit_vector)
    requires
        kh ^ p1 == (k0 ^ c0) ^ p0,
        s0 ^ s1 == sd,
    ensures
        ((((kh ^ e0) ^ e1) ^ sd) ^ c1) ^ (((p1 ^ c1) ^ e1) ^ s1) == k0 ^ (((p0 ^ c0) ^ e0) ^ s0),
{
}

/// Exclusive or with a key, keeping track of the pieces key.
proof fn lemma_toggle(key: u64, pk0: u64, pk1: u64, k: u64)
    by (bit_vector)
    requires
        pk1 == pk0 ^ k,
    ensures
        (key ^ k) ^ pk1 == key ^ pk0,
{
}

impl Board {
    /// Removes the piece captured by `m`, or the pawn it takes en passant.
    fn lift_captured(&mut self, m: u16)
        requires
            old(self).wf(),
            0 <= old(self).pos.ep_square <= 64,
            flag_is_cap(move_flag(m)) && move_flag(m) != MoveFlag::EN_PASSANT ==> old(self).at(move_dest(m)).t != PieceType::NoPiece && old(self).at(move_dest(m)).c == opp_of(old(self).turn),
            move_flag(m) == MoveFlag::EN_PASSANT && old(self).pos.ep_square < 64 ==> 0 <= old(self).pos.ep_square - dir_of(old(self).turn) < 64 && old(self).at(old(self).pos.ep_square - dir_of(old(self).turn)) == (Piece { t: PieceType::Pawn, c: opp_of(old(self).turn) }),
        ensures
            final(self).wf(),
            final(self).pieces@ == captured_pieces(old(self).pieces@, m, old(self).turn, old(self).pos.ep_square as int),
            final(self).pos.key ^ pieces_key(final(self).pieces@, 64) == old(self).pos.key ^ pieces_key(old(self).pieces@, 64),
            final(self).pos == (crate::position::Position {
                key: final(self).pos.key,
                captured_piece: final(self).pos.captured_piece,
                ..old(self).pos
            }),
            final(self).pos.captured_piece == (if flag_is_cap(move_flag(m)) && move_flag(m) != MoveFlag::EN_PASSANT {
                old(self).at(move_dest(m)).t
            } else {
                old(self).pos.captured_piece
            }),
            final(self).turn == old(self).turn,
            final(self).history@ == old(self).history@,
            final(self).killers == old(self).killers,
    {
        let dest = BitMove::dest(m);
        let is_cap = BitMove::is_cap(m);
        let is_ep = BitMove::is_ep(m);
        let opp = self.turn.opp();
        let turn = self.turn;
        if is_cap && !is_ep {
            let cap_pt = self.piece_type(dest);
            self.pos.captured_piece = cap_pt;
            let ghost before = *self;
            self.remove_piece(opp, cap_pt, dest);
            proof {
                lemma_key_lift(before.pieces@, dest as int);
                lemma_toggle(before.pos.key, pieces_key(before.pieces@, 64), pieces_key(self.pieces@, 64), sq_key(before.pieces@[dest as int], dest as int));
            }
        } else if is_ep && self.can_ep() {
            let ep_pawn_sq = self.pos.ep_square - turn.pawn_dir();
            let ghost before = *self;
            self.remove_piece(opp, PieceType::Pawn, ep_pawn_sq);
            proof {
                lemma_key_lift(before.pieces@, ep_pawn_sq as int);
                lemma_toggle(before.pos.key, pieces_key(before.pieces@, 64), pieces_key(self.pieces@, 64), sq_key(before.pieces@[ep_pawn_sq as int], ep_pawn_sq as int));
            }
        }
    }

    /// Moves the castling rook of `m` over the king.
    fn jump_rook(&mut self, m: u16)
        requires
            old(self).wf(),
            move_flag(m) == MoveFlag::CASTLE_KING ==> move_dest(m) == (if old(self).turn == Player::White { 6int } else { 62int })
                && old(self).at(move_dest(m) + 1) == (Piece { t: PieceType::Rook, c: old(self).turn })
                && old(self).at(move_dest(m) - 1).t == PieceType::NoPiece,
            move_flag(m) == MoveFlag::CASTLE_QUEEN ==> move_dest(m) == (if old(self).turn == Player::White { 2int } else { 58int })
                && old(self).at(move_dest(m) - 2) == (Piece { t: PieceType::Rook, c: old(self).turn })
                && old(self).at(move_dest(m) + 1).t == PieceType::NoPiece,
        ensures
            final(self).wf(),
            final(self).pieces@ == castled_pieces(old(self).pieces@, m, old(self).turn),
            final(self).pos.key ^ pieces_key(final(self).pieces@, 64) == old(self).pos.key ^ pieces_key(old(self).pieces@, 64),
            final(self).pos == (crate::position::Position { key: final(self).pos.key, ..old(self).pos }),
            final(self).turn == old(self).turn,
            final(self).history@ == old(self).history@,
            final(self).killers == old(self).killers,
    {
        let flag = BitMove::flag(m);
        let turn = self.turn;
        if BitMove::is_castle(m) {
            let rook_sq;
            let rook_target_sq;
            if flag == MoveFlag::CASTLE_KING {
                rook_sq = turn.castle_king_sq() + 1;
                rook_target_sq = turn.castle_king_sq() - 1;
            } else {
                rook_sq = turn.castle_queen_sq() - 2;
                rook_target_sq = turn.castle_queen_sq() + 1;
            }
            let ghost before = *self;
            self.remove_piece(turn, PieceType::Rook, rook_sq);
            let ghost mid = *self;
            self.add_piece(turn, PieceType::Rook, rook_target_sq);
            proof {
                lemma_key_lift(before.pieces@, rook_sq as int);
                lemma_toggle(before.pos.key, pieces_key(before.pieces@, 64), pieces_key(mid.pieces@, 64), sq_key(before.pieces@[rook_sq as int], rook_sq as int));
                lemma_key_place(mid.pieces@, rook_target_sq as int, Piece { t: PieceType::Rook, c: turn });
                lemma_toggle(mid.pos.key, pieces_key(mid.pieces@, 64), pieces_key(self.pieces@, 64), sq_key(Piece { t: PieceType::Rook, c: turn }, rook_target_sq as int));
            }
        }
    }

    /// Lands the moving piece (or its promotion) on the destination and empties the source.
    fn land_piece(&mut self, m: u16)
        requires
            old(self).wf(),
            move_src(m) != move_dest(m),
            old(self).at(move_src(m)).t != PieceType::NoPiece,
            old(self).at(move_src(m)).c == old(self).turn,
            old(self).at(move_dest(m)).t == PieceType::NoPiece,
            flag_is_prom(move_flag(m)) ==> old(self).at(move_src(m)).t == PieceType::Pawn,
        ensures
            final(self).wf(),
            final(self).pieces@ == landed_pieces(old(self).pieces@, m, old(self).turn, old(self).at(move_src(m)).t),
            final(self).pos.key ^ pieces_key(final(self).pieces@, 64) == old(self).pos.key ^ pieces_key(old(self).pieces@, 64),
            final(self).pos == (crate::position::Position { key: final(self).pos.key, ..old(self).pos }),
            final(self).turn == old(self).turn,
            final(self).history@ == old(self).history@,
            final(self).killers == old(self).killers,
    {
        let src = BitMove::src(m);
        let dest = BitMove::dest(m);
        let flag = BitMove::flag(m);
        let piece = self.piece_type(src);
        let turn = self.turn;
        let landed = if BitMove::is_prom(m) { BitMove::prom_type(flag) } else { piece };
        let ghost before = *self;
        self.add_piece(turn, landed, dest);
        let ghost mid = *self;
        self.remove_piece(turn, piece, src);
        proof {
            lemma_key_place(before.pieces@, dest as int, Piece { t: landed, c: turn });
            lemma_toggle(before.pos.key, pieces_key(before.pieces@, 64), pieces_key(mid.pieces@, 64), sq_key(Piece { t: landed, c: turn }, dest as int));
            lemma_key_lift(mid.pieces@, src as int);
            lemma_toggle(mid.pos.key, pieces_key(mid.pieces@, 64), pieces_key(self.pieces@, 64), sq_key(mid.pieces@[src as int], src as int));
        }
    }

    /// Makes `m` on the board, pushing the current state onto the history.
    #[verifier::rlimit(40)]
    pub fn make_move(&mut self, m: u16)
        requires
            move_ok(old(self), m),
        ensures
            final(self).wf(),
            has_kings(final(self)),
            check_info_valid(final(self)),
            final(self).pieces@ == pieces_after(old(self), m),
            final(self).turn == opp_of(old(self).turn),
            final(self).history@ == old(self).history@.push(old(self).pos),
            final(self).killers == old(self).killers,
            final(self).pos.castling == castling_after(old(self), m),
            final(self).pos.castling < 16,
            final(self).pos.ep_square == (if move_flag(m) == MoveFlag::DOUBLE_PAWN_PUSH {
                move_dest(m) - dir_of(old(self).turn)
            } else {
                64
            }),
            final(self).pos.rule_fifty == (if old(self).at(move_src(m)).t == PieceType::Pawn
                || flag_is_cap(move_flag(m)) {
                0
            } else {
                old(self).pos.rule_fifty + 1
            }),
            final(self).pos.ply == old(self).pos.ply + 1,
            final(self).pos.last_move == Some(m),
            final(self).pos.moved_piece == old(self).at(move_src(m)),
            moves_recorded(old(self)) ==> moves_recorded(final(self)),
            final(self).pos.captured_piece == (if flag_is_cap(move_flag(m)) && move_flag(m)
                != MoveFlag::EN_PASSANT {
                old(self).at(move_dest(m)).t
            } else {
                old(self).pos.captured_piece
            }),
            final(self).pos.key ^ zkey(final(self)) == old(self).pos.key ^ zkey(old(self)),
    {
        let src = BitMove::src(m);
        let dest = BitMove::dest(m);
        let flag = BitMove::flag(m);
        let is_cap = BitMove::is_cap(m);
        let piece = self.piece_type(src);
        let turn = self.turn;
        let opp = self.turn.opp();
        let ghost b0 = *self;
        let ghost s = src as int;
        let ghost d = dest as int;
        self.history.push(self.pos);
        self.pos.last_move = Some(m);
        self.pos.moved_piece = self.piece(src);
        self.pos.key = self.pos.key ^ Zobrist::castle(self.pos.castling);
        let ghost kh0 = self.pos.key;

        // Remove all castling rights for the moving side when a king move occurs
        if piece == PieceType::King {
            self.disable_castling(turn);
        }
        proof {
            bv_and_le(b0.pos.castling, Castling::BLACK_ALL);
            bv_and_le(b0.pos.castling, Castling::WHITE_ALL);
        }

        self.lift_captured(m);
        let ghost p1 = self.pieces@;
        proof {
            assert(p1 == captured_pieces(b0.pieces@, m, turn, b0.pos.ep_square as int));
            assert(self.at(s) == b0.at(s));
        }
        self.jump_rook(m);
        let ghost p2 = self.pieces@;
        proof {
            assert(self.at(s) == b0.at(s));
            assert(self.at(d).t == PieceType::NoPiece);
        }
        self.land_piece(m);
        let ghost kh = self.pos.key;
        let ghost p3 = self.pieces@;
        proof {
            assert(p3 == pieces_after(&b0, m));
        }

        // En passant square
        let ghost e0 = ep_key(b0.pos.ep_square);
        if self.can_ep() {
            self.clear_ep();
        } else {
            proof {
                lemma_xor(kh, 0, 0);
            }
        }
        let ghost e1 = if flag == MoveFlag::DOUBLE_PAWN_PUSH { ep_key((d - dir_of(turn)) as i8) } else { 0u64 };
        let ghost kh2 = self.pos.key;
        if flag == MoveFlag::DOUBLE_PAWN_PUSH {
            self.set_ep(dest - turn.pawn_dir());
        } else {
            proof {
                lemma_xor(kh2, 0, 0);
            }
        }

        if piece == PieceType::Pawn || is_cap {
            self.pos.rule_fifty = 0;
        } else {
            self.pos.rule_fifty = self.pos.rule_fifty + 1;
        }
        self.pos.key = self.pos.key ^ Zobrist::side();
        let ghost c_before = self.pos.castling;
        self.set_castling_from_move(m);
        proof {
            bv_and_le(c_before, corner_mask(s));
            bv_and_le(c_before & corner_mask(s), corner_mask(d));
        }
        self.pos.key = self.pos.key ^ Zobrist::castle(self.pos.castling);
        self.turn = opp;
        self.pos.ply = self.pos.ply + 1;
        proof {
            lemma_xor(crate::zobrist::SIDE, 0, 0);
            lemma_xor(0, crate::zobrist::SIDE, 0);
            bv_key_mix(b0.pos.key, pieces_key(b0.pieces@, 64), pieces_key(p3, 64), castle_key(b0.pos.castling), e0, e1, crate::zobrist::SIDE, castle_key(self.pos.castling), side_key(turn), side_key(opp), kh);
            let kw = lemma_king_somewhere(&b0, Player::White);
            let kb = lemma_king_somewhere(&b0, Player::Black);
            if kw == s {
                lemma_king_on(self, Player::White, d);
            } else {
                assert(self.pieces@[kw] == b0.pieces@[kw]);
                lemma_king_on(self, Player::White, kw);
            }
            if kb == s {
                lemma_king_on(self, Player::Black, d);
            } else {
                assert(self.pieces@[kb] == b0.pieces@[kb]);
                lemma_king_on(self, Player::Black, kb);
            }
        }
        self.set_check_info();
        proof {
            if moves_recorded(&b0) {
                assert(move_src(0) == move_dest(0));
                lemma_recorded_after_move(&b0, self, m);
            }
        }
    }
}


/// The moves `unmake_move` accepts on the position they led to: the moved piece on the
/// destination, an empty source and free squares for whatever comes back.
pub open spec fn unmake_ok(b: &Board, m: u16) -> bool {
    let s = move_src(m);
    let d = move_dest(m);
    let f = move_flag(m);
    let mover = opp_of(b.turn);
    let cap = flag_is_cap(f);
    let ep = f == MoveFlag::EN_PASSANT;
    &&& b.wf()
    &&& b.history@.len() >= 1
    &&& s != d
    &&& b.at(d).t != PieceType::NoPiece
    &&& b.at(d).c == mover
    &&& b.at(s).t == PieceType::NoPiece
    &&& (ep ==> 0 <= d + dir_of(b.turn) < 64 && d + dir_of(b.turn) != s && b.at(d + dir_of(b.turn)).t == PieceType::NoPiece)
    &&& (cap && !ep ==> b.pos.captured_piece != PieceType::NoPiece)
    &&& (f == MoveFlag::CASTLE_KING ==> 1 <= d && d + 1 < 64 && b.at(d - 1) == (Piece { t: PieceType::Rook, c: mover })
        && b.at(d + 1).t == PieceType::NoPiece && s != d - 1 && s != d + 1)
    &&& (f == MoveFlag::CASTLE_QUEEN ==> 2 <= d && d + 1 < 64 && b.at(d + 1) == (Piece { t: PieceType::Rook, c: mover })
        && b.at(d - 2).t == PieceType::NoPiece && s != d + 1 && s != d - 2)
}

/// The mailbox after taking back `m`: the piece returns (as a pawn after a promotion), the
/// captured piece or en passant pawn reappears, a castling rook goes home.
pub open spec fn pieces_before(b: &Board, m: u16) -> Seq<Piece> {
    let s = move_src(m);
    let d = move_dest(m);
    let f = move_flag(m);
    let mover = opp_of(b.turn);
    let pt = b.at(d).t;
    let back = if flag_is_prom(f) { PieceType::Pawn } else { pt };
    let q1 = b.pieces@.update(d, empty_piece()).update(s, Piece { t: back, c: mover });
    let q2 = if f == MoveFlag::EN_PASSANT {
        q1.update(d + dir_of(b.turn), Piece { t: PieceType::Pawn, c: b.turn })
    } else if flag_is_cap(f) {
        q1.update(d, Piece { t: b.pos.captured_piece, c: b.turn })
    } else {
        q1
    };
    if f == MoveFlag::CASTLE_KING {
        q2.update(d - 1, empty_piece()).update(d + 1, Piece { t: PieceType::Rook, c: mover })
    } else if f == MoveFlag::CASTLE_QUEEN {
        q2.update(d + 1, empty_piece()).update(d - 2, Piece { t: PieceType::Rook, c: mover })
    } else {
        q2
    }
}

impl Board {
    /// Takes back `m`, the last move made, restoring the state stored before it.
    pub fn unmake_move(&mut self, m: u16)
        requires
            unmake_ok(old(self), m),
        ensures
            final(self).wf(),
            final(self).pieces@ == pieces_before(old(self), m),
            final(self).pos == old(self).history@.last(),
            final(self).history@ == old(self).history@.drop_last(),
            final(self).turn == opp_of(old(self).turn),
            final(self).killers == old(self).killers,
    {
        let src = BitMove::src(m);
        let dest = BitMove::dest(m);
        let flag = BitMove::flag(m);
        let is_cap = BitMove::is_cap(m);
        let is_prom = BitMove::is_prom(m);
        let is_castle = BitMove::is_castle(m);
        let is_ep = BitMove::is_ep(m);
        let piece = self.piece_type(dest);
        let opp = self.turn.opp();
        let turn = self.turn;
        self.remove_piece(opp, piece, dest);
        if is_prom {
            self.add_piece(opp, PieceType::Pawn, src);
        } else {
            self.add_piece(opp, piece, src);
        }
        if is_ep {
            self.add_piece(turn, PieceType::Pawn, dest + turn.pawn_dir());
        } else if is_cap {
            self.add_piece(turn, self.pos.captured_piece, dest);
        }
        if is_castle {
            let rook_sq;
            let rook_home_sq;
            if flag == MoveFlag::CASTLE_KING {
                rook_sq = dest - 1;
                rook_home_sq = dest + 1;
            } else {
                rook_sq = dest + 1;
                rook_home_sq = dest - 2;
            }
            self.remove_piece(opp, PieceType::Rook, rook_sq);
            self.add_piece(opp, PieceType::Rook, rook_home_sq);
        }
        self.pos = self.history.pop();
        self.turn = opp;
    }

    /// Takes back the last move, if the current state records one.
    pub fn unmake_last_move(&mut self)
        requires
            old(self).pos.last_move.is_some() ==> unmake_ok(old(self), old(self).pos.last_move.unwrap()),
        ensures
            old(self).pos.last_move.is_none() ==> *final(self) == *old(self),
            old(self).pos.last_move.is_some() ==> {
                &&& final(self).pieces@ == pieces_before(old(self), old(self).pos.last_move.unwrap())
                &&& final(self).pos == old(self).history@.last()
                &&& final(self).history@ == old(self).history@.drop_last()
                &&& final(self).turn == opp_of(old(self).turn)
            },
    {
        if let Some(m) = self.pos.last_move {
            self.unmake_move(m);
        }
    }
}

/// Taking back a move restores the position it was made from: whenever `after` is what
/// `make_move` produces from `b` and `m`, `unmake_move` accepts `m` on `after`, and the
/// mailbox, state, history and side to move it yields are those of `b`.
pub proof fn lemma_unmake_restores(b: Board, m: u16, after: Board)
    requires
        move_ok(&b, m),
        after.wf(),
        after.pieces@ == pieces_after(&b, m),
        after.turn == opp_of(b.turn),
        after.history@ == b.history@.push(b.pos),
        after.pos.captured_piece == (if flag_is_cap(move_flag(m)) && move_flag(m) != MoveFlag::EN_PASSANT {
            b.at(move_dest(m)).t
        } else {
            b.pos.captured_piece
        }),
    ensures
        unmake_ok(&after, m),
        pieces_before(&after, m) == b.pieces@,
        after.history@.last() == b.pos,
        after.history@.drop_last() == b.history@,
        opp_of(after.turn) == b.turn,
{
    let s = move_src(m);
    let d = move_dest(m);
    let f = move_flag(m);
    lemma_decode_encode(m);
    assert(b.pieces@.len() == 64);
    assert(after.history@.drop_last() =~= b.history@);
    let restored = pieces_before(&after, m);
    assert forall|i: int| 0 <= i < 64 implies #[trigger] restored[i] == b.pieces@[i] by {
        if b.pieces@[i].t == PieceType::NoPiece {
            assert(b.pieces@[i] == empty_piece());
        }
        if b.at(d).t == PieceType::NoPiece {
            assert(b.pieces@[d] == empty_piece());
        }
    }
    assert(restored =~= b.pieces@);
}


impl Board {
    /// Passes the turn to the opponent, pushing the current state onto the history.
    pub fn make_null_move(&mut self)
        requires
            old(self).wf(),
            has_kings(old(self)),
            old(self).history@.len() < MAX_GAME_LENGTH,
            old(self).pos.ply < usize::MAX,
            0 <= old(self).pos.ep_square <= 64,
        ensures
            final(self).wf(),
            check_info_valid(final(self)),
            final(self).pieces == old(self).pieces,
            final(self).piece_bb == old(self).piece_bb,
            final(self).side_bb == old(self).side_bb,
            final(self).turn == opp_of(old(self).turn),
            final(self).history@ == old(self).history@.push(old(self).pos),
            final(self).killers == old(self).killers,
            final(self).pos.last_move.is_none(),
            final(self).pos.moved_piece.t == PieceType::NoPiece,
            moves_recorded(old(self)) ==> moves_recorded(final(self)),
            final(self).pos.ply == old(self).pos.ply + 1,
            final(self).pos.ep_square == 64,
            final(self).pos.castling == old(self).pos.castling,
            final(self).pos.rule_fifty == old(self).pos.rule_fifty,
            final(self).pos.captured_piece == old(self).pos.captured_piece,
            final(self).pos.key ^ zkey(final(self)) == old(self).pos.key ^ zkey(old(self)),
    {
        let ghost b0 = *self;
        self.history.push(self.pos);
        self.pos.last_move = None;
        self.pos.moved_piece = Piece::none();
        self.pos.ply = self.pos.ply + 1;
        self.pos.key = self.pos.key ^ Zobrist::side();
        self.turn = self.turn.opp();
        let ghost kh = self.pos.key;
        if self.can_ep() {
            self.clear_ep();
        } else {
            proof {
                lemma_xor(kh, 0, 0);
            }
        }
        proof {
            lemma_xor(crate::zobrist::SIDE, 0, 0);
            lemma_xor(0, crate::zobrist::SIDE, 0);
            bv_key_null(b0.pos.key, pieces_key(b0.pieces@, 64), castle_key(b0.pos.castling), ep_key(b0.pos.ep_square), crate::zobrist::SIDE, side_key(b0.turn), side_key(self.turn));
        }
        self.set_check_info();
    }

    /// Takes back a null move.
    pub fn unmake_null_move(&mut self)
        requires
            old(self).history@.len() >= 1,
        ensures
            final(self).pieces == old(self).pieces,
            final(self).piece_bb == old(self).piece_bb,
            final(self).side_bb == old(self).side_bb,
            final(self).pos == old(self).history@.last(),
            final(self).history@ == old(self).history@.drop_last(),
            final(self).turn == opp_of(old(self).turn),
            final(self).killers == old(self).killers,
    {
        self.pos = self.history.pop();
        self.turn = self.turn.opp();
    }
}

/// Key bookkeeping of a null move.
proof fn bv_key_null(k0: u64, p: u64, c: u64, e0: u64, sd: u64, s0: u64, s1: u64)
    by (bit_vector)
    requires
        s0 ^ s1 == sd,
    ensures
        ((k0 ^ sd) ^ e0) ^ (((p ^ c) ^ 0) ^ s1) == k0 ^ (((p ^ c) ^ e0) ^ s0),
{
}


impl Board {
    /// Can `make_move` play `m` here: a piece of the side to move leaves its square for
    /// one the flag fits, a captured piece is an enemy other than the king, castling finds
    /// its rook, and the history, counters and castling rights are within range?
    pub fn move_fits(&self, m: u16) -> (r: bool)
        requires
            self.wf(),
            has_kings(self),
        ensures
            r == move_ok(self, m),
    {
        let s = BitMove::src(m);
        let d = BitMove::dest(m);
        let f = BitMove::flag(m);
        let side = self.turn;
        let foe = side.opp();
        let pt = self.pieces[s as usize].t;
        let cap = BitMove::is_cap(m);
        let ep = f == MoveFlag::EN_PASSANT;
        let dir = side.pawn_dir();
        if s == d || pt == PieceType::NoPiece || self.pieces[s as usize].c != side {
            return false;
        }
        if self.history.len() >= MAX_GAME_LENGTH || self.pos.ply == usize::MAX || self.pos.castling >= 16 {
            return false;
        }
        if self.pos.ep_square < 0 || self.pos.ep_square > 64 {
            return false;
        }
        if !(pt == PieceType::Pawn || cap || self.pos.rule_fifty < 255) {
            return false;
        }
        let target = self.pieces[d as usize];
        if cap && !ep {
            if target.t == PieceType::NoPiece || target.t == PieceType::King || target.c != foe {
                return false;
            }
        } else if target.t != PieceType::NoPiece {
            return false;
        }
        if ep {
            if self.pos.ep_square >= 64 || d != self.pos.ep_square {
                return false;
            }
            let behind = d - dir;
            if behind < 0 || behind >= 64 || behind == s {
                return false;
            }
            let p = self.pieces[behind as usize];
            if p.t != PieceType::Pawn || p.c != foe {
                return false;
            }
        }
        if f == MoveFlag::DOUBLE_PAWN_PUSH {
            let behind = d - dir;
            if behind < 0 || behind >= 64 {
                return false;
            }
        }
        if BitMove::is_prom(m) && pt != PieceType::Pawn {
            return false;
        }
        if f == MoveFlag::CASTLE_KING {
            let home: i8 = if side == Player::White { 6 } else { 62 };
            if d != home || s == d + 1 || s == d - 1 {
                return false;
            }
            let rook = self.pieces[(d + 1) as usize];
            if rook.t != PieceType::Rook || rook.c != side || self.pieces[(d - 1) as usize].t != PieceType::NoPiece {
                return false;
            }
        }
        if f == MoveFlag::CASTLE_QUEEN {
            let home: i8 = if side == Player::White { 2 } else { 58 };
            if d != home || s == d - 2 || s == d + 1 {
                return false;
            }
            let rook = self.pieces[(d - 2) as usize];
            if rook.t != PieceType::Rook || rook.c != side || self.pieces[(d + 1) as usize].t != PieceType::NoPiece {
                return false;
            }
        }
        true
    }
}

} // verus!
