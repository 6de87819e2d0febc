//! The board: piece bitboards, a square-indexed mailbox, the per-ply state and the
//! stack of earlier states.
use vstd::prelude::*;
use crate::bits::{bit, group_bits, lemma_bits_ext, lemma_zero_iff_empty};
use crate::bitboard::{BitBoard, lsb, lemma_lsb, lemma_single_square};
use crate::bits::{squares, lemma_squares_finite, lemma_zero_iff_no_squares};
use crate::attack::{between, between_hits, bishop_hits, rook_hits, bishop_attacks, rook_attacks, pawn_attacks, knight_attacks, attacks, pawn_hits, knight_hits};
use crate::movegen::{attackers_to, attacks_square};
use crate::defs::{
    Castling, Piece, PieceType, Player, Square, NUM_PIECES, NUM_SIDES, MAX_GAME_LENGTH,
    MAX_STACK_SIZE, pt_idx, player_idx, pt_of_idx, opp_of, DARK_SQUARES, LIGHT_SQUARES,
};
use crate::position::{Position, History};
use crate::zobrist::{Zobrist, PIECES};

verus! {

broadcast use group_bits;

/// A chess position with its history.
#[derive(Clone, Debug)]
pub struct Board {
    pub turn: Player,
    /// Per piece type, the squares holding a piece of that type.
    pub piece_bb: [u64; NUM_PIECES],
    /// Per side, the squares holding a piece of that side.
    pub side_bb: [u64; NUM_SIDES],
    /// The piece on each square, `NoPiece` for empty squares.
    pub pieces: [Piece; 64],
    pub pos: Position,
    pub history: History,
    /// Quiet moves that caused a beta-cutoff, used for ordering
    pub killers: [[u16; MAX_STACK_SIZE]; 2],
}

/// The mailbox entry of an empty square.
pub open spec fn empty_piece() -> Piece {
    Piece { t: PieceType::NoPiece, c: Player::White }
}

/// Key of a piece on a square.
pub open spec fn piece_key(side: Player, pt: PieceType, sq: int) -> u64 {
    PIECES[pt_idx(pt) + player_idx(side) * 6][sq]
}

impl Board {
    /// Squares holding any piece.
    pub open spec fn occ(&self) -> u64 {
        self.side_bb[0] | self.side_bb[1]
    }

    /// The piece on `sq`.
    pub open spec fn at(&self, sq: int) -> Piece {
        self.pieces@[sq]
    }

    /// Every bitboard holds exactly the squares whose mailbox entry has its type or side.
    pub open spec fn wf(&self) -> bool {
        &&& forall|i: int, s: int|
            0 <= i < 6 ==> (#[trigger] bit(self.piece_bb[i], s) <==> (0 <= s < 64 && pt_idx(
                self.pieces@[s].t,
            ) == i))
        &&& forall|c: int, s: int|
            0 <= c < 2 ==> (#[trigger] bit(self.side_bb[c], s) <==> (0 <= s < 64
                && self.pieces@[s].t != PieceType::NoPiece && player_idx(self.pieces@[s].c)
                == c))
        &&& forall|s: int|
            0 <= s < 64 && #[trigger] self.pieces@[s].t == PieceType::NoPiece ==> self.pieces@[s]
                == empty_piece()
    }

    /// Squares holding a piece of type `pt` and side `side`.
    pub open spec fn has_piece(&self, side: Player, pt: PieceType, sq: int) -> bool {
        0 <= sq < 64 && self.pieces@[sq].t == pt && self.pieces@[sq].c == side && pt
            != PieceType::NoPiece
    }

    /// Everything but the key, the mailbox and the bitboards is unchanged.
    pub open spec fn same_except_pieces(&self, other: &Board) -> bool {
        &&& self.turn == other.turn
        &&& self.history@ == other.history@
        &&& self.killers == other.killers
        &&& self.pos == (Position { key: self.pos.key, ..other.pos })
    }
}

/// Key contribution of the mailbox entry `p` on square `i` (zero for an empty square).
pub open spec fn sq_key(p: Piece, i: int) -> u64 {
    if p.t == PieceType::NoPiece {
        0
    } else {
        PIECES[pt_idx(p.t) + player_idx(p.c) * 6][i]
    }
}

/// Exclusive or of the keys of the pieces on squares `0..n`.
pub open spec fn pieces_key(ps: Seq<Piece>, n: int) -> u64
    decreases n,
{
    if n <= 0 {
        0
    } else {
        pieces_key(ps, n - 1) ^ sq_key(ps[n - 1], n - 1)
    }
}

/// Key of a castling rights value.
pub open spec fn castle_key(c: u8) -> u64 {
    if c < 16 {
        crate::zobrist::CASTLE[c as int]
    } else {
        0
    }
}

/// Key of an en passant square (zero when there is none).
pub open spec fn ep_key(ep: Square) -> u64 {
    if 0 <= ep < 64 {
        crate::zobrist::EP[ep as int % 8]
    } else {
        0
    }
}

/// Key of the side to move.
pub open spec fn side_key(turn: Player) -> u64 {
    if turn == Player::Black {
        crate::zobrist::SIDE
    } else {
        0
    }
}

/// The Zobrist key of a board computed from scratch.
pub open spec fn zkey(b: &Board) -> u64 {
    pieces_key(b.pieces@, 64) ^ castle_key(b.pos.castling) ^ ep_key(b.pos.ep_square) ^ side_key(b.turn)
}

/// Exclusive or is associative and commutative, self-inverse, with zero as identity.
pub proof fn lemma_xor(a: u64, b: u64, c: u64)
    by (bit_vector)
    ensures
        (a ^ b) ^ c == a ^ (b ^ c),
        a ^ b == b ^ a,
        a ^ a == 0,
        a ^ 0 == a,
        0 ^ a == a,
{
}

/// Changing one mailbox entry changes the pieces key by the two entries' keys.
pub proof fn lemma_pieces_key_update(ps: Seq<Piece>, n: int, i: int, x: Piece)
    requires
        0 <= i < ps.len(),
        0 <= n <= ps.len(),
    ensures
        pieces_key(ps.update(i, x), n) == if i < n {
            pieces_key(ps, n) ^ (sq_key(ps[i], i) ^ sq_key(x, i))
        } else {
            pieces_key(ps, n)
        },
    decreases n,
{
    if n > 0 {
        lemma_pieces_key_update(ps, n - 1, i, x);
        let ps2 = ps.update(i, x);
        assert(pieces_key(ps2, n) == pieces_key(ps2, n - 1) ^ sq_key(ps2[n - 1], n - 1));
        assert(pieces_key(ps, n) == pieces_key(ps, n - 1) ^ sq_key(ps[n - 1], n - 1));
        if i != n - 1 {
            assert(ps2[n - 1] == ps[n - 1]);
        } else {
            assert(ps2[n - 1] == x);
        }
        let a = pieces_key(ps, n - 1);
        let k = sq_key(ps[i], i) ^ sq_key(x, i);
        if i == n - 1 {
            lemma_xor(a, sq_key(ps[i], i), sq_key(ps[i], i) ^ sq_key(x, i));
            lemma_xor(sq_key(ps[i], i), sq_key(ps[i], i), sq_key(x, i));
            lemma_xor(sq_key(x, i), 0, 0);
            lemma_xor(0, sq_key(x, i), 0);
        } else if i < n - 1 {
            let e = sq_key(ps[n - 1], n - 1);
            lemma_xor(a, k, e);
            lemma_xor(a, e, k);
            lemma_xor(k, e, 0);
        }
    }
}

/// Consequences of well-formedness on single squares.
pub proof fn lemma_wf_square(b: &Board, s: int)
    requires
        b.wf(),
        0 <= s < 64,
    ensures
        bit(b.occ(), s) == (b.at(s).t != PieceType::NoPiece),
        b.at(s).t != PieceType::NoPiece ==> bit(b.piece_bb[pt_idx(b.at(s).t)], s) && bit(
            b.side_bb[player_idx(b.at(s).c)],
            s,
        ),
{
    assert(bit(b.side_bb[0], s) == (b.at(s).t != PieceType::NoPiece && player_idx(b.at(s).c)
        == 0));
    assert(bit(b.side_bb[1], s) == (b.at(s).t != PieceType::NoPiece && player_idx(b.at(s).c)
        == 1));
    if b.at(s).t != PieceType::NoPiece {
        assert(bit(b.piece_bb[pt_idx(b.at(s).t)], s));
    }
}

/// Two well-formed boards with the same mailbox have the same bitboards.
pub proof fn lemma_wf_unique(a: &Board, b: &Board)
    requires
        a.wf(),
        b.wf(),
        a.pieces@ == b.pieces@,
    ensures
        a.piece_bb == b.piece_bb,
        a.side_bb == b.side_bb,
{
    assert forall|i: int| 0 <= i < 6 implies a.piece_bb[i] == b.piece_bb[i] by {
        assert forall|s: int| 0 <= s < 64 implies #[trigger] bit(a.piece_bb[i], s) == bit(
            b.piece_bb[i],
            s,
        ) by {}
        lemma_bits_ext(a.piece_bb[i], b.piece_bb[i]);
    }
    assert forall|c: int| 0 <= c < 2 implies a.side_bb[c] == b.side_bb[c] by {
        assert forall|s: int| 0 <= s < 64 implies #[trigger] bit(a.side_bb[c], s) == bit(
            b.side_bb[c],
            s,
        ) by {}
        lemma_bits_ext(a.side_bb[c], b.side_bb[c]);
    }
    assert(a.piece_bb@ =~= b.piece_bb@);
    assert(a.side_bb@ =~= b.side_bb@);
}

/// Setter methods
impl Board {
    /// Puts a piece of `side` and type `piece` on `sq`, toggling its key.
    pub fn add_piece(&mut self, side: Player, piece: PieceType, sq: Square)
        requires
            piece != PieceType::NoPiece,
            0 <= sq < 64,
        ensures
            final(self).pieces@ == old(self).pieces@.update(sq as int, Piece { t: piece, c: side }),
            final(self).piece_bb@ == old(self).piece_bb@.update(
                pt_idx(piece),
                old(self).piece_bb[pt_idx(piece)] | (1u64 << (sq as u64)),
            ),
            final(self).side_bb@ == old(self).side_bb@.update(
                player_idx(side),
                old(self).side_bb[player_idx(side)] | (1u64 << (sq as u64)),
            ),
            final(self).pos.key == old(self).pos.key ^ piece_key(side, piece, sq as int),
            final(self).same_except_pieces(old(self)),
            old(self).wf() && old(self).at(sq as int).t == PieceType::NoPiece ==> final(self).wf(),
    {
        self.pos.key = self.pos.key ^ Zobrist::piece(side, piece, sq);
        self.pieces[sq as usize] = Piece::new(piece, side);
        let pi = piece.as_usize();
        let si = side.as_usize();
        self.piece_bb[pi] = self.piece_bb[pi] | (1u64 << (sq as u64));
        self.side_bb[si] = self.side_bb[si] | (1u64 << (sq as u64));
        proof {
            if old(self).wf() && old(self).at(sq as int).t == PieceType::NoPiece {
                assert forall|i: int, s: int|
                    0 <= i < 6 implies (#[trigger] bit(self.piece_bb[i], s) <==> (0 <= s < 64
                    && pt_idx(self.pieces@[s].t) == i)) by {
                    assert(bit(old(self).piece_bb[i], s) <==> (0 <= s < 64 && pt_idx(
                        old(self).pieces@[s].t,
                    ) == i));
                }
                assert forall|c: int, s: int|
                    0 <= c < 2 implies (#[trigger] bit(self.side_bb[c], s) <==> (0 <= s < 64
                    && self.pieces@[s].t != PieceType::NoPiece && player_idx(self.pieces@[s].c)
                    == c)) by {
                    assert(bit(old(self).side_bb[c], s) <==> (0 <= s < 64
                        && old(self).pieces@[s].t != PieceType::NoPiece && player_idx(
                        old(self).pieces@[s].c,
                    ) == c));
                }
            }
        }
    }

    /// Takes the piece of `side` and type `piece` off `sq`, toggling its key.
    pub fn remove_piece(&mut self, side: Player, piece: PieceType, sq: Square)
        requires
            piece != PieceType::NoPiece,
            0 <= sq < 64,
        ensures
            final(self).pieces@ == old(self).pieces@.update(sq as int, Piece { t: PieceType::NoPiece, c: Player::White }),
            final(self).piece_bb@ == old(self).piece_bb@.update(
                pt_idx(piece),
                old(self).piece_bb[pt_idx(piece)] ^ (1u64 << (sq as u64)),
            ),
            final(self).side_bb@ == old(self).side_bb@.update(
                player_idx(side),
                old(self).side_bb[player_idx(side)] ^ (1u64 << (sq as u64)),
            ),
            final(self).pos.key == old(self).pos.key ^ piece_key(side, piece, sq as int),
            final(self).same_except_pieces(old(self)),
            old(self).wf() && old(self).has_piece(side, piece, sq as int) ==> final(self).wf(),
    {
        self.pos.key = self.pos.key ^ Zobrist::piece(side, piece, sq);
        self.pieces[sq as usize] = Piece::none();
        let pi = piece.as_usize();
        let si = side.as_usize();
        self.piece_bb[pi] = self.piece_bb[pi] ^ (1u64 << (sq as u64));
        self.side_bb[si] = self.side_bb[si] ^ (1u64 << (sq as u64));
        proof {
            if old(self).wf() && old(self).has_piece(side, piece, sq as int) {
                assert forall|i: int, s: int|
                    0 <= i < 6 implies (#[trigger] bit(self.piece_bb[i], s) <==> (0 <= s < 64
                    && pt_idx(self.pieces@[s].t) == i)) by {
                    assert(bit(old(self).piece_bb[i], s) <==> (0 <= s < 64 && pt_idx(
                        old(self).pieces@[s].t,
                    ) == i));
                }
                assert forall|c: int, s: int|
                    0 <= c < 2 implies (#[trigger] bit(self.side_bb[c], s) <==> (0 <= s < 64
                    && self.pieces@[s].t != PieceType::NoPiece && player_idx(self.pieces@[s].c)
                    == c)) by {
                    assert(bit(old(self).side_bb[c], s) <==> (0 <= s < 64
                        && old(self).pieces@[s].t != PieceType::NoPiece && player_idx(
                        old(self).pieces@[s].c,
                    ) == c));
                }
            }
        }
    }
}


/// Getter methods
impl Board {
    pub fn key(&self) -> (r: u64)
        ensures
            r == self.pos.key,
    {
        self.pos.key
    }

    /// Same as [`Board::key`].
    pub fn hash(&self) -> (r: u64)
        ensures
            r == self.pos.key,
    {
        self.pos.key
    }

    pub fn piece(&self, square: Square) -> (r: Piece)
        requires
            0 <= square < 64,
        ensures
            r == self.at(square as int),
    {
        self.pieces[square as usize]
    }

    /// Get the [`PieceType`] of the piece on the provided square
    pub fn piece_type(&self, square: Square) -> (r: PieceType)
        requires
            0 <= square < 64,
        ensures
            r == self.at(square as int).t,
    {
        self.pieces[square as usize].t
    }

    pub fn occ_bb(&self) -> (r: u64)
        ensures
            r == self.occ(),
    {
        self.side_bb[0] | self.side_bb[1]
    }

    /// Same as [`Board::occ_bb`].
    pub fn occupied(&self) -> (r: u64)
        ensures
            r == self.occ(),
    {
        self.occ_bb()
    }

    pub fn player_bb(&self, side: Player) -> (r: u64)
        ensures
            r == self.side_bb[player_idx(side)],
    {
        match side {
            Player::White => self.side_bb[0],
            _ => self.side_bb[1],
        }
    }

    pub fn cur_player_bb(&self) -> (r: u64)
        ensures
            r == self.side_bb[player_idx(self.turn)],
    {
        self.player_bb(self.turn)
    }

    pub fn piece_bb(&self, piece: PieceType) -> (r: u64)
        requires
            piece != PieceType::NoPiece,
        ensures
            r == self.piece_bb[pt_idx(piece)],
    {
        self.piece_bb[piece.as_usize()]
    }

    /// Get a piece-like bitboard.
    ///
    /// Eg `piece_like_bb(PieceType::Bishop)` returns queen and bishop bitboards combined
    pub fn piece_like_bb(&self, piece_like: PieceType) -> (r: u64)
        requires
            piece_like != PieceType::NoPiece,
        ensures
            r == self.piece_bb[pt_idx(piece_like)] | self.piece_bb[4],
    {
        self.piece_bb(piece_like) | self.piece_bb(PieceType::Queen)
    }

    pub fn player_piece_like_bb(&self, side: Player, piece_like: PieceType) -> (r: u64)
        requires
            piece_like != PieceType::NoPiece,
        ensures
            r == (self.piece_bb[pt_idx(piece_like)] | self.piece_bb[4]) & self.side_bb[player_idx(side)],
    {
        (self.piece_bb(piece_like) | self.piece_bb(PieceType::Queen)) & self.player_bb(side)
    }

    /// Squares holding a piece of `color` of type `piece` or a queen.
    pub fn colored_piece_like(&self, piece: PieceType, color: Player) -> (r: u64)
        requires
            piece != PieceType::NoPiece,
        ensures
            r == (self.piece_bb[pt_idx(piece)] | self.piece_bb[4]) & self.side_bb[player_idx(color)],
    {
        self.player_piece_like_bb(color, piece)
    }

    /// Squares holding a piece of `color` of type `piece`.
    pub fn colored_piece(&self, piece: PieceType, color: Player) -> (r: u64)
        requires
            piece != PieceType::NoPiece,
        ensures
            r == self.piece_bb[pt_idx(piece)] & self.side_bb[player_idx(color)],
    {
        self.player_piece_bb(color, piece)
    }

    pub fn player_piece_bb(&self, side: Player, piece: PieceType) -> (r: u64)
        requires
            piece != PieceType::NoPiece,
        ensures
            r == self.piece_bb[pt_idx(piece)] & self.side_bb[player_idx(side)],
    {
        let piece_bb = self.piece_bb(piece);
        let side_bb = self.player_bb(side);
        piece_bb & side_bb
    }

    /// The lowest square holding a king of the side to move, 64 if there is none.
    pub fn cur_king_square(&self) -> (r: Square)
        ensures
            r == lsb(self.piece_bb[5] & self.side_bb[player_idx(self.turn)]),
            0 <= r <= 64,
    {
        self.king_square(self.turn)
    }

    /// The lowest square holding a king of `side`, 64 if there is none.
    pub fn king_square(&self, side: Player) -> (r: Square)
        ensures
            r == lsb(self.piece_bb[5] & self.side_bb[player_idx(side)]),
            0 <= r <= 64,
    {
        let bb = self.player_piece_bb(side, PieceType::King);
        BitBoard::bit_scan_forward(bb)
    }

    pub fn in_check(&self) -> (r: bool)
        ensures
            r == (self.pos.checkers_bb != 0),
    {
        self.pos.checkers_bb != 0
    }

    pub fn checkers(&self) -> (r: u64)
        ensures
            r == self.pos.checkers_bb,
    {
        self.pos.checkers_bb
    }

    pub fn can_ep(&self) -> (r: bool)
        ensures
            r == (self.pos.ep_square < 64),
    {
        self.pos.ep_square < 64
    }

    pub fn ep_file(&self) -> (r: Square)
        ensures
            r == crate::defs::trunc_rem(self.pos.ep_square as int, 8),
    {
        self.pos.ep_square % 8
    }

    /// The en passant square, if any.
    pub fn ep_square(&self) -> (r: Option<Square>)
        ensures
            r == (if self.pos.ep_square < 64 { Some(self.pos.ep_square) } else { None }),
    {
        if self.pos.ep_square < 64 {
            Some(self.pos.ep_square)
        } else {
            None
        }
    }

    pub fn can_castle_queen(&self, side: Player) -> (r: bool)
        ensures
            r == (if side == Player::White {
                self.pos.castling & Castling::WQ != 0
            } else {
                self.pos.castling & Castling::BQ != 0
            }),
    {
        match side {
            Player::White => self.pos.castling & Castling::WQ != 0,
            Player::Black => self.pos.castling & Castling::BQ != 0,
        }
    }

    pub fn can_castle_king(&self, side: Player) -> (r: bool)
        ensures
            r == (if side == Player::White {
                self.pos.castling & Castling::WK != 0
            } else {
                self.pos.castling & Castling::BK != 0
            }),
    {
        match side {
            Player::White => self.pos.castling & Castling::WK != 0,
            Player::Black => self.pos.castling & Castling::BK != 0,
        }
    }

    pub fn can_castle(&self, side: Player) -> (r: bool)
        ensures
            r == (if side == Player::White {
                self.pos.castling & Castling::WHITE_ALL != 0
            } else {
                self.pos.castling & Castling::BLACK_ALL != 0
            }),
    {
        match side {
            Player::White => self.pos.castling & Castling::WHITE_ALL != 0,
            Player::Black => self.pos.castling & Castling::BLACK_ALL != 0,
        }
    }

    /// Pawns of `side` on dark squares when `sq` is even, on light squares otherwise.
    pub fn pawns_on_sq_color(&self, side: Player, sq: Square) -> (r: u64)
        ensures
            r == (self.piece_bb[0] & self.side_bb[player_idx(side)]) & (if sq % 2 == 0 {
                DARK_SQUARES
            } else {
                LIGHT_SQUARES
            }),
    {
        let pawns = self.player_piece_bb(side, PieceType::Pawn);
        if sq % 2 == 0 {
            pawns & DARK_SQUARES
        } else {
            pawns & LIGHT_SQUARES
        }
    }

    /// Does `side` have a knight, bishop, rook or queen?
    pub fn has_non_pawns(&self, side: Player) -> (r: bool)
        ensures
            r == (self.piece_bb[1] & self.side_bb[player_idx(side)] != 0 || self.piece_bb[2]
                & self.side_bb[player_idx(side)] != 0 || self.piece_bb[3] & self.side_bb[player_idx(side)] != 0
                || self.piece_bb[4] & self.side_bb[player_idx(side)] != 0),
    {
        self.player_piece_bb(side, PieceType::Knight) != 0 || self.player_piece_bb(
            side,
            PieceType::Bishop,
        ) != 0 || self.player_piece_bb(side, PieceType::Rook) != 0 || self.player_piece_bb(
            side,
            PieceType::Queen,
        ) != 0
    }

    /// Does `side` have a bishop, rook or queen?
    pub fn has_big_piece(&self, side: Player) -> (r: bool)
        ensures
            r == (self.piece_bb[2] & self.side_bb[player_idx(side)] != 0 || self.piece_bb[3]
                & self.side_bb[player_idx(side)] != 0 || self.piece_bb[4] & self.side_bb[player_idx(side)] != 0),
    {
        self.player_piece_bb(side, PieceType::Bishop) != 0 || self.player_piece_bb(
            side,
            PieceType::Rook,
        ) != 0 || self.player_piece_bb(side, PieceType::Queen) != 0
    }

    /// Pieces blocking a slider's check on the king of `side`.
    pub fn blockers(&self, side: Player) -> (r: u64)
        ensures
            r == self.pos.king_blockers[player_idx(side)],
    {
        self.pos.king_blockers[side.as_usize()]
    }

    pub fn pinned_diag(&self) -> (r: u64)
        ensures
            r == self.pos.pinned_diag,
    {
        self.pos.pinned_diag
    }

    pub fn pinned_ortho(&self) -> (r: u64)
        ensures
            r == self.pos.pinned_ortho,
    {
        self.pos.pinned_ortho
    }

    pub fn pinned(&self) -> (r: u64)
        ensures
            r == self.pos.pinned_diag | self.pos.pinned_ortho,
    {
        self.pos.pinned_diag | self.pos.pinned_ortho
    }

    /// Ply of this position.
    pub fn his_ply(&self) -> (r: usize)
        ensures
            r == self.pos.ply,
    {
        self.pos.ply
    }

    /// The type of the piece on `sq`, read from the bitboards.
    pub fn piece_on(&self, sq: Square) -> (r: PieceType)
        requires
            self.wf(),
            0 <= sq < 64,
        ensures
            r == self.at(sq as int).t,
    {
        proof {
            lemma_wf_square(self, sq as int);
            assert forall|i: int| 0 <= i < 6 implies #[trigger] bit(self.piece_bb[i], sq as int) == (pt_idx(self.at(sq as int).t) == i) by {}
        }
        if !BitBoard::contains(self.occ_bb(), sq) {
            PieceType::NoPiece
        } else if BitBoard::contains(self.piece_bb[0], sq) {
            PieceType::Pawn
        } else if BitBoard::contains(self.piece_bb[1], sq) {
            PieceType::Knight
        } else if BitBoard::contains(self.piece_bb[2], sq) {
            PieceType::Bishop
        } else if BitBoard::contains(self.piece_bb[3], sq) {
            PieceType::Rook
        } else if BitBoard::contains(self.piece_bb[4], sq) {
            PieceType::Queen
        } else {
            PieceType::King
        }
    }

    pub fn is_occupied(&self, sq: Square) -> (r: bool)
        requires
            0 <= sq < 64,
        ensures
            r == bit(self.occ(), sq as int),
    {
        BitBoard::contains(self.occ_bb(), sq)
    }
}


/// `u` is the only square of `occ` strictly between `sq` and `s`.
pub open spec fn lone_blocker(sq: int, s: int, occ: spec_fn(int) -> bool, u: int) -> bool {
    &&& between_hits(sq, s, u)
    &&& occ(u)
    &&& forall|v: int| #[trigger] between_hits(sq, s, v) && occ(v) ==> v == u
}

/// A slider in `opp_bb` that would attack `sq` on an empty board.
pub open spec fn is_sniper(b: &Board, opp_bb: u64, sq: int, s: int) -> bool {
    &&& bit(opp_bb, s)
    &&& ((bishop_hits(sq, 0, s) && bit(b.piece_bb[2] | b.piece_bb[4], s)) || (rook_hits(sq, 0, s)
        && bit(b.piece_bb[3] | b.piece_bb[4], s)))
}

/// Occupancy seen by [`Board::slider_blockers`]: the board with the snipers toggled off.
pub open spec fn sniper_occ(b: &Board, opp_bb: u64, sq: int) -> spec_fn(int) -> bool {
    |v: int| bit(b.occ(), v) != is_sniper(b, opp_bb, sq, v)
}

/// The piece of `occ` standing alone strictly between `sq` and `s`; empty when there is
/// none or more than one.
fn lone_between(sq: Square, s: Square, occ: u64, Ghost(socc): Ghost<spec_fn(int) -> bool>) -> (r: u64)
    requires
        0 <= sq < 64,
        0 <= s < 64,
        forall|v: int| #[trigger] bit(occ, v) == socc(v),
    ensures
        forall|u: int| #[trigger] bit(r, u) == lone_blocker(sq as int, s as int, socc, u),
{
    let b = between(sq, s) & occ;
    assert forall|v: int| #[trigger] bit(b, v) == (between_hits(sq as int, s as int, v) && socc(v)) by {}
    if b != 0 && !BitBoard::more_than_one(b) {
        proof {
            lemma_single_square(b);
            assert forall|u: int| #[trigger] bit(b, u) == lone_blocker(sq as int, s as int, socc, u) by {
                if bit(b, u) {
                    assert(u == lsb(b));
                    assert forall|v: int| #[trigger] between_hits(sq as int, s as int, v) && socc(v) implies v == u by {
                        assert(bit(b, v));
                    }
                }
            }
        }
        b
    } else {
        proof {
            if b == 0 {
                lemma_zero_iff_empty(b);
                assert forall|u: int| !lone_blocker(sq as int, s as int, socc, u) by {
                    if lone_blocker(sq as int, s as int, socc, u) {
                        assert(bit(b, u));
                    }
                }
            } else {
                lemma_single_square(b);
                let v = choose|v: int| #[trigger] bit(b, v) && v != lsb(b);
                assert forall|u: int| !lone_blocker(sq as int, s as int, socc, u) by {
                    if lone_blocker(sq as int, s as int, socc, u) {
                        assert(bit(b, lsb(b)));
                        assert(lsb(b) == u);
                        assert(v == u);
                    }
                }
            }
        }
        0
    }
}

/// Blockers and pinners found so far, from the snipers of `snipers0` not left in `snipers`.
pub open spec fn blockers_so_far(q: int, socc: spec_fn(int) -> bool, snipers0: u64, snipers: u64, blockers: u64) -> bool {
    forall|u: int| #[trigger] bit(blockers, u) == exists|s: int|
        #[trigger] bit(snipers0, s) && !bit(snipers, s) && lone_blocker(q, s, socc, u)
}

pub open spec fn pinners_so_far(q: int, socc: spec_fn(int) -> bool, snipers0: u64, snipers: u64, us_bb: u64, pinners: u64) -> bool {
    forall|s: int| #[trigger] bit(pinners, s) == (bit(snipers0, s) && !bit(snipers, s) && exists|u: int|
        #[trigger] lone_blocker(q, s, socc, u) && bit(us_bb, u))
}

/// Taking the sniper on `t` out of the remaining ones adds its lone blocker to the
/// blockers, and the sniper itself to the pinners when that blocker is in `us_bb`.
proof fn lemma_blocker_step(
    q: int, socc: spec_fn(int) -> bool, snipers0: u64, old_snipers: u64, snipers: u64, t: int,
    lb: u64, us_bb: u64, old_blockers: u64, blockers: u64, old_pinners: u64, pinners: u64,
)
    requires
        bit(old_snipers, t),
        forall|v: int| #[trigger] bit(snipers, v) == (bit(old_snipers, v) && v != t),
        forall|v: int| #[trigger] bit(old_snipers, v) ==> bit(snipers0, v),
        forall|u: int| #[trigger] bit(lb, u) == lone_blocker(q, t, socc, u),
        blockers_so_far(q, socc, snipers0, old_snipers, old_blockers),
        pinners_so_far(q, socc, snipers0, old_snipers, us_bb, old_pinners),
        forall|u: int| #[trigger] bit(blockers, u) == (bit(old_blockers, u) || bit(lb, u)),
        forall|s: int| #[trigger] bit(pinners, s) == (bit(old_pinners, s) || (s == t && exists|u: int| #[trigger] bit(lb, u) && bit(us_bb, u))),
    ensures
        blockers_so_far(q, socc, snipers0, snipers, blockers),
        pinners_so_far(q, socc, snipers0, snipers, us_bb, pinners),
{
    assert forall|u: int| #[trigger] bit(blockers, u) == exists|s: int|
        #[trigger] bit(snipers0, s) && !bit(snipers, s) && lone_blocker(q, s, socc, u) by {
        if bit(lb, u) {
            assert(bit(snipers0, t) && !bit(snipers, t) && lone_blocker(q, t, socc, u));
        }
        if exists|s: int| #[trigger] bit(snipers0, s) && !bit(snipers, s) && lone_blocker(q, s, socc, u) {
            let s = choose|s: int| #[trigger] bit(snipers0, s) && !bit(snipers, s) && lone_blocker(q, s, socc, u);
            if s != t {
                assert(!bit(old_snipers, s));
            } else {
                assert(bit(lb, u));
            }
        }
    }
    assert forall|s: int| #[trigger] bit(pinners, s) == (bit(snipers0, s) && !bit(snipers, s) && exists|u: int|
        #[trigger] lone_blocker(q, s, socc, u) && bit(us_bb, u)) by {
        if s == t {
            if exists|u: int| #[trigger] bit(lb, u) && bit(us_bb, u) {
                let u = choose|u: int| #[trigger] bit(lb, u) && bit(us_bb, u);
                assert(lone_blocker(q, s, socc, u) && bit(us_bb, u));
            }
            if exists|u: int| #[trigger] lone_blocker(q, s, socc, u) && bit(us_bb, u) {
                let u = choose|u: int| #[trigger] lone_blocker(q, s, socc, u) && bit(us_bb, u);
                assert(bit(lb, u) && bit(us_bb, u));
            }
        }
    }
}

impl Board {
    /// Pieces standing alone between `sq` and a slider of `opp_bb` aiming at it
    /// (the blockers), and the sliders whose lone blocker belongs to `us_bb` (the pinners).
    pub fn slider_blockers(&self, us_bb: u64, opp_bb: u64, sq: Square) -> (r: (u64, u64))
        requires
            0 <= sq < 64,
        ensures
            forall|u: int| #[trigger] bit(r.0, u) == exists|s: int|
                #[trigger] is_sniper(self, opp_bb, sq as int, s) && lone_blocker(sq as int, s, sniper_occ(self, opp_bb, sq as int), u),
            forall|s: int| #[trigger] bit(r.1, s) == (is_sniper(self, opp_bb, sq as int, s) && exists|u: int|
                #[trigger] lone_blocker(sq as int, s, sniper_occ(self, opp_bb, sq as int), u) && bit(us_bb, u)),
    {
        let mut blockers: u64 = 0;
        let mut pinners: u64 = 0;
        let snipers0 = ((bishop_attacks(sq, 0) & self.piece_like_bb(PieceType::Bishop)) | (
        rook_attacks(sq, 0) & self.piece_like_bb(PieceType::Rook))) & opp_bb;
        let occ = self.occ_bb() ^ snipers0;
        let ghost q = sq as int;
        let ghost socc = sniper_occ(self, opp_bb, q);
        assert forall|s: int| #[trigger] bit(snipers0, s) == is_sniper(self, opp_bb, q, s) by {}
        assert forall|v: int| #[trigger] bit(occ, v) == socc(v) by {}
        let mut snipers = snipers0;
        while snipers != 0
            invariant
                0 <= sq < 64,
                q == sq,
                forall|v: int| #[trigger] bit(occ, v) == socc(v),
                forall|s: int| #[trigger] bit(snipers, s) ==> bit(snipers0, s),
                blockers_so_far(q, socc, snipers0, snipers, blockers),
                pinners_so_far(q, socc, snipers0, snipers, us_bb, pinners),
            decreases snipers,
        {
            let ghost old_snipers = snipers;
            let ghost old_blockers = blockers;
            let ghost old_pinners = pinners;
            let sniper_sq = BitBoard::pop_lsb(&mut snipers);
            proof {
                crate::movegen::lemma_pop_decreases(old_snipers, sniper_sq as u64);
            }
            let lb = lone_between(sq, sniper_sq, occ, Ghost(socc));
            blockers = blockers | lb;
            let pinned = lb & us_bb;
            if pinned != 0 {
                pinners = pinners | BitBoard::from_sq(sniper_sq);
            }
            proof {
                lemma_zero_iff_empty(pinned);
                assert(pinned != 0 <==> exists|u: int| #[trigger] bit(lb, u) && bit(us_bb, u)) by {
                    if exists|u: int| #[trigger] bit(lb, u) && bit(us_bb, u) {
                        let u = choose|u: int| #[trigger] bit(lb, u) && bit(us_bb, u);
                        assert(bit(pinned, u));
                    }
                }
                lemma_blocker_step(q, socc, snipers0, old_snipers, snipers, sniper_sq as int, lb, us_bb,
                    old_blockers, blockers, old_pinners, pinners);
            }
        }
        proof {
            crate::bits::lemma_zero_iff_empty(snipers);
            assert forall|u: int| #[trigger] bit(blockers, u) == exists|s: int|
                #[trigger] is_sniper(self, opp_bb, q, s) && lone_blocker(q, s, sniper_occ(self, opp_bb, q), u) by {
                if exists|s: int| #[trigger] is_sniper(self, opp_bb, q, s) && lone_blocker(q, s, sniper_occ(self, opp_bb, q), u) {
                    let s = choose|s: int| #[trigger] is_sniper(self, opp_bb, q, s) && lone_blocker(q, s, sniper_occ(self, opp_bb, q), u);
                    assert(bit(snipers0, s) && !bit(snipers, s) && lone_blocker(q, s, socc, u));
                }
            }
        }
        (blockers, pinners)
    }
}


/// The square of the (lowest) king of `side`, 64 if it has none.
pub open spec fn king_sq_of(b: &Board, side: Player) -> int {
    lsb(b.piece_bb[5] & b.side_bb[player_idx(side)])
}

/// Both sides have a king.
pub open spec fn has_kings(b: &Board) -> bool {
    b.piece_bb[5] & b.side_bb[0] != 0 && b.piece_bb[5] & b.side_bb[1] != 0
}

/// `u` is a lone blocker between the king of `side` and an enemy slider.
pub open spec fn king_blocker(b: &Board, side: Player, u: int) -> bool {
    let k = king_sq_of(b, side);
    let opp = b.side_bb[player_idx(opp_of(side))];
    exists|s: int| #[trigger] is_sniper(b, opp, k, s) && lone_blocker(k, s, sniper_occ(b, opp, k), u)
}

/// `s` is a slider of `side` whose lone blocker toward the enemy king is an enemy piece.
pub open spec fn king_pinner(b: &Board, side: Player, s: int) -> bool {
    let foe = opp_of(side);
    let k = king_sq_of(b, foe);
    let mine = b.side_bb[player_idx(side)];
    let theirs = b.side_bb[player_idx(foe)];
    is_sniper(b, mine, k, s) && exists|u: int| #[trigger] lone_blocker(k, s, sniper_occ(b, mine, k), u) && bit(theirs, u)
}

/// The check information stored in the position matches the pieces.
pub open spec fn check_info_valid(b: &Board) -> bool {
    let us = b.turn;
    let them = opp_of(us);
    let ksq = king_sq_of(b, us);
    let oksq = king_sq_of(b, them);
    let occ = b.occ();
    &&& forall|t: int| #[trigger] bit(b.pos.checkers_bb, t) == (attacks_square(b, ksq, occ, t) && bit(b.side_bb[player_idx(them)], t))
    &&& forall|u: int| #[trigger] bit(b.pos.king_blockers[0], u) == king_blocker(b, Player::White, u)
    &&& forall|u: int| #[trigger] bit(b.pos.king_blockers[1], u) == king_blocker(b, Player::Black, u)
    &&& forall|s: int| #[trigger] bit(b.pos.pinners[0], s) == king_pinner(b, Player::White, s)
    &&& forall|s: int| #[trigger] bit(b.pos.pinners[1], s) == king_pinner(b, Player::Black, s)
    &&& forall|t: int| #[trigger] bit(b.pos.check_squares[0], t) == pawn_hits(oksq, them, t)
    &&& forall|t: int| #[trigger] bit(b.pos.check_squares[1], t) == knight_hits(oksq, t)
    &&& forall|t: int| #[trigger] bit(b.pos.check_squares[2], t) == bishop_hits(oksq, occ, t)
    &&& forall|t: int| #[trigger] bit(b.pos.check_squares[3], t) == rook_hits(oksq, occ, t)
    &&& forall|t: int| #[trigger] bit(b.pos.check_squares[4], t) == (bishop_hits(oksq, occ, t) || rook_hits(oksq, occ, t))
    &&& forall|u: int| #[trigger] bit(b.pos.pinned_diag, u) == (king_blocker(b, us, u) && bishop_hits(ksq, 0, u))
    &&& forall|u: int| #[trigger] bit(b.pos.pinned_ortho, u) == (king_blocker(b, us, u) && rook_hits(ksq, 0, u))
}

impl Board {
    /// Calculate checkers, blockers, pinners, pinned pieces and checking squares.
    pub fn set_check_info(&mut self)
        requires
            has_kings(old(self)),
        ensures
            check_info_valid(final(self)),
            final(self).pieces == old(self).pieces,
            final(self).piece_bb == old(self).piece_bb,
            final(self).side_bb == old(self).side_bb,
            final(self).turn == old(self).turn,
            final(self).history@ == old(self).history@,
            final(self).killers == old(self).killers,
            final(self).pos == (Position {
                checkers_bb: final(self).pos.checkers_bb,
                king_blockers: final(self).pos.king_blockers,
                pinners: final(self).pos.pinners,
                check_squares: final(self).pos.check_squares,
                pinned_diag: final(self).pos.pinned_diag,
                pinned_ortho: final(self).pos.pinned_ortho,
                ..old(self).pos
            }),
    {
        let opp = self.turn.opp();
        let occ = self.occ_bb();
        let us_bb = self.cur_player_bb();
        let opp_bb = self.player_bb(opp);
        let king_sq = self.cur_king_square();
        let opp_king_sq = self.king_square(opp);
        proof {
            lemma_lsb(self.piece_bb[5] & self.side_bb[0]);
            lemma_lsb(self.piece_bb[5] & self.side_bb[1]);
        }
        let checkers = attackers_to(self, king_sq, occ) & opp_bb;
        let (w_pieces, b_pieces, w_king_sq, b_king_sq) = match self.turn {
            Player::White => (us_bb, opp_bb, king_sq, opp_king_sq),
            _ => (opp_bb, us_bb, opp_king_sq, king_sq),
        };
        let (w_blockers, b_pinners) = self.slider_blockers(w_pieces, b_pieces, w_king_sq);
        let (b_blockers, w_pinners) = self.slider_blockers(b_pieces, w_pieces, b_king_sq);
        let own_blockers = if self.turn == Player::White { w_blockers } else { b_blockers };
        let pinned_diag = own_blockers & bishop_attacks(king_sq, 0);
        let pinned_ortho = own_blockers & rook_attacks(king_sq, 0);
        let cs0 = pawn_attacks(opp_king_sq, opp);
        let cs1 = knight_attacks(opp_king_sq);
        let cs2 = attacks(PieceType::Bishop, opp_king_sq, occ, self.turn);
        let cs3 = attacks(PieceType::Rook, opp_king_sq, occ, self.turn);
        let cs4 = cs2 | cs3;
        let ghost before = *self;
        self.pos.checkers_bb = checkers;
        self.pos.king_blockers = [w_blockers, b_blockers];
        self.pos.pinners = [w_pinners, b_pinners];
        self.pos.check_squares[0] = cs0;
        self.pos.check_squares[1] = cs1;
        self.pos.check_squares[2] = cs2;
        self.pos.check_squares[3] = cs3;
        self.pos.check_squares[4] = cs4;
        self.pos.pinned_diag = pinned_diag;
        self.pos.pinned_ortho = pinned_ortho;
        proof {
            assert(self.occ() == before.occ());
            assert(forall|t: int| #[trigger] attacks_square(self, king_sq as int, occ, t) == attacks_square(&before, king_sq as int, occ, t));
            assert(forall|k: int, o: u64, s: int| #[trigger] is_sniper(self, o, k, s) == is_sniper(&before, o, k, s));
            assert(forall|k: int, o: u64| #[trigger] sniper_occ(self, o, k) == sniper_occ(&before, o, k));
            let us = self.turn;
            let them = opp_of(us);
            let ksq = king_sq_of(self, us);
            let oksq = king_sq_of(self, them);
            assert(ksq == king_sq);
            assert(oksq == opp_king_sq);
            assert(forall|t: int| #[trigger] bit(self.pos.checkers_bb, t) == (attacks_square(self, ksq, occ, t) && bit(self.side_bb[player_idx(them)], t)));
            assert forall|u: int| #[trigger] bit(self.pos.king_blockers[0], u) == king_blocker(self, Player::White, u) by {
                let k = king_sq_of(self, Player::White);
                let o = self.side_bb[1];
                if king_blocker(self, Player::White, u) {
                    let s = choose|s: int| #[trigger] is_sniper(self, o, k, s) && lone_blocker(k, s, sniper_occ(self, o, k), u);
                    assert(is_sniper(&before, o, k, s) && lone_blocker(k, s, sniper_occ(&before, o, k), u));
                }
                if bit(self.pos.king_blockers[0], u) {
                    let s = choose|s: int| #[trigger] is_sniper(&before, o, k, s) && lone_blocker(k, s, sniper_occ(&before, o, k), u);
                    assert(is_sniper(self, o, k, s) && lone_blocker(k, s, sniper_occ(self, o, k), u));
                }
            }
            assert forall|u: int| #[trigger] bit(self.pos.king_blockers[1], u) == king_blocker(self, Player::Black, u) by {
                let k = king_sq_of(self, Player::Black);
                let o = self.side_bb[0];
                if king_blocker(self, Player::Black, u) {
                    let s = choose|s: int| #[trigger] is_sniper(self, o, k, s) && lone_blocker(k, s, sniper_occ(self, o, k), u);
                    assert(is_sniper(&before, o, k, s) && lone_blocker(k, s, sniper_occ(&before, o, k), u));
                }
                if bit(self.pos.king_blockers[1], u) {
                    let s = choose|s: int| #[trigger] is_sniper(&before, o, k, s) && lone_blocker(k, s, sniper_occ(&before, o, k), u);
                    assert(is_sniper(self, o, k, s) && lone_blocker(k, s, sniper_occ(self, o, k), u));
                }
            }
            assert forall|s: int| #[trigger] bit(self.pos.pinners[0], s) == king_pinner(self, Player::White, s) by {
                let k = king_sq_of(self, Player::Black);
                let mine = self.side_bb[0];
                let theirs = self.side_bb[1];
                assert(is_sniper(self, mine, k, s) == is_sniper(&before, mine, k, s));
                if king_pinner(self, Player::White, s) {
                    let u = choose|u: int| #[trigger] lone_blocker(k, s, sniper_occ(self, mine, k), u) && bit(theirs, u);
                    assert(lone_blocker(k, s, sniper_occ(&before, mine, k), u) && bit(theirs, u));
                }
                if bit(self.pos.pinners[0], s) {
                    let u = choose|u: int| #[trigger] lone_blocker(k, s, sniper_occ(&before, mine, k), u) && bit(theirs, u);
                    assert(lone_blocker(k, s, sniper_occ(self, mine, k), u) && bit(theirs, u));
                }
            }
            assert forall|s: int| #[trigger] bit(self.pos.pinners[1], s) == king_pinner(self, Player::Black, s) by {
                let k = king_sq_of(self, Player::White);
                let mine = self.side_bb[1];
                let theirs = self.side_bb[0];
                assert(is_sniper(self, mine, k, s) == is_sniper(&before, mine, k, s));
                if king_pinner(self, Player::Black, s) {
                    let u = choose|u: int| #[trigger] lone_blocker(k, s, sniper_occ(self, mine, k), u) && bit(theirs, u);
                    assert(lone_blocker(k, s, sniper_occ(&before, mine, k), u) && bit(theirs, u));
                }
                if bit(self.pos.pinners[1], s) {
                    let u = choose|u: int| #[trigger] lone_blocker(k, s, sniper_occ(&before, mine, k), u) && bit(theirs, u);
                    assert(lone_blocker(k, s, sniper_occ(self, mine, k), u) && bit(theirs, u));
                }
            }

            assert(forall|t: int| #[trigger] bit(self.pos.check_squares[0], t) == pawn_hits(oksq, them, t));
            assert(forall|t: int| #[trigger] bit(self.pos.check_squares[4], t) == (bishop_hits(oksq, occ, t) || rook_hits(oksq, occ, t)));
            assert(forall|u: int| #[trigger] bit(self.pos.pinned_diag, u) == (king_blocker(self, us, u) && bishop_hits(ksq, 0, u)));
        }
    }
}


impl Board {
    /// The empty board, white to move, no history.
    pub fn new() -> (r: Self)
        ensures
            r.wf(),
            r.turn == Player::White,
            forall|i: int| 0 <= i < 64 ==> #[trigger] r.pieces@[i] == empty_piece(),
            r.piece_bb@ == seq![0u64, 0u64, 0u64, 0u64, 0u64, 0u64],
            r.side_bb@ == seq![0u64, 0u64],
            r.history@ == Seq::<Position>::empty(),
            r.pos == Position::new_spec(),
            forall|i: int, j: int| 0 <= i < 2 && 0 <= j < MAX_STACK_SIZE ==> r.killers[i][j] == 0,
    {
        let none = Piece::none();
        let r = Board {
            turn: Player::White,
            piece_bb: [0, 0, 0, 0, 0, 0],
            side_bb: [0, 0],
            pieces: [none; 64],
            pos: Position::new(),
            history: History::new(),
            killers: [[0; 128]; 2],
        };
        proof {
            assert forall|i: int, s: int| 0 <= i < 6 implies (#[trigger] bit(r.piece_bb[i], s) <==> (0 <= s < 64 && pt_idx(r.pieces@[s].t) == i)) by {
                if 0 <= s < 64 {
                    assert(r.pieces@[s] == none);
                }
            }
            assert forall|c: int, s: int| 0 <= c < 2 implies (#[trigger] bit(r.side_bb[c], s) <==> (0 <= s < 64
                && r.pieces@[s].t != PieceType::NoPiece && player_idx(r.pieces@[s].c) == c)) by {
                if 0 <= s < 64 {
                    assert(r.pieces@[s] == none);
                }
            }
        }
        r
    }

    /// Forgets all killer moves.
    pub fn clear_killers(&mut self)
        ensures
            forall|i: int, j: int| 0 <= i < 2 && 0 <= j < MAX_STACK_SIZE ==> final(self).killers[i][j] == 0,
            final(self).pieces == old(self).pieces,
            final(self).piece_bb == old(self).piece_bb,
            final(self).side_bb == old(self).side_bb,
            final(self).pos == old(self).pos,
            final(self).turn == old(self).turn,
            final(self).history@ == old(self).history@,
    {
        self.killers = [[0; 128]; 2];
    }
}

} // verus!
