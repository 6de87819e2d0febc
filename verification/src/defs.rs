//! Core chess definitions: players, piece types, pieces, castling rights,
//! directions and the tapered evaluation pair.
use vstd::prelude::*;
use crate::bitboard::BitBoard;

verus! {

pub const WHITE_IDX: usize = 0;
pub const BLACK_IDX: usize = 1;

pub const MAX_GAME_LENGTH: usize = 512;
pub const MAX_MOVES: usize = 256;
pub const NUM_PIECES: usize = 6;
pub const NUM_SIDES: usize = 2;
pub const NUM_SQUARES: usize = 64;

/// Depth of the per-ply search stacks.
pub const MAX_STACK_SIZE: usize = 128;

/// Square index, 0 = a1 ... 63 = h8; 64 means "no square".
pub type Square = i8;
pub type Depth = i16;
pub type Score = i32;
pub type TTScore = i16;

/// Square offsets of the eight directions, indexed by [`Dir`].
pub const DIRS: [i8; 8] = [8, 1, -8, -1, 9, -7, -9, 7];

/// Middlegame piece values, indexed by piece type (the king has none).
pub const MG_VALUE: [Score; 6] = [126, 781, 825, 1276, 2538, 0];

/// Endgame piece values, indexed by piece type (the king has none).
pub const EG_VALUE: [Score; 6] = [208, 854, 915, 1380, 2682, 0];

/// Bound of all scores.
pub const INFINITY: Score = 32_000;

/// Game phase of the full starting material.
pub const PHASE_MAX: Score = 24;

/// Castling rights bits.
pub struct Castling;

impl Castling {
    pub const WQ: u8 = 1;
    pub const WK: u8 = 2;
    pub const BQ: u8 = 4;
    pub const BK: u8 = 8;
    pub const WHITE_ALL: u8 = 3;
    pub const BLACK_ALL: u8 = 12;
    pub const NONE: u8 = 0;
    pub const ALL: u8 = 15;
}

/// A side.
#[derive(Debug, Copy, Clone, PartialEq, Eq, Structural)]
pub enum Player {
    White,
    Black,
}

/// Index of a side: 0 for white, 1 for black.
pub open spec fn player_idx(p: Player) -> int {
    match p {
        Player::White => 0,
        Player::Black => 1,
    }
}

/// The other side.
pub open spec fn opp_of(p: Player) -> Player {
    match p {
        Player::White => Player::Black,
        Player::Black => Player::White,
    }
}

impl Player {
    pub fn opp(&self) -> (r: Self)
        ensures
            r == opp_of(*self),
    {
        match self {
            Player::White => Player::Black,
            Player::Black => Player::White,
        }
    }

    /// Square offset of a pawn step forward.
    pub fn pawn_dir(&self) -> (r: Square)
        ensures
            r == (if *self == Player::White { 8i8 } else { -8i8 }),
    {
        match self {
            Player::White => 8,
            Player::Black => -8,
        }
    }

    /// The rank a pawn reaches after its first single push.
    pub fn rank_3(&self) -> (r: u64)
        ensures
            r == (if *self == Player::White { BitBoard::RANK_3 } else { BitBoard::RANK_6 }),
    {
        match self {
            Player::White => BitBoard::RANK_3,
            Player::Black => BitBoard::RANK_6,
        }
    }

    /// The rank from which a pawn promotes.
    pub fn rank_7(&self) -> (r: u64)
        ensures
            r == (if *self == Player::White { BitBoard::RANK_7 } else { BitBoard::RANK_2 }),
    {
        match self {
            Player::White => BitBoard::RANK_7,
            Player::Black => BitBoard::RANK_2,
        }
    }

    /// The promotion rank.
    pub fn rank_8(&self) -> (r: u64)
        ensures
            r == (if *self == Player::White { BitBoard::RANK_8 } else { BitBoard::RANK_1 }),
    {
        match self {
            Player::White => BitBoard::RANK_8,
            Player::Black => BitBoard::RANK_1,
        }
    }

    /// Destination of the king when castling king side.
    pub fn castle_king_sq(&self) -> (r: Square)
        ensures
            r == (if *self == Player::White { 6i8 } else { 62i8 }),
    {
        match self {
            Player::White => 6,
            Player::Black => 62,
        }
    }

    /// Destination of the king when castling queen side.
    pub fn castle_queen_sq(&self) -> (r: Square)
        ensures
            r == (if *self == Player::White { 2i8 } else { 58i8 }),
    {
        match self {
            Player::White => 2,
            Player::Black => 58,
        }
    }

    /// Player as an index.
    pub fn as_usize(self) -> (r: usize)
        ensures
            r == player_idx(self),
    {
        match self {
            Player::White => 0,
            Player::Black => 1,
        }
    }
}

/// A kind of piece, or `None` for an empty square.
#[derive(Clone, Copy, Debug, PartialEq, Eq, Structural)]
pub enum PieceType {
    Pawn,
    Knight,
    Bishop,
    Rook,
    Queen,
    King,
    NoPiece,
}

/// Index of a piece type: 0 (pawn) to 5 (king), 6 for none.
pub open spec fn pt_idx(t: PieceType) -> int {
    match t {
        PieceType::Pawn => 0,
        PieceType::Knight => 1,
        PieceType::Bishop => 2,
        PieceType::Rook => 3,
        PieceType::Queen => 4,
        PieceType::King => 5,
        PieceType::NoPiece => 6,
    }
}

/// The piece type of an index 0..7.
pub open spec fn pt_of_idx(i: int) -> PieceType {
    if i == 0 {
        PieceType::Pawn
    } else if i == 1 {
        PieceType::Knight
    } else if i == 2 {
        PieceType::Bishop
    } else if i == 3 {
        PieceType::Rook
    } else if i == 4 {
        PieceType::Queen
    } else if i == 5 {
        PieceType::King
    } else {
        PieceType::NoPiece
    }
}

/// Index and piece type correspond one to one.
pub proof fn lemma_pt_idx(t: PieceType)
    ensures
        0 <= pt_idx(t) <= 6,
        pt_of_idx(pt_idx(t)) == t,
        pt_idx(t) == 6 <==> t == PieceType::NoPiece,
{
}

/// Middlegame value of a piece type (0 for none).
pub open spec fn mg_value_of(t: PieceType) -> int {
    if t == PieceType::NoPiece {
        0
    } else {
        MG_VALUE[pt_idx(t)] as int
    }
}

/// Endgame value of a piece type (0 for none).
pub open spec fn eg_value_of(t: PieceType) -> int {
    if t == PieceType::NoPiece {
        0
    } else {
        EG_VALUE[pt_idx(t)] as int
    }
}

impl PieceType {
    /// Piece type as an index.
    pub fn as_usize(self) -> (r: usize)
        ensures
            r == pt_idx(self),
    {
        match self {
            PieceType::Pawn => 0,
            PieceType::Knight => 1,
            PieceType::Bishop => 2,
            PieceType::Rook => 3,
            PieceType::Queen => 4,
            PieceType::King => 5,
            PieceType::NoPiece => 6,
        }
    }

    pub fn is_none(&self) -> (r: bool)
        ensures
            r == (*self == PieceType::NoPiece),
    {
        match self {
            PieceType::NoPiece => true,
            _ => false,
        }
    }

    pub fn mg_value(&self) -> (r: Score)
        ensures
            r == mg_value_of(*self),
            0 <= r <= 2538,
    {
        match self {
            PieceType::NoPiece => 0,
            _ => MG_VALUE[self.as_usize()],
        }
    }

    pub fn eg_value(&self) -> (r: Score)
        ensures
            r == eg_value_of(*self),
            0 <= r <= 2682,
    {
        match self {
            PieceType::NoPiece => 0,
            _ => EG_VALUE[self.as_usize()],
        }
    }
}

/// A piece: its type and side.
#[derive(Clone, Copy, PartialEq, Eq, Debug, Structural)]
pub struct Piece {
    pub t: PieceType,
    pub c: Player,
}

/// Index of a piece among the twelve colored pieces.
pub open spec fn piece_idx(p: Piece) -> int {
    pt_idx(p.t) + player_idx(p.c) * 6
}

impl Piece {
    /// The empty square marker.
    pub fn none() -> (r: Piece)
        ensures
            r == (Piece { t: PieceType::NoPiece, c: Player::White }),
    {
        Piece { t: PieceType::NoPiece, c: Player::White }
    }

    pub fn new(piece_type: PieceType, side: Player) -> (r: Self)
        ensures
            r.t == piece_type,
            r.c == side,
    {
        Piece { t: piece_type, c: side }
    }

    pub fn is_none(&self) -> (r: bool)
        ensures
            r == (self.t == PieceType::NoPiece),
    {
        self.t.is_none()
    }

    /// Index among the twelve colored pieces.
    pub fn as_usize(&self) -> (r: usize)
        requires
            self.t != PieceType::NoPiece,
        ensures
            r == piece_idx(*self),
            r < 12,
    {
        self.t.as_usize() + self.c.as_usize() * 6
    }
}

/// Direction indices into [`DIRS`].
///
/// Rook directions are 0-3, bishop directions are 4-7.
pub struct Dir;

impl Dir {
    pub const NORTH: usize = 0;
    pub const EAST: usize = 1;
    pub const SOUTH: usize = 2;
    pub const WEST: usize = 3;
    pub const NORTH_EAST: usize = 4;
    pub const SOUTH_EAST: usize = 5;
    pub const SOUTH_WEST: usize = 6;
    pub const NORTH_WEST: usize = 7;
    pub const N_DIRS: usize = 8;
}

/// Integer division rounding toward zero, as Rust's `/` does.
pub open spec fn trunc_div(a: int, b: int) -> int {
    if a >= 0 {
        a / b
    } else {
        -((-a) / b)
    }
}

/// Remainder of the division rounding toward zero, as Rust's `%` does.
pub open spec fn trunc_rem(a: int, b: int) -> int {
    a - b * trunc_div(a, b)
}

/// A middlegame / endgame score pair.
#[derive(Clone, Copy, Debug, Default, PartialEq, Eq, Structural)]
pub struct Eval(pub i32, pub i32);

/// Bound on evaluation components that keeps their sums and small multiples in range.
pub open spec fn eval_small(e: Eval) -> bool {
    -1_000_000 <= e.0 <= 1_000_000 && -1_000_000 <= e.1 <= 1_000_000
}

impl Eval {
    pub fn new(mg: i32, eg: i32) -> (r: Self)
        ensures
            r == Eval(mg, eg),
    {
        Eval(mg, eg)
    }

    /// Both components equal.
    pub fn both(score: i32) -> (r: Self)
        ensures
            r == Eval(score, score),
    {
        Eval(score, score)
    }

    /// Blend the two scores by game phase: `phase` 24 is pure middlegame, 0 pure endgame.
    pub fn phased(&self, phase: i32) -> (r: i32)
        requires
            0 <= phase <= 24,
            eval_small(*self),
        ensures
            r == trunc_div(self.0 * phase + self.1 * (24 - phase), 24),
    {
        proof {
            assert(-24_000_000 <= self.0 * phase <= 24_000_000) by (nonlinear_arith)
                requires
                    -1_000_000 <= self.0 <= 1_000_000,
                    0 <= phase <= 24,
            ;
            assert(-24_000_000 <= self.1 * (24 - phase) <= 24_000_000) by (nonlinear_arith)
                requires
                    -1_000_000 <= self.1 <= 1_000_000,
                    0 <= phase <= 24,
            ;
        }
        (self.0 * phase + self.1 * (24 - phase)) / 24
    }

    pub fn mg(&self) -> (r: i32)
        ensures
            r == self.0,
    {
        self.0
    }

    pub fn eg(&self) -> (r: i32)
        ensures
            r == self.1,
    {
        self.1
    }

    /// Componentwise sum.
    pub fn add(self, rhs: Self) -> (r: Self)
        requires
            eval_small(self),
            eval_small(rhs),
        ensures
            r == Eval((self.0 + rhs.0) as i32, (self.1 + rhs.1) as i32),
    {
        Eval(self.0 + rhs.0, self.1 + rhs.1)
    }

    /// Componentwise difference.
    pub fn sub(self, rhs: Self) -> (r: Self)
        requires
            eval_small(self),
            eval_small(rhs),
        ensures
            r == Eval((self.0 - rhs.0) as i32, (self.1 - rhs.1) as i32),
    {
        Eval(self.0 - rhs.0, self.1 - rhs.1)
    }

    /// Componentwise scaling.
    pub fn mul(self, rhs: i32) -> (r: Self)
        requires
            eval_small(self),
            -1000 <= rhs <= 1000,
        ensures
            r == Eval((self.0 * rhs) as i32, (self.1 * rhs) as i32),
    {
        proof {
            assert(-1_000_000_000 <= self.0 * rhs <= 1_000_000_000) by (nonlinear_arith)
                requires
                    -1_000_000 <= self.0 <= 1_000_000,
                    -1000 <= rhs <= 1000,
            ;
            assert(-1_000_000_000 <= self.1 * rhs <= 1_000_000_000) by (nonlinear_arith)
                requires
                    -1_000_000 <= self.1 <= 1_000_000,
                    -1000 <= rhs <= 1000,
            ;
        }
        Eval(self.0 * rhs, self.1 * rhs)
    }
}

/// Kinds of move generation.
#[derive(PartialEq, Eq, Structural, Clone, Copy, Debug)]
pub enum GenType {
    /// Captures and queen promotions
    Captures,
    /// Non-captures and minor promotions
    Quiets,
    /// Non-captures giving check (castling and promotion not included)
    QuietChecks,
    /// All possible check evasions
    Evasions,
    /// Captures that evade check
    EvadingCaptures,
    /// Captures, non-captures and promotions (everything except evasions)
    /// Only use if not in check
    NonEvasions,
    /// Every legal move
    All,
}

/// The four central squares.
pub const SMALL_CENTER: u64 = 0x0000001818000000;

/// The dark squares (a1 is dark).
pub const DARK_SQUARES: u64 = 0b1010101001010101101010100101010110101010010101011010101001010101;

/// The light squares.
pub const LIGHT_SQUARES: u64 = 0b0101010110101010010101011010101001010101101010100101010110101010;

/// The position every game starts from.
pub const FEN_START_STRING: &'static str = "rnbqkbnr/pppppppp/8/8/8/8/PPPPPPPP/RNBQKBNR w KQkq - 0 1";

} // verus!
