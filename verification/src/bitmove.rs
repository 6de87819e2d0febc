//! Moves encoded into a `u16`.
use vstd::prelude::*;
use crate::defs::{PieceType, Square};
use crate::text::string_from_chars;

verus! {

/// Source square of an encoded move.
pub open spec fn move_src(m: u16) -> int {
    m as int % 64
}

/// Destination square of an encoded move.
pub open spec fn move_dest(m: u16) -> int {
    (m as int / 64) % 64
}

/// Flag nibble of an encoded move.
pub open spec fn move_flag(m: u16) -> int {
    m as int / 4096
}

/// The encoding of a move from `src` to `dest` with flag `flag`.
pub open spec fn encode(src: int, dest: int, flag: int) -> int {
    src + 64 * dest + 4096 * flag
}

/// A flag denotes a capture when its bit 2 is set.
pub open spec fn flag_is_cap(f: int) -> bool {
    (f / 4) % 2 == 1
}

/// A flag denotes a promotion when its bit 3 is set.
pub open spec fn flag_is_prom(f: int) -> bool {
    (f / 8) % 2 == 1
}

/// The piece a promotion flag promotes to (ignoring the capture bit and bits above the nibble).
pub open spec fn prom_type_of(f: int) -> PieceType {
    let g = if flag_is_cap(f) { f % 16 - 4 } else { f % 16 };
    if g == MoveFlag::PROMOTE_KNIGHT {
        PieceType::Knight
    } else if g == MoveFlag::PROMOTE_BISHOP {
        PieceType::Bishop
    } else if g == MoveFlag::PROMOTE_ROOK {
        PieceType::Rook
    } else if g == MoveFlag::PROMOTE_QUEEN {
        PieceType::Queen
    } else {
        PieceType::NoPiece
    }
}

proof fn bv_encode(s: u16, d: u16, f: u16)
    by (bit_vector)
    requires
        s < 64,
        d < 64,
        f < 16,
    ensures
        s | (d << 6u16) | (f << 12u16) == s + 64 * d + 4096 * f,
        s | (d << 6u16) == s + 64 * d,
{
}

proof fn bv_decode(m: u16)
    by (bit_vector)
    ensures
        m & 0b111111u16 == m % 64,
        (m >> 6u16) & 0b111111u16 == (m / 64) % 64,
        m >> 12u16 == m / 4096,
{
}

proof fn bv_flag_bits(f: u8)
    by (bit_vector)
    ensures
        (f & 0b0100u8 != 0) == ((f / 4) % 2 == 1),
        (f & 0b1000u8 != 0) == ((f / 8) % 2 == 1),
        f & 0b1011u8 == (if (f / 4) % 2 == 1 { ((f % 16) - 4) as u8 } else { f % 16 }),
{
}

/// Encoded moves decode to the squares and flag they were built from.
pub proof fn lemma_encode_decode(src: int, dest: int, flag: int)
    requires
        0 <= src < 64,
        0 <= dest < 64,
        0 <= flag < 16,
    ensures
        0 <= encode(src, dest, flag) < 65536,
        move_src(encode(src, dest, flag) as u16) == src,
        move_dest(encode(src, dest, flag) as u16) == dest,
        move_flag(encode(src, dest, flag) as u16) == flag,
{
    let m = encode(src, dest, flag);
    assert(m as u16 as int == m);
    assert((src + 64 * dest + 4096 * flag) % 64 == src) by (nonlinear_arith)
        requires
            0 <= src < 64,
            0 <= dest < 64,
            0 <= flag < 16,
    ;
    assert((src + 64 * dest + 4096 * flag) / 64 == dest + 64 * flag) by (nonlinear_arith)
        requires
            0 <= src < 64,
            0 <= dest < 64,
            0 <= flag < 16,
    ;
    assert((dest + 64 * flag) % 64 == dest) by (nonlinear_arith)
        requires
            0 <= dest < 64,
            0 <= flag < 16,
    ;
    assert((src + 64 * dest + 4096 * flag) / 4096 == flag) by (nonlinear_arith)
        requires
            0 <= src < 64,
            0 <= dest < 64,
            0 <= flag < 16,
    ;
}

/// Every move is the encoding of its own squares and flag.
pub proof fn lemma_decode_encode(m: u16)
    ensures
        0 <= move_src(m) < 64,
        0 <= move_dest(m) < 64,
        0 <= move_flag(m) < 16,
        encode(move_src(m), move_dest(m), move_flag(m)) == m,
{
    let x = m as int;
    assert(x == x % 64 + 64 * ((x / 64) % 64) + 4096 * (x / 4096)) by (nonlinear_arith)
        requires
            0 <= x < 65536,
    ;
}

/// Move encoding: bits 0-5 are the source square, bits 6-11 the destination square,
/// bits 12-15 the flags.
pub struct BitMove;

impl BitMove {
    pub fn from_squares(src: Square, dest: Square) -> (r: u16)
        requires
            0 <= src < 64,
            0 <= dest < 64,
        ensures
            r == encode(src as int, dest as int, 0),
    {
        proof {
            bv_encode(src as u16, dest as u16, 0);
        }
        (src as u16) | ((dest as u16) << 6u16)
    }

    pub fn from_flag(src: Square, dest: Square, flag: u8) -> (r: u16)
        requires
            0 <= src < 64,
            0 <= dest < 64,
            flag < 16,
        ensures
            r == encode(src as int, dest as int, flag as int),
    {
        proof {
            bv_encode(src as u16, dest as u16, flag as u16);
        }
        BitMove::from_squares(src, dest) | ((flag as u16) << 12u16)
    }

    pub fn src(bitmove: u16) -> (r: Square)
        ensures
            r == move_src(bitmove),
            0 <= r < 64,
    {
        proof {
            bv_decode(bitmove);
        }
        (bitmove & 0b111111) as Square
    }

    pub fn dest(bitmove: u16) -> (r: Square)
        ensures
            r == move_dest(bitmove),
            0 <= r < 64,
    {
        proof {
            bv_decode(bitmove);
        }
        ((bitmove >> 6u16) & 0b111111) as Square
    }

    /// Source and destination squares.
    pub fn to_squares(bitmove: u16) -> (r: (Square, Square))
        ensures
            r.0 == move_src(bitmove),
            r.1 == move_dest(bitmove),
    {
        (BitMove::src(bitmove), BitMove::dest(bitmove))
    }

    /// Source and destination squares.
    pub fn from_to(bitmove: u16) -> (r: (Square, Square))
        ensures
            r.0 == move_src(bitmove),
            r.1 == move_dest(bitmove),
    {
        BitMove::to_squares(bitmove)
    }

    pub fn flag(bitmove: u16) -> (r: u8)
        ensures
            r == move_flag(bitmove),
            r < 16,
    {
        proof {
            bv_decode(bitmove);
        }
        (bitmove >> 12u16) as u8
    }

    pub fn is_cap(bitmove: u16) -> (r: bool)
        ensures
            r == flag_is_cap(move_flag(bitmove)),
    {
        let f = BitMove::flag(bitmove);
        proof {
            bv_flag_bits(f);
        }
        f & 0b0100 != 0
    }

    pub fn is_prom(bitmove: u16) -> (r: bool)
        ensures
            r == flag_is_prom(move_flag(bitmove)),
    {
        let f = BitMove::flag(bitmove);
        proof {
            bv_flag_bits(f);
        }
        f & 0b1000 != 0
    }

    /// Captures and promotions.
    pub fn is_tactical(bitmove: u16) -> (r: bool)
        ensures
            r == (flag_is_cap(move_flag(bitmove)) || flag_is_prom(move_flag(bitmove))),
    {
        BitMove::is_cap(bitmove) || BitMove::is_prom(bitmove)
    }

    pub fn is_ep(bitmove: u16) -> (r: bool)
        ensures
            r == (move_flag(bitmove) == MoveFlag::EN_PASSANT),
    {
        BitMove::flag(bitmove) == MoveFlag::EN_PASSANT
    }

    pub fn is_castle(bitmove: u16) -> (r: bool)
        ensures
            r == (move_flag(bitmove) == MoveFlag::CASTLE_KING || move_flag(bitmove)
                == MoveFlag::CASTLE_QUEEN),
    {
        BitMove::flag(bitmove) == MoveFlag::CASTLE_KING || BitMove::flag(bitmove)
            == MoveFlag::CASTLE_QUEEN
    }

    /// Neither a promotion, an en passant capture nor a castling move.
    pub fn is_normal(bitmove: u16) -> (r: bool)
        ensures
            r == (!flag_is_prom(move_flag(bitmove)) && move_flag(bitmove) != MoveFlag::EN_PASSANT
                && move_flag(bitmove) != MoveFlag::CASTLE_KING && move_flag(bitmove)
                != MoveFlag::CASTLE_QUEEN),
    {
        !BitMove::is_prom(bitmove) && !BitMove::is_ep(bitmove) && !BitMove::is_castle(bitmove)
    }

    /// The piece a promotion flag promotes to, `NoPiece` for other flags.
    pub fn prom_piece_type(flag: u8) -> (r: PieceType)
        ensures
            r == prom_type_of(flag as int),
    {
        proof {
            bv_flag_bits(flag);
        }
        // Remove capture bit
        let g = flag & 0b1011;
        if g == MoveFlag::PROMOTE_KNIGHT {
            PieceType::Knight
        } else if g == MoveFlag::PROMOTE_BISHOP {
            PieceType::Bishop
        } else if g == MoveFlag::PROMOTE_ROOK {
            PieceType::Rook
        } else if g == MoveFlag::PROMOTE_QUEEN {
            PieceType::Queen
        } else {
            PieceType::NoPiece
        }
    }

    /// Same as [`BitMove::prom_piece_type`].
    pub fn prom_type(flag: u8) -> (r: PieceType)
        ensures
            r == prom_type_of(flag as int),
    {
        BitMove::prom_piece_type(flag)
    }

    /// Coordinate notation of the move's squares, such as `e2e4`.
    pub fn pretty_move(bitmove: u16) -> (s: String)
        ensures
            s@ == pretty_move_chars(bitmove),
    {
        let src = BitMove::src(bitmove);
        let dest = BitMove::dest(bitmove);
        let mut out: Vec<char> = Vec::new();
        out.push(file_char(src % 8));
        out.push(rank_char(src / 8));
        out.push(file_char(dest % 8));
        out.push(rank_char(dest / 8));
        string_from_chars(&out)
    }
}

/// Letter of a file 0..8.
pub open spec fn file_letter(f: int) -> char {
    ((f + 97) as u8) as char
}

/// Digit of a rank 0..8 (rank 0 is `1`).
pub open spec fn rank_digit(r: int) -> char {
    ((r + 49) as u8) as char
}

/// Coordinate notation of a move.
pub open spec fn pretty_move_chars(m: u16) -> Seq<char> {
    seq![
        file_letter(move_src(m) % 8),
        rank_digit(move_src(m) / 8),
        file_letter(move_dest(m) % 8),
        rank_digit(move_dest(m) / 8),
    ]
}

fn file_char(file: Square) -> (c: char)
    requires
        0 <= file < 8,
    ensures
        c == file_letter(file as int),
{
    ((file as u8) + 97) as char
}

fn rank_char(rank: Square) -> (c: char)
    requires
        0 <= rank < 8,
    ensures
        c == rank_digit(rank as int),
{
    ((rank as u8) + 49) as char
}

/// Bits 0-1 are special flags, bit 2 marks a capture, bit 3 a promotion.
pub struct MoveFlag;

impl MoveFlag {
    pub const QUIET: u8 = 0;
    pub const DOUBLE_PAWN_PUSH: u8 = 1;
    pub const CASTLE_KING: u8 = 2;
    pub const CASTLE_QUEEN: u8 = 3;
    pub const CAPTURE: u8 = 4;
    pub const EN_PASSANT: u8 = 5;
    pub const PROMOTE_KNIGHT: u8 = 8;
    pub const PROMOTE_BISHOP: u8 = 9;
    pub const PROMOTE_ROOK: u8 = 10;
    pub const PROMOTE_QUEEN: u8 = 11;
    pub const PROMOTE_KNIGHT_CAPTURE: u8 = 12;
    pub const PROMOTE_BISHOP_CAPTURE: u8 = 13;
    pub const PROMOTE_ROOK_CAPTURE: u8 = 14;
    pub const PROMOTE_QUEEN_CAPTURE: u8 = 15;
}

} // verus!
