//! Square coordinates, square names and bitboard fills.
use vstd::prelude::*;
use crate::bits::{bit, squares, group_bits};
use crate::bitboard::{BitBoard, file_of, rank_of, on_board};
use crate::defs::{Player, Square};
use vstd::string::StringSliceAdditionalSpecFns;
use crate::text::string_from_chars;
use crate::bitmove::{file_letter, rank_digit};

verus! {

broadcast use group_bits;

/// Returns `(file, rank)`
pub fn coord_from_square(sq: Square) -> (r: (Square, Square))
    requires
        0 <= sq < 64,
    ensures
        r.0 == file_of(sq as int),
        r.1 == rank_of(sq as int),
{
    (sq % 8, sq / 8)
}

pub fn is_in_board(square: Square) -> (r: bool)
    ensures
        r == on_board(square as int),
{
    square < 64 && square >= 0
}

/// The smaller of two squares.
pub fn b_min(a: Square, b: Square) -> (r: Square)
    ensures
        r == (if a > b { b } else { a }),
{
    if a > b {
        b
    } else {
        a
    }
}

/// The larger of two squares.
pub fn b_max(a: Square, b: Square) -> (r: Square)
    ensures
        r == (if a > b { a } else { b }),
{
    if a > b {
        a
    } else {
        b
    }
}

/// The files next to `file`.
pub fn adjacent_files(file: Square) -> (r: u64)
    requires
        0 <= file < 8,
    ensures
        forall|t: int| #[trigger] bit(r, t) == (on_board(t) && (file_of(t) == file - 1 || file_of(t) == file + 1)),
{
    if file == 0 {
        BitBoard::file_bb(file + 1)
    } else if file == 7 {
        BitBoard::file_bb(file - 1)
    } else {
        BitBoard::file_bb(file - 1) | BitBoard::file_bb(file + 1)
    }
}

/// The square in the same file, mirrored across the middle of the board.
pub fn mirror(sq: Square) -> (r: Square)
    requires
        0 <= sq < 64,
    ensures
        file_of(r as int) == file_of(sq as int),
        rank_of(r as int) == 7 - rank_of(sq as int),
        0 <= r < 64,
{
    assert((sq ^ 56) == 8 * (7 - sq / 8) + sq % 8) by (bit_vector)
        requires
            0 <= sq < 64,
    ;
    sq ^ 56
}

/// The square named by a file letter and rank digit, such as `e3`.
pub fn square_from_string(s: &str) -> (r: Square)
    requires
        s.spec_bytes().len() == 2,
        97 <= s.spec_bytes()[0],
        49 <= s.spec_bytes()[1] <= 64,
        (s.spec_bytes()[1] - 49) * 8 + (s.spec_bytes()[0] - 97) <= 127,
    ensures
        r == (s.spec_bytes()[1] - 49) * 8 + (s.spec_bytes()[0] - 97),
{
    let bytes = s.as_bytes();
    let file = bytes[0] - 97;
    let rank = bytes[1] - 49;
    (rank as Square) * 8 + (file as Square)
}

/// The name of a square, such as `e3`; empty for squares off the board.
pub fn square_to_string(sq: Square) -> (s: String)
    ensures
        on_board(sq as int) ==> s@ == seq![file_letter(file_of(sq as int)), rank_digit(rank_of(sq as int))],
        !on_board(sq as int) ==> s@ == Seq::<char>::empty(),
{
    let mut out: Vec<char> = Vec::new();
    if is_in_board(sq) {
        let (file, rank) = coord_from_square(sq);
        out.push(((file as u8) + 97) as char);
        out.push(((rank as u8) + 49) as char);
    }
    string_from_chars(&out)
}

/// Every square on the ranks in front of `sq`, seen from `side`.
pub fn ranks_in_front_of(side: Player, sq: Square) -> (r: u64)
    requires
        0 <= sq < 64,
    ensures
        forall|t: int| #[trigger] bit(r, t) == (on_board(t) && if side == Player::White {
            rank_of(t) > rank_of(sq as int)
        } else {
            rank_of(t) < rank_of(sq as int)
        }),
{
    let bb = BitBoard::rank_bb(sq);
    let r = front_span(side, bb);
    proof {
        assert forall|t: int| #[trigger] bit(r, t) == (on_board(t) && if side == Player::White {
            rank_of(t) > rank_of(sq as int)
        } else {
            rank_of(t) < rank_of(sq as int)
        }) by {
            if side == Player::White {
                if on_board(t) && rank_of(t) > rank_of(sq as int) {
                    assert(bit(bb, t - 8 * (rank_of(t) - rank_of(sq as int))));
                }
            } else {
                if on_board(t) && rank_of(t) < rank_of(sq as int) {
                    assert(bit(bb, t + 8 * (rank_of(sq as int) - rank_of(t))));
                }
            }
        }
    }
    r
}

/// A square of `bb` lies somewhere below `t` on its file.
pub open spec fn below_on_file(bb: u64, t: int) -> bool {
    bit(bb, t - 8) || bit(bb, t - 16) || bit(bb, t - 24) || bit(bb, t - 32) || bit(bb, t - 40)
        || bit(bb, t - 48) || bit(bb, t - 56)
}

/// A square of `bb` lies somewhere above `t` on its file.
pub open spec fn above_on_file(bb: u64, t: int) -> bool {
    bit(bb, t + 8) || bit(bb, t + 16) || bit(bb, t + 24) || bit(bb, t + 32) || bit(bb, t + 40)
        || bit(bb, t + 48) || bit(bb, t + 56)
}

/// The squares in front of the squares of `bb`, seen from `side`.
pub fn front_span(side: Player, bb: u64) -> (r: u64)
    ensures
        forall|t: int| #[trigger] bit(r, t) == (on_board(t) && if side == Player::White {
            below_on_file(bb, t)
        } else {
            above_on_file(bb, t)
        }),
{
    match side {
        Player::White => north_one(north_fill(bb)),
        Player::Black => south_one(south_fill(bb)),
    }
}

/// `bb` filled toward the opponent of `side`.
pub fn fill_up(side: Player, bb: u64) -> (r: u64)
    ensures
        forall|t: int| #[trigger] bit(r, t) == (on_board(t) && if side == Player::White {
            bit(bb, t) || below_on_file(bb, t)
        } else {
            bit(bb, t) || above_on_file(bb, t)
        }),
{
    match side {
        Player::White => north_fill(bb),
        Player::Black => south_fill(bb),
    }
}

/// `bb` filled toward `side`'s own back rank.
pub fn fill_down(side: Player, bb: u64) -> (r: u64)
    ensures
        forall|t: int| #[trigger] bit(r, t) == (on_board(t) && if side == Player::White {
            bit(bb, t) || above_on_file(bb, t)
        } else {
            bit(bb, t) || below_on_file(bb, t)
        }),
{
    match side {
        Player::White => south_fill(bb),
        Player::Black => north_fill(bb),
    }
}

/// Every square of `bb` together with all squares above it on its file.
pub fn north_fill(bb: u64) -> (r: u64)
    ensures
        forall|t: int| #[trigger] bit(r, t) == (on_board(t) && (bit(bb, t) || below_on_file(bb, t))),
{
    let a = bb | (bb << 8u64);
    let b = a | (a << 16u64);
    let c = b | (b << 32u64);
    proof {
        assert forall|t: int| #[trigger] bit(a, t) == (on_board(t) && (bit(bb, t) || bit(bb, t - 8))) by {}
        assert forall|t: int| #[trigger] bit(b, t) == (on_board(t) && (bit(a, t) || bit(a, t - 16))) by {
            crate::bits::lemma_bit_or(a, a << 16u64, t);
            crate::bits::lemma_bit_shl(a, 16u64, t);
        }
        assert forall|t: int| #[trigger] bit(c, t) == (on_board(t) && (bit(b, t) || bit(b, t - 32))) by {
            crate::bits::lemma_bit_or(b, b << 32u64, t);
            crate::bits::lemma_bit_shl(b, 32u64, t);
        }
        assert forall|t: int| #[trigger] bit(c, t) == (on_board(t) && (bit(bb, t) || below_on_file(bb, t))) by {
            assert(bit(b, t) == (on_board(t) && (bit(a, t) || bit(a, t - 16))));
            assert(bit(b, t - 32) == (on_board(t - 32) && (bit(a, t - 32) || bit(a, t - 48))));
            assert(bit(a, t) == (on_board(t) && (bit(bb, t) || bit(bb, t - 8))));
            assert(bit(a, t - 16) == (on_board(t - 16) && (bit(bb, t - 16) || bit(bb, t - 24))));
            assert(bit(a, t - 32) == (on_board(t - 32) && (bit(bb, t - 32) || bit(bb, t - 40))));
            assert(bit(a, t - 48) == (on_board(t - 48) && (bit(bb, t - 48) || bit(bb, t - 56))));
        }
    }
    c
}

/// Every square of `bb` together with all squares below it on its file.
pub fn south_fill(bb: u64) -> (r: u64)
    ensures
        forall|t: int| #[trigger] bit(r, t) == (on_board(t) && (bit(bb, t) || above_on_file(bb, t))),
{
    let a = bb | (bb >> 8u64);
    let b = a | (a >> 16u64);
    let c = b | (b >> 32u64);
    proof {
        assert forall|t: int| #[trigger] bit(a, t) == (on_board(t) && (bit(bb, t) || bit(bb, t + 8))) by {}
        assert forall|t: int| #[trigger] bit(b, t) == (on_board(t) && (bit(a, t) || bit(a, t + 16))) by {
            crate::bits::lemma_bit_or(a, a >> 16u64, t);
            crate::bits::lemma_bit_shr(a, 16u64, t);
        }
        assert forall|t: int| #[trigger] bit(c, t) == (on_board(t) && (bit(b, t) || bit(b, t + 32))) by {
            crate::bits::lemma_bit_or(b, b >> 32u64, t);
            crate::bits::lemma_bit_shr(b, 32u64, t);
        }
        assert forall|t: int| #[trigger] bit(c, t) == (on_board(t) && (bit(bb, t) || above_on_file(bb, t))) by {
            assert(bit(b, t) == (on_board(t) && (bit(a, t) || bit(a, t + 16))));
            assert(bit(b, t + 32) == (on_board(t + 32) && (bit(a, t + 32) || bit(a, t + 48))));
            assert(bit(a, t) == (on_board(t) && (bit(bb, t) || bit(bb, t + 8))));
            assert(bit(a, t + 16) == (on_board(t + 16) && (bit(bb, t + 16) || bit(bb, t + 24))));
            assert(bit(a, t + 32) == (on_board(t + 32) && (bit(bb, t + 32) || bit(bb, t + 40))));
            assert(bit(a, t + 48) == (on_board(t + 48) && (bit(bb, t + 48) || bit(bb, t + 56))));
        }
    }
    c
}

/// Every square on a file holding a square of `bb`.
pub fn file_fill(bb: u64) -> (r: u64)
    ensures
        forall|t: int| #[trigger] bit(r, t) == (on_board(t) && (bit(bb, t) || below_on_file(bb, t) || above_on_file(bb, t))),
{
    north_fill(bb) | south_fill(bb)
}

/// `bb` shifted one rank up.
pub fn north_one(bb: u64) -> (r: u64)
    ensures
        forall|t: int| #[trigger] bit(r, t) == (on_board(t) && bit(bb, t - 8)),
{
    bb << 8u64
}

/// `bb` shifted one rank down.
pub fn south_one(bb: u64) -> (r: u64)
    ensures
        forall|t: int| #[trigger] bit(r, t) == (on_board(t) && bit(bb, t + 8)),
{
    bb >> 8u64
}

/// `bb` shifted one file toward h, dropping the h-file.
pub fn east_one(bb: u64) -> (r: u64)
    ensures
        forall|t: int| #[trigger] bit(r, t) == (on_board(t) && file_of(t) != 0 && bit(bb, t - 1)),
{
    let r = (bb & !BitBoard::FILE_H) << 1u64;
    proof {
        assert forall|t: int| #[trigger] bit(r, t) == (on_board(t) && file_of(t) != 0 && bit(bb, t - 1)) by {
            crate::bitboard::lemma_file_rank_consts(t - 1);
        }
    }
    r
}

/// `bb` shifted one file toward a, dropping the a-file.
pub fn west_one(bb: u64) -> (r: u64)
    ensures
        forall|t: int| #[trigger] bit(r, t) == (on_board(t) && file_of(t) != 7 && bit(bb, t + 1)),
{
    let r = (bb & !BitBoard::FILE_A) >> 1u64;
    proof {
        assert forall|t: int| #[trigger] bit(r, t) == (on_board(t) && file_of(t) != 7 && bit(bb, t + 1)) by {
            crate::bitboard::lemma_file_rank_consts(t + 1);
        }
    }
    r
}


/// The position repeats one of the last `rule_fifty` positions of the history.
pub open spec fn repeats(b: &crate::board::Board) -> bool {
    b.pos.rule_fifty >= 2 && exists|i: int| 1 <= i <= b.pos.rule_fifty && i <= b.history@.len()
        && #[trigger] b.history@[b.history@.len() - i].key == b.pos.key
}

/// Neither side can mate: bare kings, or no pawns, rooks or queens with a bare king on
/// one side and at most one minor piece, or only knights or only bishops not two of a
/// kind, on the board.
pub open spec fn material_draw(b: &crate::board::Board) -> bool {
    let only_w = squares(b.side_bb[0]).len() == 1;
    let only_b = squares(b.side_bb[1]).len() == 1;
    let nk = squares(b.piece_bb[1]).len();
    let nb = squares(b.piece_bb[2]).len();
    (only_w && only_b) || (b.piece_bb[0] == 0 && b.piece_bb[3] == 0 && b.piece_bb[4] == 0 && (only_w || only_b)
        && ((nk < 2 && nb == 0) || (nk == 0 && nb < 2)))
}

/// Draw by the fifty move rule, repetition or insufficient material.
pub fn is_draw(board: &crate::board::Board) -> (r: bool)
    ensures
        r == (board.pos.rule_fifty >= 100 || repeats(board) || material_draw(board)),
{
    board.pos.rule_fifty >= 100 || is_repetition(board) || is_material_draw(board)
}

/// Does the position repeat one since the last irreversible move?
pub fn is_repetition(board: &crate::board::Board) -> (r: bool)
    ensures
        r == repeats(board),
{
    if board.pos.rule_fifty < 2 || board.history.empty() {
        return false;
    }
    let n = board.history.len();
    let key = board.key();
    let mut i: usize = 1;
    while i <= board.pos.rule_fifty as usize && i <= n
        invariant
            1 <= i,
            n == board.history@.len(),
            key == board.pos.key,
            board.pos.rule_fifty >= 2,
            forall|j: int| 1 <= j < i ==> #[trigger] board.history@[n - j].key != key,
        decreases n + 1 - i,
    {
        if board.history.get_key(n - i) == key {
            assert(board.history@[n - i as int].key == board.pos.key);
            return true;
        }
        i = i + 1;
    }
    proof {
        assert forall|j: int| 1 <= j <= board.pos.rule_fifty && j <= n implies #[trigger] board.history@[n - j].key != key by {
            assert(j < i);
        }
    }
    false
}

/// Is there too little material left for either side to mate?
pub fn is_material_draw(board: &crate::board::Board) -> (r: bool)
    ensures
        r == material_draw(board),
{
    let only_white_king = BitBoard::only_one(board.player_bb(Player::White));
    let only_black_king = BitBoard::only_one(board.player_bb(Player::Black));
    if only_black_king && only_white_king {
        return true;
    }
    if board.piece_bb(crate::defs::PieceType::Pawn) != 0 {
        return false;
    }
    if board.piece_bb(crate::defs::PieceType::Rook) != 0 {
        return false;
    }
    if board.piece_bb(crate::defs::PieceType::Queen) != 0 {
        return false;
    }
    let num_knights = BitBoard::count(board.piece_bb(crate::defs::PieceType::Knight));
    let num_bishops = BitBoard::count(board.piece_bb(crate::defs::PieceType::Bishop));
    (only_white_king || only_black_king) && ((num_knights < 2 && num_bishops == 0) || (num_knights == 0 && num_bishops < 2))
}

} // verus!
