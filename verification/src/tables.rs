//! Square tables used by evaluation: distances, passed pawn spans, king shields and zones.
use vstd::prelude::*;
use crate::bits::{bit, group_bits};
use crate::bitboard::{BitBoard, file_of, rank_of, on_board};
use crate::attack::{abs, king_attacks, king_hits};
use crate::defs::{Player, Score, Square};
use crate::utils::{adjacent_files, ranks_in_front_of};

verus! {

broadcast use group_bits;

/// Manhattan distance: the minimal number of orthogonal king moves from `a` to `b`
/// on the otherwise empty board.
pub fn distance(a: Square, b: Square) -> (r: Score)
    requires
        0 <= a < 64,
        0 <= b < 64,
    ensures
        r == abs(file_of(b as int) - file_of(a as int)) + abs(rank_of(b as int) - rank_of(a as int)),
        0 <= r <= 14,
{
    let df = if b % 8 >= a % 8 { b % 8 - a % 8 } else { a % 8 - b % 8 };
    let dr = if b / 8 >= a / 8 { b / 8 - a / 8 } else { a / 8 - b / 8 };
    (df + dr) as Score
}

/// Center Manhattan distance:
///
/// The minimal number of orthogonal king moves, on the otherwise empty board,
/// needed to reach one of the four center squares
pub const CENTER_DISTANCE: [Score; 64] = [
    6, 5, 4, 3, 3, 4, 5, 6,
    5, 4, 3, 2, 2, 3, 4, 5,
    4, 3, 2, 1, 1, 2, 3, 4,
    3, 2, 1, 0, 0, 1, 2, 3,
    3, 2, 1, 0, 0, 1, 2, 3,
    4, 3, 2, 1, 1, 2, 3, 4,
    5, 4, 3, 2, 2, 3, 4, 5,
    6, 5, 4, 3, 3, 4, 5, 6,
];

/// The squares on the file of `sq` and its neighbours, in front of `sq` as `side` sees it:
/// where enemy pawns stop a pawn on `sq` from passing.
pub fn passed(side: Player, sq: Square) -> (r: u64)
    requires
        0 <= sq < 64,
    ensures
        forall|t: int| #[trigger] bit(r, t) == (on_board(t) && abs(file_of(t) - file_of(sq as int)) <= 1
            && if side == Player::White {
                rank_of(t) > rank_of(sq as int)
            } else {
                rank_of(t) < rank_of(sq as int)
            }),
{
    (adjacent_files(sq % 8) | BitBoard::file_bb(sq)) & ranks_in_front_of(side, sq)
}

/// The files whose pawns shield a king on file `f`: its own and its neighbours, and the
/// c- or f-file for a king on the a- or h-file.
pub open spec fn shield_file(f: int, g: int) -> bool {
    abs(g - f) <= 1 || (f == 0 && g == 2) || (f == 7 && g == 5)
}

/// The squares of the pawns that shield a king of `side` on `sq`: on the shield files, one
/// or two ranks in front of it; none for a king on the last rank.
pub fn shielding(side: Player, sq: Square) -> (r: u64)
    requires
        0 <= sq < 64,
    ensures
        forall|t: int| #[trigger] bit(r, t) == (on_board(t) && shield_file(file_of(sq as int), file_of(t))
            && if side == Player::White {
                rank_of(sq as int) < rank_of(t) <= rank_of(sq as int) + 2
            } else {
                rank_of(sq as int) - 2 <= rank_of(t) < rank_of(sq as int)
            }),
{
    let file = sq % 8;
    let mut files = adjacent_files(file) | BitBoard::file_bb(sq);
    if file == 0 {
        files = files | BitBoard::FILE_C;
    } else if file == 7 {
        files = files | BitBoard::FILE_F;
    }
    proof {
        crate::bitboard::lemma_file_rank_consts(0);
        assert forall|t: int| #[trigger] bit(files, t) == (on_board(t) && shield_file(file as int, file_of(t))) by {
            crate::bitboard::lemma_file_rank_consts(t);
        }
    }
    let ranks = match side {
        Player::White => {
            if sq >= 56 {
                0
            } else if sq >= 48 {
                BitBoard::rank_bb(sq + 8)
            } else {
                BitBoard::rank_bb(sq + 8) | BitBoard::rank_bb(sq + 16)
            }
        },
        Player::Black => {
            if sq < 8 {
                0
            } else if sq < 16 {
                BitBoard::rank_bb(sq - 8)
            } else {
                BitBoard::rank_bb(sq - 8) | BitBoard::rank_bb(sq - 16)
            }
        },
    };
    files & ranks
}

/// The squares around a king on `sq`, and its own square.
pub fn king_zone(sq: Square) -> (r: u64)
    requires
        0 <= sq < 64,
    ensures
        forall|t: int| #[trigger] bit(r, t) == (t == sq || king_hits(sq as int, t)),
{
    BitBoard::from_sq(sq) | king_attacks(sq)
}

} // verus!
