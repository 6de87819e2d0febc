//! Bitboard constants and primitive operations.
use vstd::prelude::*;
use vstd::std_specs::bits::u64_trailing_zeros;
use vstd::std_specs::bits::u64_leading_zeros;
use vstd::std_specs::bits::axiom_u64_trailing_zeros;
use vstd::std_specs::bits::axiom_u64_leading_zeros;
use crate::bits::{bit, squares, group_bits, lemma_lowest_bit, lemma_zero_iff_empty, lemma_zero_iff_no_squares, lemma_clear_lowest, lemma_squares_finite};
use crate::defs::Square;
use crate::text::string_from_chars;

verus! {

broadcast use group_bits;

/// File (column, 0 = a) of a square.
pub open spec fn file_of(s: int) -> int {
    s % 8
}

/// Rank (row, 0 = first rank) of a square.
pub open spec fn rank_of(s: int) -> int {
    s / 8
}

/// A square index that lies on the board.
pub open spec fn on_board(s: int) -> bool {
    0 <= s < 64
}

/// Index of the least significant set bit, 64 for the empty bitboard.
pub open spec fn lsb(b: u64) -> int {
    u64_trailing_zeros(b) as int
}

/// Index of the most significant set bit, 64 for the empty bitboard.
pub open spec fn msb(b: u64) -> int {
    if b == 0 {
        64
    } else {
        63 - u64_leading_zeros(b)
    }
}

/// Namespace for bitboard operations.
pub struct BitBoard;

/// Constant values.
/// Ranks and files are in 1-8 notation.
impl BitBoard {
    pub const EMPTY: u64 = 0;
    pub const RANK_1: u64 = 0x00000000000000FF;
    pub const RANK_2: u64 = BitBoard::RANK_1 << 8u64;
    pub const RANK_3: u64 = BitBoard::RANK_1 << 16u64;
    pub const RANK_4: u64 = BitBoard::RANK_1 << 24u64;
    pub const RANK_5: u64 = BitBoard::RANK_1 << 32u64;
    pub const RANK_6: u64 = BitBoard::RANK_1 << 40u64;
    pub const RANK_7: u64 = BitBoard::RANK_1 << 48u64;
    pub const RANK_8: u64 = BitBoard::RANK_1 << 56u64;
    pub const FILE_A: u64 = 0x0101010101010101;
    pub const FILE_B: u64 = BitBoard::FILE_A << 1u64;
    pub const FILE_C: u64 = BitBoard::FILE_A << 2u64;
    pub const FILE_D: u64 = BitBoard::FILE_A << 3u64;
    pub const FILE_E: u64 = BitBoard::FILE_A << 4u64;
    pub const FILE_F: u64 = BitBoard::FILE_A << 5u64;
    pub const FILE_G: u64 = BitBoard::FILE_A << 6u64;
    pub const FILE_H: u64 = BitBoard::FILE_A << 7u64;
}

proof fn bv_file_a(i: u64)
    by (bit_vector)
    requires
        i < 64,
    ensures
        (0x0101010101010101u64 >> i) & 1u64 == 1u64 <==> i % 8 == 0,
{
}

proof fn bv_rank_1(i: u64)
    by (bit_vector)
    requires
        i < 64,
    ensures
        (0xFFu64 >> i) & 1u64 == 1u64 <==> i < 8,
{
}

/// Squares of the a-file.
pub proof fn lemma_file_a(i: int)
    ensures
        bit(BitBoard::FILE_A, i) == (on_board(i) && file_of(i) == 0),
{
    if 0 <= i < 64 {
        bv_file_a(i as u64);
    }
}

/// Squares of the first rank.
pub proof fn lemma_rank_1(i: int)
    ensures
        bit(BitBoard::RANK_1, i) == (on_board(i) && rank_of(i) == 0),
{
    if 0 <= i < 64 {
        bv_rank_1(i as u64);
    }
}

/// The a-file shifted by `f` is the file `f`.
pub proof fn lemma_file_shift(f: u64, i: int)
    requires
        f < 8,
    ensures
        bit(BitBoard::FILE_A << f, i) == (on_board(i) && file_of(i) == f),
{
    lemma_file_a(i - f);
}

/// The first rank shifted by `8 * r` is the rank `r`.
pub proof fn lemma_rank_shift(r: u64, i: int)
    requires
        r < 8,
    ensures
        bit(BitBoard::RANK_1 << ((8 * r) as u64), i) == (on_board(i) && rank_of(i) == r),
{
    lemma_rank_1(i - 8 * r);
}

/// Membership in each named file and rank constant.
pub proof fn lemma_file_rank_consts(i: int)
    ensures
        bit(BitBoard::FILE_A, i) == (on_board(i) && file_of(i) == 0),
        bit(BitBoard::FILE_B, i) == (on_board(i) && file_of(i) == 1),
        bit(BitBoard::FILE_C, i) == (on_board(i) && file_of(i) == 2),
        bit(BitBoard::FILE_D, i) == (on_board(i) && file_of(i) == 3),
        bit(BitBoard::FILE_E, i) == (on_board(i) && file_of(i) == 4),
        bit(BitBoard::FILE_F, i) == (on_board(i) && file_of(i) == 5),
        bit(BitBoard::FILE_G, i) == (on_board(i) && file_of(i) == 6),
        bit(BitBoard::FILE_H, i) == (on_board(i) && file_of(i) == 7),
        bit(BitBoard::RANK_1, i) == (on_board(i) && rank_of(i) == 0),
        bit(BitBoard::RANK_2, i) == (on_board(i) && rank_of(i) == 1),
        bit(BitBoard::RANK_3, i) == (on_board(i) && rank_of(i) == 2),
        bit(BitBoard::RANK_4, i) == (on_board(i) && rank_of(i) == 3),
        bit(BitBoard::RANK_5, i) == (on_board(i) && rank_of(i) == 4),
        bit(BitBoard::RANK_6, i) == (on_board(i) && rank_of(i) == 5),
        bit(BitBoard::RANK_7, i) == (on_board(i) && rank_of(i) == 6),
        bit(BitBoard::RANK_8, i) == (on_board(i) && rank_of(i) == 7),
{
    lemma_file_shift(0, i);
    lemma_file_shift(1, i);
    lemma_file_shift(2, i);
    lemma_file_shift(3, i);
    lemma_file_shift(4, i);
    lemma_file_shift(5, i);
    lemma_file_shift(6, i);
    lemma_file_shift(7, i);
    lemma_rank_shift(0, i);
    lemma_rank_shift(1, i);
    lemma_rank_shift(2, i);
    lemma_rank_shift(3, i);
    lemma_rank_shift(4, i);
    lemma_rank_shift(5, i);
    lemma_rank_shift(6, i);
    lemma_rank_shift(7, i);
}

/// The lowest set bit of a nonempty bitboard.
pub proof fn lemma_lsb(b: u64)
    ensures
        b == 0 ==> lsb(b) == 64,
        b != 0 ==> 0 <= lsb(b) < 64 && bit(b, lsb(b)) && forall|j: int|
            0 <= j < lsb(b) ==> !#[trigger] bit(b, j),
{
    axiom_u64_trailing_zeros(b);
    if b != 0 {
        lemma_lowest_bit(b);
    }
}

/// The highest set bit of a nonempty bitboard.
pub proof fn lemma_msb(b: u64)
    ensures
        b != 0 ==> 0 <= msb(b) < 64 && bit(b, msb(b)) && forall|j: int|
            msb(b) < j < 64 ==> !#[trigger] bit(b, j),
{
    axiom_u64_leading_zeros(b);
    if b != 0 {
        let l = u64_leading_zeros(b);
        assert(0 <= l < 64);
        assert((b >> ((63 - l) as u64)) & 1u64 != 0u64);
        assert(((b >> ((63 - l) as u64)) & 1u64 != 0u64) ==> ((b >> ((63 - l) as u64)) & 1u64
            == 1u64)) by {
            let x = b >> ((63 - l) as u64);
            assert(x & 1u64 != 0u64 ==> x & 1u64 == 1u64) by (bit_vector);
        }
        assert forall|j: int| msb(b) < j < 64 implies !#[trigger] bit(b, j) by {
            assert((b >> (j as u64)) & 1u64 == 0u64);
        }
    }
}

/// Removing the lowest bit of a nonempty bitboard.
pub proof fn lemma_remove_lsb(b: u64)
    requires
        b != 0,
    ensures
        0 <= lsb(b) < 64,
        squares(b ^ (1u64 << (lsb(b) as u64))) =~= squares(b).remove(lsb(b)),
        squares(b).contains(lsb(b)),
{
    lemma_lsb(b);
}

/// A bitboard with at most one square holds only its lowest square; one with more
/// squares holds another.
pub proof fn lemma_single_square(b: u64)
    requires
        b != 0,
    ensures
        0 <= lsb(b) < 64,
        bit(b, lsb(b)),
        squares(b).len() <= 1 ==> forall|v: int| #[trigger] bit(b, v) ==> v == lsb(b),
        squares(b).len() > 1 ==> exists|v: int| #[trigger] bit(b, v) && v != lsb(b),
{
    lemma_remove_lsb(b);
    lemma_squares_finite(b);
    let rest = squares(b).remove(lsb(b));
    assert(rest.len() == squares(b).len() - 1);
    if squares(b).len() <= 1 {
        assert forall|v: int| #[trigger] bit(b, v) implies v == lsb(b) by {
            if v != lsb(b) {
                assert(rest.contains(v));
                assert(rest.len() > 0);
            }
        }
    } else {
        assert(rest.len() > 0);
        let v = rest.choose();
        assert(rest.contains(v));
        assert(bit(b, v) && v != lsb(b));
    }
}

/// A bitboard with a single square.
pub open spec fn single(sq: int) -> Set<int> {
    set![sq]
}

impl BitBoard {
    /// The bitboard holding only `sq`.
    pub fn from_sq(sq: Square) -> (r: u64)
        requires
            0 <= sq < 64,
        ensures
            r == 1u64 << (sq as u64),
            forall|i: int| #[trigger] bit(r, i) == (i == sq),
            squares(r) =~= set![sq as int],
    {
        1u64 << (sq as u64)
    }

    /// All squares on the file of `sq`.
    pub fn file_bb(sq: Square) -> (r: u64)
        requires
            0 <= sq < 64,
        ensures
            forall|i: int| #[trigger] bit(r, i) == (on_board(i) && file_of(i) == file_of(sq as int)),
            r == BitBoard::FILE_A << ((sq % 8) as u64),
    {
        let file = sq % 8;
        let r = BitBoard::FILE_A << (file as u64);
        proof {
            assert forall|i: int| #[trigger] bit(r, i) == (on_board(i) && file_of(i) == file_of(
                sq as int,
            )) by {
                lemma_file_shift(file as u64, i);
            }
        }
        r
    }

    /// All squares on the rank of `sq`.
    pub fn rank_bb(sq: Square) -> (r: u64)
        requires
            0 <= sq < 64,
        ensures
            forall|i: int| #[trigger] bit(r, i) == (on_board(i) && rank_of(i) == rank_of(sq as int)),
    {
        let r = BitBoard::RANK_1 << ((sq / 8 * 8) as u64);
        proof {
            assert forall|i: int| #[trigger] bit(r, i) == (on_board(i) && rank_of(i) == rank_of(
                sq as int,
            )) by {
                lemma_rank_shift((sq / 8) as u64, i);
            }
        }
        r
    }

    /// Adds `sq` to the bitboard.
    pub fn set_bit(bb: &mut u64, sq: Square)
        requires
            0 <= sq < 64,
        ensures
            *final(bb) == *old(bb) | (1u64 << (sq as u64)),
            forall|i: int| #[trigger] bit(*final(bb), i) == (bit(*old(bb), i) || i == sq),
    {
        *bb = *bb | (1u64 << (sq as u64));
    }

    /// Toggles `sq` in the bitboard (removes it when present).
    pub fn pop_bit(bb: &mut u64, sq: Square)
        requires
            0 <= sq < 64,
        ensures
            *final(bb) == *old(bb) ^ (1u64 << (sq as u64)),
            forall|i: int| #[trigger] bit(*final(bb), i) == (bit(*old(bb), i) != (i == sq)),
    {
        *bb = *bb ^ (1u64 << (sq as u64));
    }

    /// Does `c` lie on the line through `a` and `b`?
    pub fn triple_aligned(a: Square, b: Square, c: Square) -> (r: bool)
        requires
            0 <= a < 64,
            0 <= b < 64,
            0 <= c < 64,
        ensures
            r == crate::attack::line_hits(a as int, b as int, c as int),
    {
        let l = crate::attack::line(a, b);
        BitBoard::contains(l, c)
    }

    /// Is `sq` in the bitboard?
    pub fn contains(bb: u64, sq: Square) -> (r: bool)
        requires
            0 <= sq < 64,
        ensures
            r == bit(bb, sq as int),
    {
        let r = (1u64 << (sq as u64)) & bb != 0;
        proof {
            lemma_zero_iff_empty((1u64 << (sq as u64)) & bb);
            assert(bit((1u64 << (sq as u64)) & bb, sq as int) == bit(bb, sq as int));
        }
        r
    }

    /// Pop the lsb on the provided bitboard and return its index.
    ///
    /// Empty bitboards remain empty, and 64 is returned.
    pub fn pop_lsb(bb: &mut u64) -> (r: Square)
        ensures
            r == lsb(*old(bb)),
            *old(bb) == 0 ==> *final(bb) == 0 && r == 64,
            *old(bb) != 0 ==> *final(bb) == *old(bb) ^ (1u64 << (r as u64)),
            *old(bb) != 0 ==> 0 <= r < 64 && bit(*old(bb), r as int) && (forall|j: int|
                0 <= j < r ==> !#[trigger] bit(*old(bb), j)),
            forall|i: int| #[trigger] bit(*final(bb), i) == (bit(*old(bb), i) && i != r),
            squares(*final(bb)) =~= squares(*old(bb)).remove(r as int),
    {
        let lsb = BitBoard::bit_scan_forward(*bb);
        if lsb < 64 {
            BitBoard::pop_bit(bb, lsb)
        }
        proof {
            lemma_lsb(*old(bb));
            lemma_zero_iff_empty(*old(bb));
        }
        lsb
    }

    /// More than one square set?
    pub fn more_than_one(bb: u64) -> (r: bool)
        ensures
            r == (squares(bb).len() > 1),
    {
        if bb == 0 {
            proof {
                lemma_zero_iff_no_squares(bb);
            }
            false
        } else {
            proof {
                lemma_clear_lowest(bb);
                lemma_remove_lsb(bb);
                lemma_squares_finite(bb);
                let rest = bb ^ (1u64 << (lsb(bb) as u64));
                lemma_zero_iff_no_squares(rest);
                assert(squares(rest).len() == squares(bb).len() - 1);
                if squares(rest).len() == 0 {
                    assert(squares(rest) =~= Set::<int>::empty());
                }
            }
            bb & (bb - 1) != 0
        }
    }

    /// Exactly one square set?
    pub fn only_one(bb: u64) -> (r: bool)
        ensures
            r == (squares(bb).len() == 1),
    {
        proof {
            lemma_zero_iff_no_squares(bb);
            lemma_squares_finite(bb);
            if bb == 0 {
                assert(squares(bb).len() == 0);
            } else {
                lemma_remove_lsb(bb);
            }
        }
        bb != 0 && !BitBoard::more_than_one(bb)
    }

    /// At least two squares set.
    pub fn several(bb: u64) -> (r: bool)
        ensures
            r == (squares(bb).len() > 1),
    {
        BitBoard::more_than_one(bb)
    }

    /// Number of squares set.
    pub fn count(bb: u64) -> (r: u32)
        ensures
            r == squares(bb).len(),
            r <= 64,
    {
        let mut rest = bb;
        let mut n: u32 = 0;
        proof {
            lemma_squares_finite(bb);
        }
        while rest != 0
            invariant
                n + squares(rest).len() == squares(bb).len(),
                squares(rest).finite(),
                squares(bb).len() <= 64,
            decreases squares(rest).len(),
        {
            proof {
                lemma_remove_lsb(rest);
                lemma_clear_lowest(rest);
                lemma_squares_finite(rest);
                lemma_squares_finite(rest & ((rest - 1) as u64));
            }
            rest = rest & (rest - 1);
            n = n + 1;
        }
        proof {
            lemma_zero_iff_no_squares(rest);
        }
        n
    }

    /// Index of the single square of a one-square bitboard
    /// (the lowest square in general, 64 when empty).
    pub fn to_sq(bb: u64) -> (r: Square)
        ensures
            r == lsb(bb),
            bb == 0 ==> r == 64,
            bb != 0 ==> 0 <= r < 64 && bit(bb, r as int),
    {
        BitBoard::bit_scan_forward(bb)
    }

    /// Get the index of the least significant bit.
    ///
    /// returns 64 if the provided bitboard is empty.
    pub fn bit_scan_forward(bb: u64) -> (r: Square)
        ensures
            r == lsb(bb),
            bb == 0 ==> r == 64,
            bb != 0 ==> 0 <= r < 64 && bit(bb, r as int) && (forall|j: int|
                0 <= j < r ==> !#[trigger] bit(bb, j)),
    {
        proof {
            lemma_lsb(bb);
            axiom_u64_trailing_zeros(bb);
        }
        let t = bb.trailing_zeros();
        t as Square
    }

    /// Get the index of the most significant bit.
    ///
    /// returns 64 if the provided bitboard is empty.
    pub fn bit_scan_reverse(bb: u64) -> (r: Square)
        ensures
            r == msb(bb),
            bb == 0 ==> r == 64,
            bb != 0 ==> 0 <= r < 64 && bit(bb, r as int) && (forall|j: int|
                r < j < 64 ==> !#[trigger] bit(bb, j)),
    {
        if bb == 0 {
            return 64;
        }
        proof {
            lemma_msb(bb);
            axiom_u64_leading_zeros(bb);
        }
        let l = bb.leading_zeros();
        (63 - l) as Square
    }

    /// An 8x8 grid of the bitboard's bits, eighth rank first, each bit as ` 0 ` or ` 1 `.
    pub fn pretty_string(bb: u64) -> (s: String)
        ensures
            s@ == pretty_chars(bb),
    {
        let mut out: Vec<char> = Vec::new();
        let mut y: i8 = 0;
        while y < 8
            invariant
                0 <= y <= 8,
                out@ == pretty_rows(bb, y as int),
            decreases 8 - y,
        {
            let mut x: i8 = 0;
            let ghost start = out@;
            while x < 8
                invariant
                    0 <= x <= 8,
                    0 <= y < 8,
                    out@ == start + pretty_cells(bb, y as int, x as int),
                decreases 8 - x,
            {
                let square: i8 = 8 * (7 - y) + x;
                let value = (bb >> (square as u64)) & 1;
                out.push(' ');
                if value == 1 {
                    out.push('1');
                } else {
                    out.push('0');
                }
                out.push(' ');
                if x == 7 {
                    out.push('\n');
                }
                x = x + 1;
            }
            y = y + 1;
        }
        string_from_chars(&out)
    }
}

/// One cell of the bitboard grid: the bit of square `8 * (7 - y) + x`, padded by spaces,
/// followed by a newline at the end of a row.
pub open spec fn pretty_cell(bb: u64, y: int, x: int) -> Seq<char> {
    let sq = 8 * (7 - y) + x;
    let c = if bit(bb, sq) { '1' } else { '0' };
    let cell = seq![' ', c, ' '];
    if x == 7 {
        cell.push('\n')
    } else {
        cell
    }
}

/// The first `x` cells of grid row `y`.
pub open spec fn pretty_cells(bb: u64, y: int, x: int) -> Seq<char>
    decreases x,
{
    if x <= 0 {
        Seq::empty()
    } else {
        pretty_cells(bb, y, x - 1) + pretty_cell(bb, y, x - 1)
    }
}

/// The first `y` grid rows.
pub open spec fn pretty_rows(bb: u64, y: int) -> Seq<char>
    decreases y,
{
    if y <= 0 {
        Seq::empty()
    } else {
        pretty_rows(bb, y - 1) + pretty_cells(bb, y - 1, 8)
    }
}

/// The whole grid of a bitboard.
pub open spec fn pretty_chars(bb: u64) -> Seq<char> {
    pretty_rows(bb, 8)
}

} // verus!
