//! Bit-level model of 64-bit bitboards.
//!
//! A bitboard is a `u64`; square `i` (0 = a1, 63 = h8) is present when bit `i` is set.
//! `bit(b, i)` is the per-square view and `squares(b)` the set view used in contracts.
use vstd::prelude::*;
use vstd::std_specs::bits::{u64_trailing_zeros, axiom_u64_trailing_zeros};

verus! {

/// Bit `i` of `b` is set (false outside `0..64`).
pub open spec fn bit(b: u64, i: int) -> bool {
    0 <= i < 64 && (b >> (i as u64)) & 1u64 == 1u64
}

/// The set of squares present in a bitboard.
pub open spec fn squares(b: u64) -> Set<int> {
    Set::new(|i: int| bit(b, i))
}

/// The set of all 64 squares.
pub open spec fn all_squares() -> Set<int> {
    Set::new(|i: int| 0 <= i < 64)
}

proof fn bv_or(a: u64, b: u64, i: u64)
    by (bit_vector)
    requires
        i < 64,
    ensures
        ((a | b) >> i) & 1u64 == 1u64 <==> ((a >> i) & 1u64 == 1u64 || (b >> i) & 1u64 == 1u64),
{
}

proof fn bv_and(a: u64, b: u64, i: u64)
    by (bit_vector)
    requires
        i < 64,
    ensures
        ((a & b) >> i) & 1u64 == 1u64 <==> ((a >> i) & 1u64 == 1u64 && (b >> i) & 1u64 == 1u64),
{
}

proof fn bv_xor(a: u64, b: u64, i: u64)
    by (bit_vector)
    requires
        i < 64,
    ensures
        ((a ^ b) >> i) & 1u64 == 1u64 <==> ((a >> i) & 1u64 == 1u64) != ((b >> i) & 1u64
            == 1u64),
{
}

proof fn bv_not(a: u64, i: u64)
    by (bit_vector)
    requires
        i < 64,
    ensures
        ((!a) >> i) & 1u64 == 1u64 <==> !((a >> i) & 1u64 == 1u64),
{
}

proof fn bv_single(s: u64, i: u64)
    by (bit_vector)
    requires
        i < 64,
        s < 64,
    ensures
        ((1u64 << s) >> i) & 1u64 == 1u64 <==> i == s,
{
}

proof fn bv_shl(a: u64, k: u64, i: u64)
    by (bit_vector)
    requires
        i < 64,
        k < 64,
    ensures
        ((a << k) >> i) & 1u64 == 1u64 <==> (i >= k && (a >> ((i - k) as u64)) & 1u64 == 1u64),
{
}

proof fn bv_shr(a: u64, k: u64, i: u64)
    by (bit_vector)
    requires
        i < 64,
        k < 64,
    ensures
        ((a >> k) >> i) & 1u64 == 1u64 <==> (i + k < 64 && (a >> ((i + k) as u64)) & 1u64
            == 1u64),
{
}

proof fn bv_zero(i: u64)
    by (bit_vector)
    ensures
        (0u64 >> i) & 1u64 != 1u64,
{
}

proof fn bv_xor_zero(a: u64, b: u64)
    by (bit_vector)
    ensures
        a ^ b == 0 ==> a == b,
{
}

proof fn bv_clear_lowest(a: u64, t: u64)
    by (bit_vector)
    requires
        t < 64,
        a << ((64 - t) as u64) == 0,
        (a >> t) & 1u64 == 1u64,
    ensures
        a & ((a - 1) as u64) == a ^ (1u64 << t),
        a != 0,
{
}

pub broadcast proof fn lemma_bit_or(a: u64, b: u64, i: int)
    ensures
        #[trigger] bit(a | b, i) == (bit(a, i) || bit(b, i)),
{
    if 0 <= i < 64 {
        bv_or(a, b, i as u64);
    }
}

pub broadcast proof fn lemma_bit_and(a: u64, b: u64, i: int)
    ensures
        #[trigger] bit(a & b, i) == (bit(a, i) && bit(b, i)),
{
    if 0 <= i < 64 {
        bv_and(a, b, i as u64);
    }
}

pub broadcast proof fn lemma_bit_xor(a: u64, b: u64, i: int)
    ensures
        #[trigger] bit(a ^ b, i) == (bit(a, i) != bit(b, i)),
{
    if 0 <= i < 64 {
        bv_xor(a, b, i as u64);
    }
}

pub broadcast proof fn lemma_bit_not(a: u64, i: int)
    ensures
        #[trigger] bit(!a, i) == (0 <= i < 64 && !bit(a, i)),
{
    if 0 <= i < 64 {
        bv_not(a, i as u64);
    }
}

pub broadcast proof fn lemma_bit_single(s: u64, i: int)
    requires
        s < 64,
    ensures
        #[trigger] bit(1u64 << s, i) == (i == s),
{
    if 0 <= i < 64 {
        bv_single(s, i as u64);
    }
}

pub broadcast proof fn lemma_bit_shl(a: u64, k: u64, i: int)
    requires
        k < 64,
    ensures
        #[trigger] bit(a << k, i) == (0 <= i < 64 && i >= k && bit(a, i - k)),
{
    if 0 <= i < 64 {
        bv_shl(a, k, i as u64);
    }
}

pub broadcast proof fn lemma_bit_shr(a: u64, k: u64, i: int)
    requires
        k < 64,
    ensures
        #[trigger] bit(a >> k, i) == (0 <= i < 64 && bit(a, i + k)),
{
    if 0 <= i < 64 {
        bv_shr(a, k, i as u64);
    }
}

pub broadcast proof fn lemma_bit_zero(i: int)
    ensures
        !#[trigger] bit(0u64, i),
{
    if 0 <= i < 64 {
        bv_zero(i as u64);
    }
}

pub broadcast group group_bits {
    lemma_bit_or,
    lemma_bit_and,
    lemma_bit_xor,
    lemma_bit_not,
    lemma_bit_single,
    lemma_bit_shl,
    lemma_bit_shr,
    lemma_bit_zero,
}

/// A nonzero bitboard has its lowest set bit at `trailing_zeros`, and nothing below it.
pub proof fn lemma_lowest_bit(b: u64)
    requires
        b != 0,
    ensures
        u64_trailing_zeros(b) < 64,
        bit(b, u64_trailing_zeros(b) as int),
        forall|j: int| 0 <= j < u64_trailing_zeros(b) ==> !#[trigger] bit(b, j),
{
    axiom_u64_trailing_zeros(b);
    let t = u64_trailing_zeros(b);
    assert forall|j: int| 0 <= j < t implies !#[trigger] bit(b, j) by {
        assert((b >> (j as u64)) & 1u64 == 0u64);
    }
}

/// Two bitboards with the same bits are equal.
pub proof fn lemma_bits_ext(a: u64, b: u64)
    requires
        forall|i: int| 0 <= i < 64 ==> #[trigger] bit(a, i) == bit(b, i),
    ensures
        a == b,
{
    let x = a ^ b;
    if x != 0 {
        lemma_lowest_bit(x);
        let t = u64_trailing_zeros(x) as int;
        lemma_bit_xor(a, b, t);
        assert(bit(a, t) == bit(b, t));
    }
    bv_xor_zero(a, b);
}

/// A bitboard is zero exactly when it has no set bit.
pub proof fn lemma_zero_iff_empty(b: u64)
    ensures
        (b == 0) <==> (forall|i: int| !#[trigger] bit(b, i)),
{
    broadcast use lemma_bit_zero;

    if b != 0 {
        lemma_lowest_bit(b);
    }
}

/// Same as [`lemma_zero_iff_empty`], phrased over the set view.
pub proof fn lemma_zero_iff_no_squares(b: u64)
    ensures
        (b == 0) <==> squares(b) =~= Set::<int>::empty(),
{
    lemma_zero_iff_empty(b);
    if squares(b) =~= Set::<int>::empty() {
        assert forall|i: int| !#[trigger] bit(b, i) by {
            assert(!squares(b).contains(i));
        }
    }
}

/// Clearing the lowest set bit with `b & (b - 1)`.
pub proof fn lemma_clear_lowest(b: u64)
    requires
        b != 0,
    ensures
        u64_trailing_zeros(b) < 64,
        b & ((b - 1) as u64) == b ^ (1u64 << u64_trailing_zeros(b)),
{
    axiom_u64_trailing_zeros(b);
    bv_clear_lowest(b, u64_trailing_zeros(b) as u64);
}

/// Squares of a bitboard lie on the board, hence form a finite set.
pub proof fn lemma_squares_finite(b: u64)
    ensures
        squares(b).subset_of(all_squares()),
        squares(b).finite(),
        squares(b).len() <= 64,
{
    lemma_all_squares();
    vstd::set_lib::lemma_len_subset(squares(b), all_squares());
}

/// The full board is a finite set of 64 squares.
pub proof fn lemma_all_squares()
    ensures
        all_squares().finite(),
        all_squares().len() == 64,
{
    assert(all_squares() =~= vstd::set_lib::set_int_range(0, 64));
    vstd::set_lib::lemma_int_range(0, 64);
}

} // verus!
