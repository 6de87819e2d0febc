//! Attack sets of the pieces, rays, lines and the squares between two squares.
//!
//! Every attack set is specified geometrically, by file and rank coordinates.
use vstd::prelude::*;
use crate::bits::{bit, group_bits, lemma_zero_iff_empty};
use crate::bitboard::{BitBoard, file_of, rank_of, on_board, lemma_file_rank_consts};
use crate::defs::{Player, PieceType, Square, opp_of};

verus! {

broadcast use group_bits;

/// Absolute value.
pub open spec fn abs(x: int) -> int {
    if x < 0 {
        -x
    } else {
        x
    }
}

/// `k * d` for a direction component `d` in `-1..=1`.
pub open spec fn mul_dir(k: int, d: int) -> int {
    if d > 0 {
        k
    } else if d < 0 {
        -k
    } else {
        0
    }
}

/// The square `k` steps from `s` in direction `(dx, dy)`.
pub open spec fn sq_at(s: int, dx: int, dy: int, k: int) -> int {
    8 * (rank_of(s) + mul_dir(k, dy)) + (file_of(s) + mul_dir(k, dx))
}

/// The square `k` steps from `s` in direction `(dx, dy)` is on the board.
pub open spec fn step_on_board(s: int, dx: int, dy: int, k: int) -> bool {
    0 <= file_of(s) + mul_dir(k, dx) < 8 && 0 <= rank_of(s) + mul_dir(k, dy) < 8
}

/// Sliding `k` steps from `s` in direction `(dx, dy)` stays on the board and crosses
/// only empty squares (the square reached may be occupied).
pub open spec fn reach(s: int, dx: int, dy: int, occ: u64, k: int) -> bool {
    &&& 1 <= k
    &&& step_on_board(s, dx, dy, k)
    &&& forall|i: int| 1 <= i < k ==> !#[trigger] bit(occ, sq_at(s, dx, dy, i))
}

/// `t` is attacked along direction `(dx, dy)` by a slider on `s`.
pub open spec fn slide_hits(s: int, dx: int, dy: int, occ: u64, t: int) -> bool {
    exists|k: int| 1 <= k <= 7 && reach(s, dx, dy, occ, k) && t == #[trigger] sq_at(s, dx, dy, k)
}

/// A valid direction: components in `-1..=1`, not both zero.
pub open spec fn is_dir(dx: int, dy: int) -> bool {
    -1 <= dx <= 1 && -1 <= dy <= 1 && (dx != 0 || dy != 0)
}

/// Squares a rook on `s` attacks.
pub open spec fn rook_hits(s: int, occ: u64, t: int) -> bool {
    slide_hits(s, 0, 1, occ, t) || slide_hits(s, 1, 0, occ, t) || slide_hits(s, 0, -1, occ, t)
        || slide_hits(s, -1, 0, occ, t)
}

/// Squares a bishop on `s` attacks.
pub open spec fn bishop_hits(s: int, occ: u64, t: int) -> bool {
    slide_hits(s, 1, 1, occ, t) || slide_hits(s, 1, -1, occ, t) || slide_hits(s, -1, -1, occ, t)
        || slide_hits(s, -1, 1, occ, t)
}

/// Squares a king on `s` attacks.
pub open spec fn king_hits(s: int, t: int) -> bool {
    on_board(t) && t != s && abs(file_of(t) - file_of(s)) <= 1 && abs(rank_of(t) - rank_of(s))
        <= 1
}

/// Squares a knight on `s` attacks.
pub open spec fn knight_hits(s: int, t: int) -> bool {
    on_board(t) && ((abs(file_of(t) - file_of(s)) == 1 && abs(rank_of(t) - rank_of(s)) == 2) || (
    abs(file_of(t) - file_of(s)) == 2 && abs(rank_of(t) - rank_of(s)) == 1))
}

/// Squares a pawn of `side` on `s` attacks.
pub open spec fn pawn_hits(s: int, side: Player, t: int) -> bool {
    on_board(t) && abs(file_of(t) - file_of(s)) == 1 && rank_of(t) == rank_of(s) + (if side
        == Player::White {
        1int
    } else {
        -1int
    })
}

/// Squares a piece of type `pt` and side `side` on `s` attacks with occupancy `occ`.
pub open spec fn piece_hits(pt: PieceType, s: int, occ: u64, side: Player, t: int) -> bool {
    match pt {
        PieceType::Pawn => pawn_hits(s, side, t),
        PieceType::Knight => knight_hits(s, t),
        PieceType::Bishop => bishop_hits(s, occ, t),
        PieceType::Rook => rook_hits(s, occ, t),
        PieceType::Queen => bishop_hits(s, occ, t) || rook_hits(s, occ, t),
        PieceType::King => king_hits(s, t),
        PieceType::NoPiece => false,
    }
}

/// Once a slide leaves the board it does not come back.
proof fn lemma_off_board_stays(s: int, dx: int, dy: int, k: int, j: int)
    requires
        is_dir(dx, dy),
        1 <= k <= j,
        !step_on_board(s, dx, dy, k),
        0 <= file_of(s) < 8,
        0 <= rank_of(s) < 8,
    ensures
        !step_on_board(s, dx, dy, j),
{
}

/// Sliding from `sq` in direction `(dx, dy)` until the edge or the first occupied square
/// (which is included).
pub fn slide(sq: Square, dx: i8, dy: i8, occ: u64) -> (r: u64)
    requires
        0 <= sq < 64,
        is_dir(dx as int, dy as int),
    ensures
        forall|t: int| #[trigger] bit(r, t) == slide_hits(sq as int, dx as int, dy as int, occ, t),
{
    let fs: i8 = sq % 8;
    let rs: i8 = sq / 8;
    let mut f: i8 = fs + dx;
    let mut rk: i8 = rs + dy;
    let mut k: i8 = 1;
    let mut r: u64 = 0;
    let mut done = false;
    let ghost s = sq as int;
    while !done && 0 <= f && f < 8 && 0 <= rk && rk < 8
        invariant
            0 <= sq < 64,
            fs == file_of(s),
            rs == rank_of(s),
            s == sq,
            is_dir(dx as int, dy as int),
            1 <= k <= 8,
            f == fs + mul_dir(k as int, dx as int),
            rk == rs + mul_dir(k as int, dy as int),
            forall|i: int| 1 <= i < k ==> step_on_board(s, dx as int, dy as int, i),
            forall|i: int|
                1 <= i < k && (!done || i < k - 1) ==> !#[trigger] bit(
                    occ,
                    sq_at(s, dx as int, dy as int, i),
                ),
            done ==> k >= 2 && bit(occ, sq_at(s, dx as int, dy as int, k - 1)),
            forall|t: int| #[trigger]
                bit(r, t) == exists|j: int| 1 <= j < k && t == #[trigger] sq_at(s, dx as int, dy as int, j),
        decreases 8 - k,
    {
        let t: i8 = rk * 8 + f;
        assert(t == sq_at(s, dx as int, dy as int, k as int));
        let ghost old_r = r;
        r = r | (1u64 << (t as u64));
        assert forall|u: int| #[trigger]
            bit(r, u) == exists|j: int| 1 <= j < k + 1 && u == #[trigger] sq_at(s, dx as int, dy as int, j) by {
            if bit(r, u) && u != t {
                assert(bit(old_r, u));
            }
            if u == t {
                assert(u == sq_at(s, dx as int, dy as int, k as int));
            }
            if exists|j: int| 1 <= j < k + 1 && u == #[trigger] sq_at(s, dx as int, dy as int, j) {
                let j = choose|j: int| 1 <= j < k + 1 && u == #[trigger] sq_at(s, dx as int, dy as int, j);
                if j < k {
                    assert(bit(old_r, u));
                }
            }
        }
        if (occ >> (t as u64)) & 1 == 1 {
            done = true;
        }
        f = f + dx;
        rk = rk + dy;
        if !done && k == 7 {
            // A slide stays on the board for at most seven steps.
            assert(!(0 <= f && f < 8 && 0 <= rk && rk < 8));
        }
        k = k + 1;
    }
    proof {
        assert forall|t: int| #[trigger] bit(r, t) == slide_hits(s, dx as int, dy as int, occ, t) by {
            if bit(r, t) {
                let j = choose|j: int| 1 <= j < k && t == #[trigger] sq_at(s, dx as int, dy as int, j);
                assert(reach(s, dx as int, dy as int, occ, j));
                assert(1 <= j <= 7) by {
                    if j > 7 {
                        assert(step_on_board(s, dx as int, dy as int, j));
                    }
                }
            }
            if slide_hits(s, dx as int, dy as int, occ, t) {
                let j = choose|j: int| 1 <= j <= 7 && reach(s, dx as int, dy as int, occ, j) && t == #[trigger] sq_at(s, dx as int, dy as int, j);
                if j >= k {
                    if done {
                        assert(!bit(occ, sq_at(s, dx as int, dy as int, k - 1)));
                    } else {
                        assert(!step_on_board(s, dx as int, dy as int, k as int));
                        lemma_off_board_stays(s, dx as int, dy as int, k as int, j);
                    }
                }
                assert(bit(r, t));
            }
        }
    }
    r
}


/// Squares attacked by a rook on `sq` with occupancy `occ`.
pub fn rook_attacks(sq: Square, occ: u64) -> (r: u64)
    requires
        0 <= sq < 64,
    ensures
        forall|t: int| #[trigger] bit(r, t) == rook_hits(sq as int, occ, t),
{
    slide(sq, 0, 1, occ) | slide(sq, 1, 0, occ) | slide(sq, 0, -1, occ) | slide(sq, -1, 0, occ)
}

/// Squares attacked by a bishop on `sq` with occupancy `occ`.
pub fn bishop_attacks(sq: Square, occ: u64) -> (r: u64)
    requires
        0 <= sq < 64,
    ensures
        forall|t: int| #[trigger] bit(r, t) == bishop_hits(sq as int, occ, t),
{
    slide(sq, 1, 1, occ) | slide(sq, 1, -1, occ) | slide(sq, -1, -1, occ) | slide(sq, -1, 1, occ)
}

/// Squares attacked by a queen on `sq` with occupancy `occ`.
pub fn queen_attacks(sq: Square, occ: u64) -> (r: u64)
    requires
        0 <= sq < 64,
    ensures
        forall|t: int| #[trigger] bit(r, t) == (bishop_hits(sq as int, occ, t) || rook_hits(sq as int, occ, t)),
{
    bishop_attacks(sq, occ) | rook_attacks(sq, occ)
}

/// Coordinates determine a square.
proof fn lemma_coords(s: int)
    requires
        0 <= s < 64,
    ensures
        s == 8 * rank_of(s) + file_of(s),
        0 <= file_of(s) < 8,
        0 <= rank_of(s) < 8,
{
}

/// King moves as square offsets guarded by the file of the origin.
proof fn lemma_king_offsets(s: int, t: int)
    requires
        0 <= s < 64,
    ensures
        king_hits(s, t) == (on_board(t) && (t == s + 8 || t == s - 8 || (t == s + 1 && file_of(s)
            != 7) || (t == s - 1 && file_of(s) != 0) || (t == s + 9 && file_of(s) != 7) || (t
            == s + 7 && file_of(s) != 0) || (t == s - 7 && file_of(s) != 7) || (t == s - 9
            && file_of(s) != 0))),
{
    lemma_coords(s);
    if on_board(t) {
        lemma_coords(t);
    }
}

/// Knight moves as square offsets guarded by the file of the origin.
proof fn lemma_knight_offsets(s: int, t: int)
    requires
        0 <= s < 64,
    ensures
        knight_hits(s, t) == (on_board(t) && ((t == s + 17 && file_of(s) != 7) || (t == s + 15
            && file_of(s) != 0) || (t == s + 10 && file_of(s) < 6) || (t == s + 6 && file_of(s)
            >= 2) || (t == s - 6 && file_of(s) < 6) || (t == s - 10 && file_of(s) >= 2) || (t
            == s - 15 && file_of(s) != 7) || (t == s - 17 && file_of(s) != 0))),
{
    lemma_coords(s);
    if on_board(t) {
        lemma_coords(t);
    }
}

/// Pawn captures as square offsets guarded by the file of the origin.
proof fn lemma_pawn_offsets(s: int, side: Player, t: int)
    requires
        0 <= s < 64,
    ensures
        side == Player::White ==> pawn_hits(s, side, t) == (on_board(t) && ((t == s + 7
            && file_of(s) != 0) || (t == s + 9 && file_of(s) != 7))),
        side == Player::Black ==> pawn_hits(s, side, t) == (on_board(t) && ((t == s - 9
            && file_of(s) != 0) || (t == s - 7 && file_of(s) != 7))),
{
    lemma_coords(s);
    if on_board(t) {
        lemma_coords(t);
    }
}

/// Squares attacked by a king on `sq`.
pub fn king_attacks(sq: Square) -> (r: u64)
    requires
        0 <= sq < 64,
    ensures
        forall|t: int| #[trigger] bit(r, t) == king_hits(sq as int, t),
{
    let b = 1u64 << (sq as u64);
    let not_a = !BitBoard::FILE_A;
    let not_h = !BitBoard::FILE_H;
    let r = (b << 8u64) | (b >> 8u64) | ((b & not_h) << 1u64) | ((b & not_a) >> 1u64) | ((b
        & not_h) << 9u64) | ((b & not_a) << 7u64) | ((b & not_h) >> 7u64) | ((b & not_a) >> 9u64);
    proof {
        assert forall|t: int| #[trigger] bit(r, t) == king_hits(sq as int, t) by {
            lemma_file_rank_consts(sq as int);
            lemma_king_offsets(sq as int, t);
        }
    }
    r
}

/// Squares attacked by a knight on `sq`.
pub fn knight_attacks(sq: Square) -> (r: u64)
    requires
        0 <= sq < 64,
    ensures
        forall|t: int| #[trigger] bit(r, t) == knight_hits(sq as int, t),
{
    let b = 1u64 << (sq as u64);
    let not_a = !BitBoard::FILE_A;
    let not_h = !BitBoard::FILE_H;
    let not_ab = !(BitBoard::FILE_A | BitBoard::FILE_B);
    let not_gh = !(BitBoard::FILE_G | BitBoard::FILE_H);
    let r = ((b & not_h) << 17u64) | ((b & not_a) << 15u64) | ((b & not_gh) << 10u64) | ((b
        & not_ab) << 6u64) | ((b & not_gh) >> 6u64) | ((b & not_ab) >> 10u64) | ((b & not_h)
        >> 15u64) | ((b & not_a) >> 17u64);
    proof {
        assert forall|t: int| #[trigger] bit(r, t) == knight_hits(sq as int, t) by {
            lemma_file_rank_consts(sq as int);
            lemma_knight_offsets(sq as int, t);
        }
    }
    r
}

/// Squares attacked by a pawn of `side` on `sq`.
pub fn pawn_attacks(sq: Square, side: Player) -> (r: u64)
    requires
        0 <= sq < 64,
    ensures
        forall|t: int| #[trigger] bit(r, t) == pawn_hits(sq as int, side, t),
{
    let b = 1u64 << (sq as u64);
    let not_a = !BitBoard::FILE_A;
    let not_h = !BitBoard::FILE_H;
    let r = match side {
        Player::White => ((b & not_a) << 7u64) | ((b & not_h) << 9u64),
        Player::Black => ((b & not_a) >> 9u64) | ((b & not_h) >> 7u64),
    };
    proof {
        assert forall|t: int| #[trigger] bit(r, t) == pawn_hits(sq as int, side, t) by {
            lemma_file_rank_consts(sq as int);
            lemma_pawn_offsets(sq as int, side, t);
        }
    }
    r
}

/// Squares attacked by a piece of type `piece` and side `side` on `sq`;
/// nothing for `NoPiece`.
pub fn attacks(piece: PieceType, sq: Square, occ: u64, side: Player) -> (r: u64)
    requires
        0 <= sq < 64,
    ensures
        forall|t: int| #[trigger] bit(r, t) == piece_hits(piece, sq as int, occ, side, t),
{
    match piece {
        PieceType::Pawn => pawn_attacks(sq, side),
        PieceType::Knight => knight_attacks(sq),
        PieceType::Bishop => bishop_attacks(sq, occ),
        PieceType::Rook => rook_attacks(sq, occ),
        PieceType::Queen => queen_attacks(sq, occ),
        PieceType::King => king_attacks(sq),
        PieceType::NoPiece => 0,
    }
}


/// Sign of an integer.
pub open spec fn sign(x: int) -> int {
    if x > 0 {
        1
    } else if x < 0 {
        -1
    } else {
        0
    }
}

/// File step from `a` toward `b`.
pub open spec fn dir_x(a: int, b: int) -> int {
    sign(file_of(b) - file_of(a))
}

/// Rank step from `a` toward `b`.
pub open spec fn dir_y(a: int, b: int) -> int {
    sign(rank_of(b) - rank_of(a))
}

/// Distinct squares on a common rank, file or diagonal.
pub open spec fn aligned(a: int, b: int) -> bool {
    &&& on_board(a)
    &&& on_board(b)
    &&& a != b
    &&& (file_of(a) == file_of(b) || rank_of(a) == rank_of(b) || abs(file_of(b) - file_of(a))
        == abs(rank_of(b) - rank_of(a)))
}

/// King distance between two squares.
pub open spec fn chebyshev(a: int, b: int) -> int {
    let dx = abs(file_of(b) - file_of(a));
    let dy = abs(rank_of(b) - rank_of(a));
    if dx > dy {
        dx
    } else {
        dy
    }
}

/// `u` lies strictly between the aligned squares `a` and `b`.
pub open spec fn between_hits(a: int, b: int, u: int) -> bool {
    aligned(a, b) && exists|k: int|
        1 <= k < chebyshev(a, b) && u == #[trigger] sq_at(a, dir_x(a, b), dir_y(a, b), k)
}

/// `u` lies on the full line through the aligned squares `a` and `b`.
pub open spec fn line_hits(a: int, b: int, u: int) -> bool {
    aligned(a, b) && (u == a || slide_hits(a, dir_x(a, b), dir_y(a, b), 0, u) || slide_hits(
        a,
        -dir_x(a, b),
        -dir_y(a, b),
        0,
        u,
    ))
}

fn sign_i8(x: i8) -> (r: i8)
    ensures
        r == sign(x as int),
{
    if x > 0 {
        1
    } else if x < 0 {
        -1
    } else {
        0
    }
}

fn abs_i8(x: i8) -> (r: i8)
    requires
        x > -128,
    ensures
        r == abs(x as int),
{
    if x < 0 {
        -x
    } else {
        x
    }
}

/// Squares strictly between `source` and `dest` when they share a rank, file or
/// diagonal; empty otherwise.
pub fn between(source: Square, dest: Square) -> (r: u64)
    requires
        0 <= source < 64,
        0 <= dest < 64,
    ensures
        forall|u: int| #[trigger] bit(r, u) == between_hits(source as int, dest as int, u),
{
    let fa = source % 8;
    let ra = source / 8;
    let dfx = dest % 8 - fa;
    let dfy = dest / 8 - ra;
    let adx = abs_i8(dfx);
    let ady = abs_i8(dfy);
    if source == dest || !(dfx == 0 || dfy == 0 || adx == ady) {
        proof {
            assert forall|u: int| #[trigger] bit(0u64, u) == between_hits(source as int, dest as int, u) by {}
        }
        return 0;
    }
    let dx = sign_i8(dfx);
    let dy = sign_i8(dfy);
    let n = if adx > ady { adx } else { ady };
    let ghost a = source as int;
    let mut f = fa + dx;
    let mut rk = ra + dy;
    let mut k: i8 = 1;
    let mut r: u64 = 0;
    while k < n
        invariant
            a == source,
            0 <= a < 64,
            aligned(a, dest as int),
            fa == file_of(a),
            ra == rank_of(a),
            dx == dir_x(a, dest as int),
            dy == dir_y(a, dest as int),
            n == chebyshev(a, dest as int),
            1 <= n <= 7,
            1 <= k <= n,
            f == fa + mul_dir(k as int, dx as int),
            rk == ra + mul_dir(k as int, dy as int),
            forall|t: int| #[trigger]
                bit(r, t) == exists|j: int| 1 <= j < k && t == #[trigger] sq_at(a, dx as int, dy as int, j),
        decreases n - k,
    {
        let t: i8 = rk * 8 + f;
        assert(t == sq_at(a, dx as int, dy as int, k as int));
        let ghost old_r = r;
        r = r | (1u64 << (t as u64));
        assert forall|u: int| #[trigger]
            bit(r, u) == exists|j: int| 1 <= j < k + 1 && u == #[trigger] sq_at(a, dx as int, dy as int, j) by {
            if bit(r, u) && u != t {
                assert(bit(old_r, u));
            }
            if exists|j: int| 1 <= j < k + 1 && u == #[trigger] sq_at(a, dx as int, dy as int, j) {
                let j = choose|j: int| 1 <= j < k + 1 && u == #[trigger] sq_at(a, dx as int, dy as int, j);
                if j < k {
                    assert(bit(old_r, u));
                }
            }
        }
        f = f + dx;
        rk = rk + dy;
        k = k + 1;
    }
    r
}

/// The full line through `a` and `b` (both included) when they share a rank, file or
/// diagonal; empty otherwise.
pub fn line(a: Square, b: Square) -> (r: u64)
    requires
        0 <= a < 64,
        0 <= b < 64,
    ensures
        forall|u: int| #[trigger] bit(r, u) == line_hits(a as int, b as int, u),
{
    let fa = a % 8;
    let ra = a / 8;
    let dfx = b % 8 - fa;
    let dfy = b / 8 - ra;
    let adx = abs_i8(dfx);
    let ady = abs_i8(dfy);
    if a == b || !(dfx == 0 || dfy == 0 || adx == ady) {
        proof {
            assert forall|u: int| #[trigger] bit(0u64, u) == line_hits(a as int, b as int, u) by {}
        }
        return 0;
    }
    let dx = sign_i8(dfx);
    let dy = sign_i8(dfy);
    let r = (1u64 << (a as u64)) | slide(a, dx, dy, 0) | slide(a, -dx, -dy, 0);
    r
}

/// Offsets of the directions as file and rank steps, indexed like [`crate::defs::DIRS`].
pub open spec fn dir_dx(d: int) -> int {
    if d == 1 || d == 4 || d == 5 {
        1
    } else if d == 3 || d == 6 || d == 7 {
        -1
    } else {
        0
    }
}

/// Rank step of a direction index.
pub open spec fn dir_dy(d: int) -> int {
    if d == 0 || d == 4 || d == 7 {
        1
    } else if d == 2 || d == 5 || d == 6 {
        -1
    } else {
        0
    }
}

/// All squares from `square` toward the edge in direction `dir_idx` (excluding `square`);
/// empty for the "no square" value 64.
pub fn ray(dir_idx: usize, square: Square) -> (r: u64)
    requires
        dir_idx < 8,
        0 <= square <= 64,
    ensures
        square == 64 ==> r == 0,
        square < 64 ==> forall|t: int| #[trigger] bit(r, t) == slide_hits(square as int, dir_dx(dir_idx as int), dir_dy(dir_idx as int), 0, t),
{
    if square == 64 {
        return 0;
    }
    let dx: i8 = if dir_idx == 1 || dir_idx == 4 || dir_idx == 5 {
        1
    } else if dir_idx == 3 || dir_idx == 6 || dir_idx == 7 {
        -1
    } else {
        0
    };
    let dy: i8 = if dir_idx == 0 || dir_idx == 4 || dir_idx == 7 {
        1
    } else if dir_idx == 2 || dir_idx == 5 || dir_idx == 6 {
        -1
    } else {
        0
    };
    slide(square, dx, dy, 0)
}

/// `sq` together with every square on its two diagonals.
pub fn diagonals(sq: Square) -> (r: u64)
    requires
        0 <= sq < 64,
    ensures
        forall|t: int| #[trigger] bit(r, t) == (t == sq || bishop_hits(sq as int, 0, t)),
{
    (1u64 << (sq as u64)) | bishop_attacks(sq, 0)
}

/// Every square on the rank and file of `sq` (including `sq`).
pub fn orthogonals(sq: Square) -> (r: u64)
    requires
        0 <= sq < 64,
    ensures
        forall|t: int| #[trigger] bit(r, t) == (on_board(t) && (file_of(t) == file_of(sq as int)
            || rank_of(t) == rank_of(sq as int))),
{
    BitBoard::file_bb(sq) | BitBoard::rank_bb(sq)
}

} // verus!
