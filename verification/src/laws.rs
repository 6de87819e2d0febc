//! Properties that relate several operations of the library.
use vstd::prelude::*;
use crate::bitboard::{file_of, rank_of};
use crate::board::{Board, zkey, lemma_xor};
use crate::defs::{Player, opp_of};
use crate::perft::same_game;
use crate::position::Position;
use crate::table::{score_to_table, score_from_table, SCORE_LIMIT};
use crate::heuristics::gravity;
use crate::bits::{bit, squares, lemma_squares_finite};
use crate::utils::material_draw;
use crate::movegen::{MovegenParams, move_score_ok, gen_move_ok};
use crate::see::see_ge_spec;
use crate::eval::{side_score, low_material_spec};
use crate::see::{after_capture, usable, of_type, lemma_cheapest_none};
use crate::movegen::attacks_square;
use crate::attack::{abs, mul_dir, sq_at, step_on_board, reach, slide_hits, bishop_hits, rook_hits, is_dir};
use crate::bitmove::{move_flag, move_src, move_dest, flag_is_cap, flag_is_prom};

verus! {

broadcast use crate::bits::group_bits;

/// The incremental key stays the key computed from scratch: if a board's key is exact
/// before a move or null move, and the move keeps the difference between the stored and
/// the computed key (as `make_move` and `make_null_move` ensure), it is exact after it.
pub proof fn law_key_stays_exact(before: &Board, after: &Board)
    requires
        before.pos.key == zkey(before),
        after.pos.key ^ zkey(after) == before.pos.key ^ zkey(before),
    ensures
        after.pos.key == zkey(after),
{
    let k = after.pos.key;
    let z = zkey(after);
    lemma_xor(before.pos.key, before.pos.key, 0);
    assert(k ^ z == 0);
    lemma_xor(k, z, z);
    lemma_xor(z, z, 0);
    lemma_xor(k, 0, 0);
}

/// A score stored in the transposition table at some ply and read back at the same ply
/// is the score that was stored, for every score within a thousand of the limit.
pub proof fn law_table_score_round_trip(score: i32, ply: int)
    requires
        0 <= ply <= 1000,
        -(SCORE_LIMIT - 1000) <= score <= SCORE_LIMIT - 1000,
    ensures
        score_from_table(score_to_table(score, ply) as i32, ply) == score,
{
}

/// Taking back a null move restores the position: a board that `make_null_move`
/// produced from `before` (the same pieces, the other side to move, the old state pushed
/// on the history), whatever search happened in between as long as it left the position
/// as it found it, is turned back by `unmake_null_move` into the position of `before`.
pub proof fn law_null_move_restores(before: &Board, mid: &Board, after: &Board)
    requires
        mid.pieces == before.pieces,
        mid.piece_bb == before.piece_bb,
        mid.side_bb == before.side_bb,
        mid.turn == opp_of(before.turn),
        mid.history@ == before.history@.push(before.pos),
        after.pieces == mid.pieces,
        after.piece_bb == mid.piece_bb,
        after.side_bb == mid.side_bb,
        after.pos == mid.history@.last(),
        after.history@ == mid.history@.drop_last(),
        after.turn == opp_of(mid.turn),
    ensures
        same_game(after, before),
{
    assert(after.history@ =~= before.history@);
}

/// Mirroring a square twice gives it back: `m` is what `mirror` gives for `sq` (same
/// file, rank mirrored) and `mm` what it gives for `m`.
pub proof fn law_mirror_involution(sq: int, m: int, mm: int)
    requires
        0 <= sq < 64,
        0 <= m < 64,
        0 <= mm < 64,
        file_of(m) == file_of(sq),
        rank_of(m) == 7 - rank_of(sq),
        file_of(mm) == file_of(m),
        rank_of(mm) == 7 - rank_of(m),
    ensures
        mm == sq,
{
}


/// The damped change of the move ordering statistics keeps a statistic within 32768 of
/// zero: a statistic in that band stays in it after a change by any bonus a search
/// depth gives, in either direction.
pub proof fn law_gravity_stays_bounded(e: int, bonus: int)
    requires
        -32768 <= e <= 32768,
        -1200 <= bonus <= 1200,
    ensures
        -32768 <= e + gravity(e, bonus) <= 32768,
{
    let a = if bonus < 0 { -bonus } else { bonus };
    let m = if e < 0 { -e } else { e };
    let f = (a * m) / 32768;
    assert(0 <= a * m <= a * 32768) by (nonlinear_arith)
        requires
            0 <= a <= 1200,
            0 <= m <= 32768,
    ;
    assert(f * 32768 <= a * m < f * 32768 + 32768) by (nonlinear_arith)
        requires
            f == (a * m) / 32768,
            0 <= a * m,
    ;
    assert(a * m <= 32768 * m - (32768 - a) * m) by (nonlinear_arith)
        requires
            0 <= a <= 1200,
            0 <= m,
    ;
    assert((32768 - a) * (32768 - m) >= 0) by (nonlinear_arith)
        requires
            0 <= a <= 1200,
            0 <= m <= 32768,
    ;
    assert(a * m == a * 32768 - a * (32768 - m)) by (nonlinear_arith);
    assert(a * (32768 - m) <= 32768 * (32768 - m)) by (nonlinear_arith)
        requires
            0 <= a <= 1200,
            0 <= m <= 32768,
    ;
    assert(a * e == if e < 0 { -(a * m) } else { a * m }) by (nonlinear_arith)
        requires
            m == (if e < 0 { -e } else { e }),
    ;
}

/// A side holding both a knight and a bishop can still mate: whatever else stands on the
/// board, the position is not a draw by insufficient material.
pub proof fn law_knight_and_bishop_are_not_a_material_draw(b: &Board, c: int, n: int, s: int)
    requires
        b.wf(),
        0 <= c < 2,
        bit(b.piece_bb[1], n),
        bit(b.side_bb[c], n),
        bit(b.piece_bb[2], s),
        bit(b.side_bb[c], s),
    ensures
        !material_draw(b),
{
    assert(n != s);
    lemma_squares_finite(b.side_bb[c]);
    lemma_squares_finite(b.piece_bb[1]);
    lemma_squares_finite(b.piece_bb[2]);
    let side = squares(b.side_bb[c]);
    vstd::set::axiom_set_remove_len(side, n);
    assert(side.remove(n).contains(s));
    vstd::set_lib::lemma_set_empty_equivalency_len(side.remove(n));
    vstd::set_lib::lemma_set_empty_equivalency_len(squares(b.piece_bb[1]));
    vstd::set_lib::lemma_set_empty_equivalency_len(squares(b.piece_bb[2]));
    assert(squares(b.piece_bb[1]).contains(n));
    assert(squares(b.piece_bb[2]).contains(s));
    assert(side.len() >= 2);
}

/// A draw by insufficient material leaves at most one knight or bishop on the board, and
/// no pawn, rook or queen, unless both sides have nothing but their king.
pub proof fn law_material_draw_leaves_one_minor_at_most(b: &Board)
    requires
        b.wf(),
        material_draw(b),
    ensures
        (squares(b.side_bb[0]).len() == 1 && squares(b.side_bb[1]).len() == 1) || {
            &&& b.piece_bb[0] == 0
            &&& b.piece_bb[3] == 0
            &&& b.piece_bb[4] == 0
            &&& squares(b.piece_bb[1]).len() + squares(b.piece_bb[2]).len() <= 1
        },
{
}

/// Captures that do not lose material on their square are ordered before every capture
/// that does: whatever the victims and attackers, the good capture bonus outweighs the
/// difference, as long as the capture statistics stay within the bound that gravity
/// keeps them in.
pub proof fn law_good_captures_come_first(params: &MovegenParams, good: u16, rg: int, bad: u16, rb: int)
    requires
        params.wf(),
        params.heuristics.is_some() ==> forall|p: int, d: int, c: int|
            0 <= p < 12 && 0 <= d < 64 && 0 <= c < 6 ==> -32768 <= #[trigger] params.heuristics.unwrap().capture[p][d][c] <= 32768,
        gen_move_ok(params.board, good),
        gen_move_ok(params.board, bad),
        good != params.hash_move,
        bad != params.hash_move,
        flag_is_cap(move_flag(good)) && !flag_is_prom(move_flag(good)),
        flag_is_cap(move_flag(bad)) && !flag_is_prom(move_flag(bad)),
        move_score_ok(params, good, rg),
        move_score_ok(params, bad, rb),
        see_ge_spec(params.board, good, 0),
        !see_ge_spec(params.board, bad, 0),
    ensures
        rg > rb,
{
    let b = params.board;
    crate::see::lemma_piece_idx_range(b.at(move_src(good)));
    crate::see::lemma_piece_idx_range(b.at(move_src(bad)));
}

/// The evaluation is relative to the side to move: the same terms score for black the
/// negation of what they score for white, the tempo of 10 going to whoever moves.
pub proof fn law_black_scores_the_negation(total: int, pawns: (int, int), material: (int, int))
    ensures
        side_score(Player::Black, total, pawns, material) == -side_score(Player::White, total - 20, pawns, material),
        side_score(Player::White, total, pawns, material) + side_score(Player::Black, total + 20, pawns, material) == 0,
{
}

/// The low material correction treats the colours alike: swapping the sides' pawns and
/// pieces and negating the score negates the result.
pub proof fn law_low_material_colour_symmetric(s: int, pawns: (int, int), material: (int, int))
    ensures
        low_material_spec(-s, (pawns.1, pawns.0), (material.1, material.0)) == -low_material_spec(s, pawns, material),
{
    assert forall|x: int| #[trigger] crate::defs::trunc_div(-x, 2) == -crate::defs::trunc_div(x, 2) by {}
}

/// Mirroring the colours of a position mirrors its score for the side to move: black to
/// move in the mirrored position, whose terms sum to the negation, scores what white to
/// move scores in the original.
pub proof fn law_side_score_colour_symmetric(total: int, pawns: (int, int), material: (int, int))
    ensures
        side_score(Player::Black, -total, (pawns.1, pawns.0), (material.1, material.0)) == side_score(
            Player::White,
            total,
            pawns,
            material,
        ),
{
    law_low_material_colour_symmetric(total + 10, pawns, material);
    assert(-total - 10 == -(total + 10));
}

/// A side with nothing but its king is never ahead: whatever the other terms sum to, the
/// score of a side without pawns or pieces is at most zero, and that of its opponent at
/// least zero.
pub proof fn law_bare_king_is_never_ahead(total: int, pawns: int, material: int)
    requires
        pawns >= 0,
        material >= 0,
    ensures
        side_score(Player::Black, total, (pawns, 0), (material, 0)) <= 0,
        side_score(Player::White, total, (0, pawns), (0, material)) <= 0,
        side_score(Player::White, total, (pawns, 0), (material, 0)) >= 0,
        side_score(Player::Black, total, (0, pawns), (0, material)) >= 0,
{
}

/// The square `k` steps from `s` along a direction, while on the board, has the stepped
/// coordinates.
proof fn lemma_step_coords(s: int, dx: int, dy: int, k: int)
    requires
        0 <= s < 64,
        step_on_board(s, dx, dy, k),
    ensures
        0 <= sq_at(s, dx, dy, k) < 64,
        file_of(sq_at(s, dx, dy, k)) == file_of(s) + mul_dir(k, dx),
        rank_of(sq_at(s, dx, dy, k)) == rank_of(s) + mul_dir(k, dy),
{
    let f = file_of(s) + mul_dir(k, dx);
    let r = rank_of(s) + mul_dir(k, dy);
    vstd::arithmetic::div_mod::lemma_fundamental_div_mod_converse(8 * r + f, 8, r, f);
}

/// A square a slide from `s` reaches lies `k` steps away along both coordinates.
proof fn lemma_slide_coords(s: int, dx: int, dy: int, occ: u64, t: int) -> (k: int)
    requires
        0 <= s < 64,
        slide_hits(s, dx, dy, occ, t),
    ensures
        1 <= k <= 7,
        0 <= t < 64,
        file_of(t) == file_of(s) + mul_dir(k, dx),
        rank_of(t) == rank_of(s) + mul_dir(k, dy),
{
    let k = choose|k: int| 1 <= k <= 7 && reach(s, dx, dy, occ, k) && t == #[trigger] sq_at(s, dx, dy, k);
    lemma_step_coords(s, dx, dy, k);
    k
}

/// `t` lies on a diagonal through `s`, or on a rank or file through it.
pub open spec fn on_diagonal(s: int, t: int) -> bool {
    abs(file_of(t) - file_of(s)) == abs(rank_of(t) - rank_of(s)) && t != s
}

/// `t` lies on the rank or the file of `s`.
pub open spec fn on_line(s: int, t: int) -> bool {
    (file_of(t) == file_of(s) || rank_of(t) == rank_of(s)) && t != s
}

/// A slide from `to` along a direction never crosses a square `v` off that kind of line,
/// so taking `v` off the board changes nothing along it.
proof fn lemma_reach_without(to: int, dx: int, dy: int, occ: u64, v: int, k: int)
    requires
        0 <= to < 64,
        0 <= v < 64,
        is_dir(dx, dy),
        reach(to, dx, dy, occ ^ (1u64 << (v as u64)), k),
        dx != 0 && dy != 0 ==> !on_diagonal(to, v),
        dx == 0 || dy == 0 ==> !on_line(to, v),
    ensures
        reach(to, dx, dy, occ, k),
{
    assert forall|j: int| 1 <= j < k implies !#[trigger] bit(occ, sq_at(to, dx, dy, j)) by {
        assert(step_on_board(to, dx, dy, j));
        lemma_step_coords(to, dx, dy, j);
        let x = sq_at(to, dx, dy, j);
        assert(!bit(occ ^ (1u64 << (v as u64)), x));
        if x == v {
            assert(file_of(v) == file_of(to) + mul_dir(j, dx));
        }
    }
}

/// More empty squares never stop a slide.
proof fn lemma_reach_fewer(to: int, dx: int, dy: int, occ: u64, occ2: u64, k: int)
    requires
        reach(to, dx, dy, occ, k),
        forall|u: int| #[trigger] bit(occ2, u) ==> bit(occ, u),
    ensures
        reach(to, dx, dy, occ2, k),
{
}

/// The attackers of `to` on the occupancy `occ`.
pub open spec fn attackers_on(b: &Board, to: int, occ: u64) -> Set<int> {
    Set::new(|u: int| attacks_square(b, to, occ, u) && bit(occ, u))
}

/// Keeping the attackers of a square up to date through an exchange, as the exchange
/// does it (dropping the recapturer and adding the sliders behind it along its own
/// line), finds exactly the attackers of the square on the new occupancy: a recapture by
/// a pawn, knight, bishop, rook or queen that attacked `to` uncovers no other piece.
pub proof fn law_exchange_update_finds_every_attacker(b: &Board, to: int, occ: u64, v: int, i: int)
    requires
        b.wf(),
        0 <= to < 64,
        0 <= i < 5,
        bit(occ, v),
        bit(b.piece_bb[i], v),
        attacks_square(b, to, occ, v),
    ensures
        after_capture(b, to, occ ^ (1u64 << (v as u64)), attackers_on(b, to, occ), i) == attackers_on(
            b,
            to,
            occ ^ (1u64 << (v as u64)),
        ),
{
    let occ2 = occ ^ (1u64 << (v as u64));
    assert forall|u: int| #[trigger] bit(occ2, u) == (bit(occ, u) && u != v) by {}
    assert(0 <= v < 64);
    // Where the recapturer stands relative to `to`.
    assert(i == 0 ==> !on_line(to, v)) by {
        if i == 0 {
            assert(crate::attack::pawn_hits(to, Player::White, v) || crate::attack::pawn_hits(to, Player::Black, v));
        }
    }
    assert(i == 1 ==> !on_line(to, v) && !on_diagonal(to, v)) by {
        if i == 1 {
            assert(crate::attack::knight_hits(to, v));
        }
    }
    assert(i == 2 ==> !on_line(to, v)) by {
        if i == 2 {
            assert(bishop_hits(to, occ, v));
            if slide_hits(to, 1, 1, occ, v) {
                lemma_slide_coords(to, 1, 1, occ, v);
            } else if slide_hits(to, 1, -1, occ, v) {
                lemma_slide_coords(to, 1, -1, occ, v);
            } else if slide_hits(to, -1, -1, occ, v) {
                lemma_slide_coords(to, -1, -1, occ, v);
            } else {
                lemma_slide_coords(to, -1, 1, occ, v);
            }
        }
    }
    assert(i == 3 ==> !on_diagonal(to, v)) by {
        if i == 3 {
            assert(rook_hits(to, occ, v));
            if slide_hits(to, 0, 1, occ, v) {
                lemma_slide_coords(to, 0, 1, occ, v);
            } else if slide_hits(to, 1, 0, occ, v) {
                lemma_slide_coords(to, 1, 0, occ, v);
            } else if slide_hits(to, 0, -1, occ, v) {
                lemma_slide_coords(to, 0, -1, occ, v);
            } else {
                lemma_slide_coords(to, -1, 0, occ, v);
            }
        }
    }
    let lhs = after_capture(b, to, occ2, attackers_on(b, to, occ), i);
    let rhs = attackers_on(b, to, occ2);
    assert forall|u: int| lhs.contains(u) implies rhs.contains(u) by {
        if attackers_on(b, to, occ).contains(u) {
            assert forall|dx: int, dy: int, k: int| reach(to, dx, dy, occ, k) implies #[trigger] reach(to, dx, dy, occ2, k) by {
                lemma_reach_fewer(to, dx, dy, occ, occ2, k);
            }
        }
    }
    assert forall|u: int| rhs.contains(u) implies lhs.contains(u) by {
        if bishop_hits(to, occ2, u) && bit(b.piece_bb[2] | b.piece_bb[4], u) && !(i == 0 || i == 2 || i == 4) {
            assert(!on_diagonal(to, v));
            assert forall|dx: int, dy: int, k: int| dx != 0 && dy != 0 && is_dir(dx, dy) && reach(to, dx, dy, occ2, k)
                implies #[trigger] reach(to, dx, dy, occ, k) by {
                lemma_reach_without(to, dx, dy, occ, v, k);
            }
            assert(bishop_hits(to, occ, u));
        }
        if rook_hits(to, occ2, u) && bit(b.piece_bb[3] | b.piece_bb[4], u) && !(i == 3 || i == 4) {
            assert(!on_line(to, v));
            assert forall|dx: int, dy: int, k: int| (dx == 0 || dy == 0) && is_dir(dx, dy) && reach(to, dx, dy, occ2, k)
                implies #[trigger] reach(to, dx, dy, occ, k) by {
                lemma_reach_without(to, dx, dy, occ, v, k);
            }
            assert(rook_hits(to, occ, u));
        }
    }
    assert(lhs =~= rhs);
}

/// A capture that nothing can take back gains exactly its victim: when no piece of the
/// opponent attacks the square once the capture is made, the exchange test holds for a
/// threshold exactly when the captured piece is worth at least that much.
pub proof fn law_undefended_capture_gains_its_victim(b: &Board, m: u16, threshold: int)
    requires
        b.wf(),
        flag_is_cap(move_flag(m)),
        move_flag(m) != crate::bitmove::MoveFlag::EN_PASSANT,
        b.at(move_src(m)).t != crate::defs::PieceType::NoPiece,
        forall|u: int|
            #[trigger] attacks_square(
                b,
                move_dest(m),
                (b.occ() ^ (1u64 << (move_src(m) as u64))) ^ (1u64 << (move_dest(m) as u64)),
                u,
            ) ==> !bit(b.side_bb[crate::defs::player_idx(opp_of(b.at(move_src(m)).c))], u),
    ensures
        see_ge_spec(b, m, threshold) == (crate::defs::mg_value_of(b.at(move_dest(m)).t) >= threshold),
{
    let dest = move_dest(m);
    let piece = b.at(move_src(m));
    let occ = (b.occ() ^ (1u64 << (move_src(m) as u64))) ^ (1u64 << (dest as u64));
    let att = attackers_on(b, dest, occ);
    let s = usable(b, opp_of(piece.c), occ, att);
    assert forall|j: int, u: int| 0 <= j < 6 implies !#[trigger] of_type(b, s, j).contains(u) by {}
    lemma_cheapest_none(b, s, 0);
    assert(att =~= Set::new(|u: int| attacks_square(b, dest, occ, u) && bit(occ, u)));
}

} // verus!
