//! Walking the tree of legal moves to a fixed depth, counting leaves and some of their
//! properties; the counts are compared with known values to test move generation.
use vstd::prelude::*;
use crate::bitmove::{BitMove, move_flag, flag_is_cap};
use crate::board::{Board, has_kings, lemma_wf_unique};
use crate::makemove::{move_ok, lemma_unmake_restores, dir_of};
use crate::movegen::{MovegenParams, ep_valid, legal_spec, king_step};
use crate::attack::king_hits;
use crate::bits::bit;
use crate::board::king_sq_of;
use crate::defs::player_idx;
use crate::movelist::MoveList;
use crate::defs::PieceType;

verus! {

/// Counts gathered while walking the move tree.
#[derive(Clone, Copy, Debug, PartialEq, Eq)]
pub struct PerftCounts {
    /// Leaves
    pub nodes: u64,
    /// Captures on the last ply, en passant included
    pub captures: u64,
    pub en_passants: u64,
    pub castles: u64,
    pub promotions: u64,
    /// Leaves where the side to move is in check
    pub checks: u64,
    /// Leaves where the side to move is in check and has no legal move
    pub check_mates: u64,
}

/// `ms` is a list of legal moves of `b` holding every legal king move onto a square
/// without a piece of the side to move and, out of check, every legal knight, bishop,
/// rook and queen move onto such a square, every legal pawn push, double push and
/// capture below the seventh rank, every legal promotion and every legal castling move.
pub open spec fn legal_list(b: &Board, ms: Seq<u16>) -> bool {
    &&& forall|i: int| 0 <= i < ms.len() ==> legal_spec(b, #[trigger] ms[i])
    &&& forall|d: int|
        king_hits(king_sq_of(b, b.turn), d) && !bit(b.side_bb[player_idx(b.turn)], d) && legal_spec(
            b,
            #[trigger] king_step(b, d),
        ) ==> ms.contains(king_step(b, d))
    &&& b.pos.checkers_bb == 0 ==> crate::movegen::legal_piece_moves_in(b, ms)
    &&& b.pos.checkers_bb == 0 ==> crate::movegen::legal_pawn_steps_in(b, ms)
    &&& b.pos.checkers_bb == 0 ==> crate::movegen::legal_castles_in(b, ms)
    &&& b.pos.checkers_bb == 0 ==> crate::movegen::legal_promotions_in(b, ms)
}

/// How many of the first `n` moves of `ms` can be played on `b`.
pub open spec fn playable(b: &Board, ms: Seq<u16>, n: int) -> nat
    decreases n,
{
    if n <= 0 {
        0
    } else {
        playable(b, ms, n - 1) + (if move_ok(b, ms[n - 1]) { 1nat } else { 0nat })
    }
}

/// Whether a move can be played depends only on the position.
proof fn lemma_same_game_move_ok(a: &Board, b: &Board, m: u16)
    requires
        same_game(a, b),
    ensures
        move_ok(a, m) == move_ok(b, m),
{
    assert(a.pieces == b.pieces) by {
        assert(a.pieces@ == b.pieces@);
    }
}

/// Both boards hold the same position: pieces, bitboards, state, side to move and
/// history.
pub open spec fn same_game(a: &Board, b: &Board) -> bool {
    &&& a.pieces@ == b.pieces@
    &&& a.piece_bb == b.piece_bb
    &&& a.side_bb == b.side_bb
    &&& a.pos == b.pos
    &&& a.turn == b.turn
    &&& a.history@ == b.history@
}

/// Both boards hold the same position and the same killer moves.
pub open spec fn same_position(a: &Board, b: &Board) -> bool {
    &&& same_game(a, b)
    &&& a.killers == b.killers
}

/// A position moves can be generated and played from.
pub open spec fn perft_ready(b: &Board) -> bool {
    &&& b.wf()
    &&& has_kings(b)
    &&& ep_valid(b)
}

/// `c` is the position `m` leads to from `b`: the pieces as the move leaves them, the
/// other side to move, castling rights, en passant square and fifty move counter as the
/// move sets them, and `b`'s state pushed on the history.
pub open spec fn child_of(b: &Board, m: u16, c: &Board) -> bool {
    &&& perft_ready(c)
    &&& c.pieces@ == crate::makemove::pieces_after(b, m)
    &&& c.turn == crate::defs::opp_of(b.turn)
    &&& c.pos.castling == crate::makemove::castling_after(b, m)
    &&& c.pos.ep_square == (if move_flag(m) == crate::bitmove::MoveFlag::DOUBLE_PAWN_PUSH {
        crate::bitmove::move_dest(m) - crate::makemove::dir_of(b.turn)
    } else {
        64
    })
    &&& c.pos.rule_fifty == (if b.at(crate::bitmove::move_src(m)).t == PieceType::Pawn || flag_is_cap(move_flag(m)) {
        0
    } else {
        b.pos.rule_fifty + 1
    })
    &&& c.pos.ply == b.pos.ply + 1
    &&& c.history@ == b.history@.push(b.pos)
}

/// The sum of `ns`.
pub open spec fn sum_of(ns: Seq<nat>) -> nat
    decreases ns.len(),
{
    if ns.len() == 0 {
        0
    } else {
        sum_of(ns.drop_last()) + ns.last()
    }
}

/// `n` leaves lie `depth` plies below `b` in the tree of legal moves: one at depth zero;
/// at depth one, as many as the legal moves of a list of them; deeper, the sum, over such
/// a list, of the leaves `depth - 1` plies below the position each move that can be
/// played leads to.
pub open spec fn leaves(b: Board, depth: nat, n: nat) -> bool
    decreases depth,
{
    if depth == 0 {
        n == 1
    } else if depth == 1 {
        exists|ms: Seq<u16>| legal_list(&b, ms) && n == ms.len()
    } else {
        exists|ms: Seq<u16>, cs: Seq<Board>, ns: Seq<nat>|
            #![trigger legal_list(&b, ms), cs.len(), ns.len()]
            {
                &&& legal_list(&b, ms)
                &&& cs.len() == ms.len()
                &&& ns.len() == ms.len()
                &&& forall|i: int| 0 <= i < ms.len() ==> if move_ok(&b, #[trigger] ms[i]) {
                    child_of(&b, ms[i], &cs[i]) && leaves(cs[i], (depth - 1) as nat, ns[i])
                } else {
                    ns[i] == 0
                }
                &&& n == sum_of(ns)
            }
    }
}

/// Plays `m`, which `move_ok` accepts, on a ready board; the result is ready again.
pub(crate) fn play(board: &mut Board, m: u16)
    requires
        perft_ready(old(board)),
        move_ok(old(board), m),
    ensures
        perft_ready(final(board)),
        final(board).wf(),
        final(board).pieces@ == crate::makemove::pieces_after(old(board), m),
        final(board).turn == crate::defs::opp_of(old(board).turn),
        final(board).history@ == old(board).history@.push(old(board).pos),
        final(board).killers == old(board).killers,
        final(board).pos.ply == old(board).pos.ply + 1,
        final(board).pos.captured_piece == (if flag_is_cap(move_flag(m)) && move_flag(m) != crate::bitmove::MoveFlag::EN_PASSANT {
            old(board).at(crate::bitmove::move_dest(m)).t
        } else {
            old(board).pos.captured_piece
        }),
        child_of(old(board), m, final(board)),
{
    board.make_move(m);
}

/// Takes back `m` from a board that holds the position `play` left; the board holds the
/// position it was played from again.
pub(crate) fn take_back(board: &mut Board, m: u16, Ghost(before): Ghost<Board>)
    requires
        perft_ready(&before),
        move_ok(&before, m),
        old(board).wf(),
        old(board).pieces@ == crate::makemove::pieces_after(&before, m),
        old(board).turn == crate::defs::opp_of(before.turn),
        old(board).history@ == before.history@.push(before.pos),
        old(board).pos.captured_piece == (if flag_is_cap(move_flag(m)) && move_flag(m) != crate::bitmove::MoveFlag::EN_PASSANT {
            before.at(crate::bitmove::move_dest(m)).t
        } else {
            before.pos.captured_piece
        }),
    ensures
        same_game(final(board), &before),
        final(board).killers == old(board).killers,
{
    proof {
        lemma_unmake_restores(before, m, *board);
    }
    board.unmake_move(m);
    proof {
        lemma_wf_unique(board, &before);
    }
}

impl PerftCounts {
    /// All counts zero.
    pub open spec fn zero_spec() -> PerftCounts {
        PerftCounts { nodes: 0, captures: 0, en_passants: 0, castles: 0, promotions: 0, checks: 0, check_mates: 0 }
    }
}

/// How many of the first `n` moves of `ms` satisfy `p`.
pub open spec fn count_where(ms: Seq<u16>, n: int, p: spec_fn(u16) -> bool) -> nat
    decreases n,
{
    if n <= 0 {
        0
    } else {
        count_where(ms, n - 1, p) + (if p(ms[n - 1]) { 1nat } else { 0nat })
    }
}

/// The counts of a walk one ply deep over the moves `ms` of `b`, from zero: a leaf per
/// playable move, and the captures, en passant captures, castlings and promotions among
/// the moves.
pub open spec fn one_ply_counts(b: &Board, ms: Seq<u16>, c: PerftCounts) -> bool {
    let n = ms.len() as int;
    &&& c.nodes == playable(b, ms, n)
    &&& c.captures == count_where(ms, n, |m: u16| flag_is_cap(move_flag(m)))
    &&& c.en_passants == count_where(ms, n, |m: u16| move_flag(m) == crate::bitmove::MoveFlag::EN_PASSANT)
    &&& c.castles == count_where(ms, n, |m: u16| move_flag(m) == crate::bitmove::MoveFlag::CASTLE_KING
        || move_flag(m) == crate::bitmove::MoveFlag::CASTLE_QUEEN)
    &&& c.promotions == count_where(ms, n, |m: u16| crate::bitmove::flag_is_prom(move_flag(m)))
}

/// Walks the tree below `board` for `depth` plies, adding to `perft`.
fn inner_perft_all(board: &mut Board, depth: u8, perft: &mut PerftCounts)
    requires
        perft_ready(old(board)),
    ensures
        same_position(final(board), old(board)),
        depth == 0 ==> final(perft).nodes == old(perft).nodes.wrapping_add(1),
        depth == 0 ==> final(perft).captures == old(perft).captures && final(perft).en_passants == old(perft).en_passants
            && final(perft).castles == old(perft).castles && final(perft).promotions == old(perft).promotions,
        depth == 1 && *old(perft) == PerftCounts::zero_spec() ==> exists|ms: Seq<u16>|
            legal_list(old(board), ms) && one_ply_counts(old(board), ms, *final(perft)),
    decreases depth,
{
    let moves = MoveList::legal(MovegenParams::simple(board));
    if depth == 0 {
        perft.nodes = perft.nodes.wrapping_add(1);
        if board.in_check() {
            perft.checks = perft.checks.wrapping_add(1);
            if moves.is_empty() {
                perft.check_mates = perft.check_mates.wrapping_add(1);
            }
        }
        return;
    }
    let ghost b0 = *board;
    let ghost start = *perft;
    let n = moves.size();
    let mut i: usize = 0;
    while i < n
        invariant
            perft_ready(board),
            same_position(board, &b0),
            perft_ready(&b0),
            moves.wf(),
            n == moves.moves().len(),
            i <= n,
            depth > 0,
            depth == 1 && start == PerftCounts::zero_spec() ==> {
                &&& perft.nodes == playable(&b0, moves.moves(), i as int)
                &&& perft.captures == count_where(moves.moves(), i as int, |m: u16| flag_is_cap(move_flag(m)))
                &&& perft.en_passants == count_where(moves.moves(), i as int, |m: u16| move_flag(m) == crate::bitmove::MoveFlag::EN_PASSANT)
                &&& perft.castles == count_where(moves.moves(), i as int, |m: u16| move_flag(m) == crate::bitmove::MoveFlag::CASTLE_KING
                    || move_flag(m) == crate::bitmove::MoveFlag::CASTLE_QUEEN)
                &&& perft.promotions == count_where(moves.moves(), i as int, |m: u16| crate::bitmove::flag_is_prom(move_flag(m)))
                &&& perft.nodes <= i && perft.captures <= i && perft.en_passants <= i && perft.castles <= i && perft.promotions <= i
            },
        decreases n - i,
    {
        let m = moves.get(i);
        proof {
            lemma_same_game_move_ok(board, &b0, m);
        }
        if depth == 1 {
            if BitMove::is_cap(m) {
                perft.captures = perft.captures.wrapping_add(1);
            }
            if BitMove::is_ep(m) {
                perft.en_passants = perft.en_passants.wrapping_add(1);
            }
            if BitMove::is_castle(m) {
                perft.castles = perft.castles.wrapping_add(1);
            }
            if BitMove::is_prom(m) {
                perft.promotions = perft.promotions.wrapping_add(1);
            }
        }
        if board.move_fits(m) {
            let ghost before = *board;
            play(board, m);
            inner_perft_all(board, depth - 1, perft);
            take_back(board, m, Ghost(before));
        }
        i = i + 1;
    }
    proof {
        if depth == 1 && start == PerftCounts::zero_spec() {
            assert(legal_list(&b0, moves.moves()));
            assert(one_ply_counts(&b0, moves.moves(), *perft));
        }
    }
}

/// Leaf counts of the tree of legal moves `depth` plies deep, with the captures, en
/// passant captures, castlings and promotions of its last ply, and the checks and
/// mates among its leaves. The board holds the same position afterwards.
/// A move that cannot be played here (`move_ok` fails: the history is full or the
/// fifty move counter would overflow) is skipped.
pub fn perft_counts(board: &mut Board, depth: u8) -> (r: PerftCounts)
    requires
        perft_ready(old(board)),
    ensures
        same_position(final(board), old(board)),
        depth == 0 ==> r.nodes == 1,
        depth == 1 ==> exists|ms: Seq<u16>| legal_list(old(board), ms) && one_ply_counts(old(board), ms, r),
{
    let mut perft = PerftCounts {
        nodes: 0,
        captures: 0,
        en_passants: 0,
        castles: 0,
        promotions: 0,
        checks: 0,
        check_mates: 0,
    };
    inner_perft_all(board, depth, &mut perft);
    perft
}

/// Number of leaves of the tree of legal moves `depth` plies deep, counted modulo 2^64.
fn inner_perft(board: &mut Board, depth: u8) -> (r: u64)
    requires
        perft_ready(old(board)),
    ensures
        same_position(final(board), old(board)),
        depth == 1 ==> exists|ms: Seq<u16>| legal_list(old(board), ms) && r == ms.len(),
        exists|n: nat| leaves(*old(board), depth as nat, n) && r == n % 0x1_0000_0000_0000_0000,
    decreases depth,
{
    if depth == 0 {
        proof {
            assert(leaves(*board, 0, 1));
        }
        return 1;
    }
    let moves = MoveList::legal(MovegenParams::simple(board));
    let ghost b0 = *board;
    let n = moves.size();
    if depth == 1 {
        proof {
            assert(legal_list(&b0, moves.moves()));
            assert(leaves(b0, 1, moves.moves().len()));
        }
        return n as u64;
    }
    let mut count: u64 = 0;
    let ghost mut cs: Seq<Board> = Seq::empty();
    let ghost mut ns: Seq<nat> = Seq::empty();
    let mut i: usize = 0;
    while i < n
        invariant
            perft_ready(board),
            same_position(board, &b0),
            perft_ready(&b0),
            moves.wf(),
            n == moves.moves().len(),
            i <= n,
            depth >= 2,
            cs.len() == i,
            ns.len() == i,
            forall|j: int| 0 <= j < i ==> if move_ok(&b0, #[trigger] moves.moves()[j]) {
                child_of(&b0, moves.moves()[j], &cs[j]) && leaves(cs[j], (depth - 1) as nat, ns[j])
            } else {
                ns[j] == 0
            },
            count == sum_of(ns) % 0x1_0000_0000_0000_0000,
        decreases n - i,
    {
        let m = moves.get(i);
        proof {
            lemma_same_game_move_ok(board, &b0, m);
        }
        let ghost mut child = b0;
        let ghost mut leaves_below: nat = 0;
        if board.move_fits(m) {
            let ghost before = *board;
            proof {
                assert(before.pieces == b0.pieces) by {
                    assert(before.pieces@ == b0.pieces@);
                }
            }
            play(board, m);
            proof {
                child = *board;
            }
            let add = if depth == 2 {
                let child_moves = MoveList::legal(MovegenParams::simple(board));
                proof {
                    assert(legal_list(&child, child_moves.moves()));
                    assert(leaves(child, 1, child_moves.moves().len()));
                    leaves_below = child_moves.moves().len();
                }
                child_moves.size() as u64
            } else {
                let k = inner_perft(board, depth - 1);
                proof {
                    leaves_below = choose|x: nat| #[trigger] leaves(child, (depth - 1) as nat, x) && k == x % 0x1_0000_0000_0000_0000;
                }
                k
            };
            take_back(board, m, Ghost(before));
            proof {
                lemma_wrapping_sum(count as nat, sum_of(ns), add as nat, leaves_below);
            }
            count = count.wrapping_add(add);
        }
        proof {
            let ns0 = ns;
            cs = cs.push(child);
            ns = ns.push(leaves_below);
            assert(ns.drop_last() =~= ns0);
        }
        i = i + 1;
    }
    proof {
        assert(legal_list(&b0, moves.moves()));
        assert(leaves(b0, depth as nat, sum_of(ns)));
    }
    count
}

/// Adding a count modulo 2^64 to a sum kept modulo 2^64 keeps the sum modulo 2^64.
proof fn lemma_wrapping_sum(c: nat, s: nat, a: nat, x: nat)
    requires
        c == s % 0x1_0000_0000_0000_0000,
        a == x % 0x1_0000_0000_0000_0000,
    ensures
        (if c + a >= 0x1_0000_0000_0000_0000 { c + a - 0x1_0000_0000_0000_0000 } else { c + a as int }) == (s + x) % 0x1_0000_0000_0000_0000,
{
    vstd::arithmetic::div_mod::lemma_add_mod_noop(s as int, x as int, 0x1_0000_0000_0000_0000);
}

/// Number of leaves of the tree of legal moves `depth` plies deep (`leaves`), counted
/// modulo 2^64. The board holds the same position afterwards.
/// Below the first two plies, a move that cannot be played here (`move_ok` fails: the
/// history is full or the fifty move counter would overflow) is skipped.
pub fn perft_nodes(board: &mut Board, depth: u8) -> (r: u64)
    requires
        perft_ready(old(board)),
    ensures
        same_position(final(board), old(board)),
        depth == 0 ==> r == 1,
        depth == 1 ==> exists|ms: Seq<u16>| legal_list(old(board), ms) && r == ms.len(),
        exists|n: nat| leaves(*old(board), depth as nat, n) && r == n % 0x1_0000_0000_0000_0000,
{
    inner_perft(board, depth)
}

/// `e` pairs a move of `b` with the leaves, modulo 2^64, `depth` plies below the position
/// the move leads to.
pub open spec fn divided(b: Board, depth: nat, e: (u16, u64)) -> bool {
    exists|c: Board, n: nat| #![trigger child_of(&b, e.0, &c), leaves(c, depth, n)]
        child_of(&b, e.0, &c) && leaves(c, depth, n) && e.1 == n % 0x1_0000_0000_0000_0000
}

/// The legal moves of the position, each with the number of leaves `depth - 1` plies
/// below it (`divided`). The board holds the same position afterwards.
/// A move that cannot be played here (`move_ok` fails: the history is full or the
/// fifty move counter would overflow) is skipped.
pub fn perft_divide(board: &mut Board, depth: u8) -> (r: Vec<(u16, u64)>)
    requires
        perft_ready(old(board)),
        depth >= 1,
    ensures
        same_position(final(board), old(board)),
        depth == 1 ==> forall|i: int| 0 <= i < r@.len() ==> (#[trigger] r@[i]).1 == 1,
        forall|i: int| 0 <= i < r@.len() ==> legal_spec(old(board), (#[trigger] r@[i]).0),
        forall|i: int| 0 <= i < r@.len() ==> divided(*old(board), (depth - 1) as nat, #[trigger] r@[i]),
        forall|d: int|
            king_hits(king_sq_of(old(board), old(board).turn), d) && !bit(old(board).side_bb[player_idx(old(board).turn)], d)
                && legal_spec(old(board), #[trigger] king_step(old(board), d)) && move_ok(old(board), king_step(old(board), d))
                ==> exists|i: int| 0 <= i < r@.len() && r@[i].0 == king_step(old(board), d),
{
    let moves = MoveList::legal(MovegenParams::simple(board));
    let ghost b0 = *board;
    let n = moves.size();
    let mut out: Vec<(u16, u64)> = Vec::new();
    let mut i: usize = 0;
    while i < n
        invariant
            perft_ready(board),
            same_position(board, &b0),
            perft_ready(&b0),
            moves.wf(),
            n == moves.moves().len(),
            i <= n,
            depth >= 1,
            depth == 1 ==> forall|j: int| 0 <= j < out@.len() ==> (#[trigger] out@[j]).1 == 1,
            legal_list(&b0, moves.moves()),
            forall|j: int| 0 <= j < out@.len() ==> legal_spec(&b0, (#[trigger] out@[j]).0),
            forall|j: int| 0 <= j < out@.len() ==> divided(b0, (depth - 1) as nat, #[trigger] out@[j]),
            forall|j: int| 0 <= j < i && move_ok(&b0, #[trigger] moves.moves()[j]) ==> exists|k: int| 0 <= k < out@.len() && out@[k].0 == moves.moves()[j],
        decreases n - i,
    {
        let m = moves.get(i);
        let ghost out0 = out@;
        proof {
            lemma_same_game_move_ok(board, &b0, m);
        }
        if board.move_fits(m) {
            let ghost before = *board;
            proof {
                assert(before.pieces == b0.pieces) by {
                    assert(before.pieces@ == b0.pieces@);
                }
            }
            play(board, m);
            let ghost child = *board;
            let add = inner_perft(board, depth - 1);
            proof {
                let x = choose|x: nat| #[trigger] leaves(child, (depth - 1) as nat, x) && add == x % 0x1_0000_0000_0000_0000;
                let e = (m, add);
                assert(child_of(&b0, e.0, &child) && leaves(child, (depth - 1) as nat, x) && e.1 == x % 0x1_0000_0000_0000_0000);
                assert(divided(b0, (depth - 1) as nat, e));
            }
            take_back(board, m, Ghost(before));
            out.push((m, add));
        }
        proof {
            assert forall|j: int| 0 <= j < out@.len() implies divided(b0, (depth - 1) as nat, #[trigger] out@[j]) by {
                if j < out0.len() {
                    assert(out@[j] == out0[j]);
                }
            }
            assert forall|j: int| 0 <= j < i + 1 && move_ok(&b0, #[trigger] moves.moves()[j]) implies exists|k: int| 0 <= k < out@.len() && out@[k].0 == moves.moves()[j] by {
                if j < i {
                    let k = choose|k: int| 0 <= k < out0.len() && out0[k].0 == moves.moves()[j];
                    assert(out@[k] == out0[k]);
                } else {
                    assert(out@[out0.len() as int].0 == moves.moves()[j]);
                }
            }
        }
        i = i + 1;
    }
    proof {
        let b = &b0;
        assert forall|d: int|
            king_hits(king_sq_of(b, b.turn), d) && !bit(b.side_bb[player_idx(b.turn)], d)
                && legal_spec(b, #[trigger] king_step(b, d)) && move_ok(b, king_step(b, d))
                implies exists|i: int| 0 <= i < out@.len() && out@[i].0 == king_step(b, d) by {
            let x = king_step(b, d);
            assert(moves.moves().contains(x));
            let j = choose|j: int| 0 <= j < moves.moves().len() && moves.moves()[j] == x;
            assert(move_ok(&b0, moves.moves()[j]));
        }
    }
    out
}

} // verus!
