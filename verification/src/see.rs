//! Static exchange evaluation: does a capture win at least a given amount of material
//! once all recaptures on its square are played out?
use vstd::prelude::*;
use crate::bits::{bit, group_bits, squares, lemma_squares_finite, lemma_zero_iff_empty};
use crate::bitboard::{BitBoard, lsb, lemma_lsb};
use crate::bitmove::{BitMove, move_src, move_dest, move_flag, flag_is_cap, flag_is_prom, prom_type_of};
use crate::board::Board;
use crate::attack::{bishop_attacks, rook_attacks};
use crate::defs::{PieceType, Player, Score, Square, mg_value_of, pt_idx, player_idx, opp_of};
use crate::movegen::{attackers_to, smallest_attacker, typed_attacker};
use crate::makemove::{move_ok, pieces_after};
use crate::position::History;
use crate::bitmove::MoveFlag;
use crate::defs::Piece;
use crate::board::{empty_piece, lemma_wf_unique};

verus! {

broadcast use group_bits;

/// Squares holding a piece of some type from index `from` to the king.
pub open spec fn pieces_from(b: &Board, from: int) -> u64
    decreases 5 - from,
{
    if from >= 5 {
        b.piece_bb[5]
    } else {
        b.piece_bb[from] | pieces_from(b, from + 1)
    }
}

fn type_of_index(i: usize) -> (r: PieceType)
    requires
        i < 6,
    ensures
        pt_idx(r) == i,
{
    if i == 0 {
        PieceType::Pawn
    } else if i == 1 {
        PieceType::Knight
    } else if i == 2 {
        PieceType::Bishop
    } else if i == 3 {
        PieceType::Rook
    } else if i == 4 {
        PieceType::Queen
    } else {
        PieceType::King
    }
}

/// The attackers of a square `to` once a piece of type index `i` has recaptured on it and
/// left the occupancy `occ`: the earlier attackers `att` still standing, and the bishops,
/// rooks and queens that now see `to` through the square it vacated (behind a pawn,
/// bishop or queen on a diagonal, behind a rook or queen on a line).
pub open spec fn after_capture(b: &Board, to: int, occ: u64, att: Set<int>, i: int) -> Set<int> {
    Set::new(
        |u: int|
            bit(occ, u) && (att.contains(u) || ((i == 0 || i == 2 || i == 4) && crate::attack::bishop_hits(to, occ, u)
                && bit(b.piece_bb[2] | b.piece_bb[4], u)) || ((i == 3 || i == 4) && crate::attack::rook_hits(to, occ, u)
                && bit(b.piece_bb[3] | b.piece_bb[4], u))),
    )
}

/// The attackers among `att` that `stm` may recapture with: its own, without those pinned
/// to its king while every enemy pinner still stands on `occ`.
pub open spec fn usable(b: &Board, stm: Player, occ: u64, att: Set<int>) -> Set<int> {
    let pins_hold = b.pos.pinners[player_idx(opp_of(stm))] & !occ == 0;
    Set::new(
        |u: int|
            att.contains(u) && bit(b.side_bb[player_idx(stm)], u) && !(pins_hold && bit(
                b.pos.king_blockers[player_idx(stm)],
                u,
            )),
    )
}

/// The pieces of type index `i` among `s`.
pub open spec fn of_type(b: &Board, s: Set<int>, i: int) -> Set<int> {
    Set::new(|u: int| s.contains(u) && bit(b.piece_bb[i], u))
}

/// The lowest type index from `i` on of a piece among `s`; 6 when there is none.
pub open spec fn cheapest_type(b: &Board, s: Set<int>, i: int) -> int
    decreases 6 - i,
{
    if i >= 6 {
        6
    } else if exists|u: int| #[trigger] of_type(b, s, i).contains(u) {
        i
    } else {
        cheapest_type(b, s, i + 1)
    }
}

/// The lowest square of `s`.
pub open spec fn lowest(s: Set<int>) -> int {
    choose|t: int| s.contains(t) && forall|u: int| u < t ==> !#[trigger] s.contains(u)
}

/// Does `us` come out of the exchange on `to` even or ahead? `stm` recaptures next with
/// its cheapest usable attacker (the lowest square among those of that type), `balance`
/// being what the side that just captured is up before that recapture, negated; the
/// exchange stops when a side has nothing left to recapture with, or once a side's
/// recapture leaves its balance non-negative (a king's capture of a defended piece does
/// not count). `us` is ahead when the last side to capture is not `us`'s opponent.
pub open spec fn exchange_wins(b: &Board, to: int, us: Player, stm: Player, occ: u64, att: Set<int>, balance: int) -> bool
    decreases squares(occ).len(),
{
    let s = usable(b, stm, occ, att);
    let i = cheapest_type(b, s, 0);
    if i >= 6 || i < 0 {
        us != stm
    } else {
        let t = lowest(of_type(b, s, i));
        if !bit(occ, t) {
            us != stm
        } else {
            let occ2 = occ ^ (1u64 << (t as u64));
            let att2 = after_capture(b, to, occ2, att, i);
            let stm2 = opp_of(stm);
            let bal2 = -balance - 1 - crate::defs::MG_VALUE[i];
            if bal2 >= 0 {
                let back = i == 5 && exists|u: int| #[trigger] att2.contains(u) && bit(b.side_bb[player_idx(stm2)], u);
                us != (if back { stm } else { stm2 })
            } else {
                proof {
                    lemma_toggle_off(occ, t);
                    lemma_squares_finite(occ);
                }
                exchange_wins(b, to, us, stm2, occ2, att2, bal2)
            }
        }
    }
}

/// Does the capture `m` gain at least `threshold`? A move that captures nothing (or
/// captures en passant) gains nothing; otherwise the captured piece, less the capturer
/// if the exchange goes on, with every recapture on the square played out as
/// `exchange_wins` has it.
pub open spec fn see_ge_spec(b: &Board, m: u16, threshold: int) -> bool {
    let src = move_src(m);
    let dest = move_dest(m);
    let piece = b.at(src);
    let captured = b.at(dest).t;
    if !flag_is_cap(move_flag(m)) || move_flag(m) == MoveFlag::EN_PASSANT {
        threshold <= 0
    } else if piece.t == PieceType::NoPiece {
        false
    } else if mg_value_of(captured) - threshold < 0 {
        false
    } else if mg_value_of(captured) - threshold - mg_value_of(piece.t) >= 0 {
        true
    } else {
        let occ = (b.occ() ^ (1u64 << (src as u64))) ^ (1u64 << (dest as u64));
        let att = Set::new(|u: int| crate::movegen::attacks_square(b, dest, occ, u) && bit(occ, u));
        exchange_wins(b, dest, piece.c, opp_of(piece.c), occ, att, mg_value_of(captured) - threshold - mg_value_of(piece.t))
    }
}

/// With no piece among `s` from type `i` on, the cheapest type is none.
pub proof fn lemma_cheapest_none(b: &Board, s: Set<int>, i: int)
    requires
        0 <= i <= 6,
        forall|j: int, u: int| i <= j < 6 ==> !#[trigger] of_type(b, s, j).contains(u),
    ensures
        cheapest_type(b, s, i) == 6,
    decreases 6 - i,
{
    if i < 6 {
        lemma_cheapest_none(b, s, i + 1);
    }
}

/// The cheapest type is the first with a piece among `s`.
proof fn lemma_cheapest_is(b: &Board, s: Set<int>, i: int, k: int, u: int)
    requires
        0 <= i <= k < 6,
        of_type(b, s, k).contains(u),
        forall|j: int, w: int| i <= j < k ==> !#[trigger] of_type(b, s, j).contains(w),
    ensures
        cheapest_type(b, s, i) == k,
    decreases k - i,
{
    if i < k {
        lemma_cheapest_is(b, s, i + 1, k, u);
    }
}

/// The lowest square of a nonempty bitboard is its least significant bit.
proof fn lemma_lowest_lsb(x: u64)
    requires
        x != 0,
    ensures
        lowest(squares(x)) == lsb(x),
        0 <= lsb(x) < 64,
        bit(x, lsb(x)),
{
    lemma_lsb(x);
    let s = squares(x);
    let l = lsb(x);
    assert(s.contains(l) && forall|u: int| u < l ==> !#[trigger] s.contains(u));
    let c = lowest(s);
    assert(s.contains(c) && forall|u: int| u < c ==> !#[trigger] s.contains(u));
    if c < l {
        assert(s.contains(c));
    } else if l < c {
        assert(s.contains(l));
    }
}

/// A piece on the board has a colored piece index.
pub proof fn lemma_piece_idx_range(p: Piece)
    requires
        p.t != PieceType::NoPiece,
    ensures
        0 <= crate::defs::piece_idx(p) < 12,
        0 <= pt_idx(p.t) < 6,
{
}

/// Number of occupied squares among the first `n` entries of a mailbox.
pub open spec fn occupied_count(ps: Seq<Piece>, n: int) -> nat
    decreases n,
{
    if n <= 0 {
        0
    } else {
        occupied_count(ps, n - 1) + (if ps[n - 1].t != PieceType::NoPiece { 1nat } else { 0nat })
    }
}

/// Setting one square changes the count by what leaves and what arrives there.
pub proof fn lemma_count_update(ps: Seq<Piece>, i: int, v: Piece, n: int)
    requires
        0 <= i < ps.len(),
        0 <= n <= ps.len(),
    ensures
        occupied_count(ps.update(i, v), n) + (if i < n && ps[i].t != PieceType::NoPiece { 1int } else { 0int })
            == occupied_count(ps, n) + (if i < n && v.t != PieceType::NoPiece { 1int } else { 0int }),
    decreases n,
{
    if n > 0 {
        lemma_count_update(ps, i, v, n - 1);
    }
}

/// `(pi, t)` is the cheapest attacker of `side` on `sq`: type index `pi` on square `t`,
/// with no attacker of a lower type index and none of that type on a lower square.
pub open spec fn is_cheapest(b: &Board, sq: int, side: Player, pi: int, t: int) -> bool {
    &&& 0 <= pi < 6
    &&& typed_attacker(b, sq, side, pi, t)
    &&& forall|u: int| 0 <= u < t ==> !#[trigger] typed_attacker(b, sq, side, pi, u)
    &&& forall|pj: int, u: int| 0 <= pj < pi ==> !#[trigger] typed_attacker(b, sq, side, pj, u)
}

/// There is only one cheapest attacker.
proof fn lemma_cheapest_unique(b: &Board, sq: int, side: Player, p1: int, t1: int, p2: int, t2: int)
    requires
        is_cheapest(b, sq, side, p1, t1),
        is_cheapest(b, sq, side, p2, t2),
    ensures
        p1 == p2,
        t1 == t2,
{
    if p1 < p2 {
        assert(!typed_attacker(b, sq, side, p1, t1));
    } else if p2 < p1 {
        assert(!typed_attacker(b, sq, side, p2, t2));
    } else if t1 < t2 {
        assert(bit(b.piece_bb[p1] & b.side_bb[player_idx(side)], t1));
    } else if t2 < t1 {
        assert(bit(b.piece_bb[p2] & b.side_bb[player_idx(side)], t2));
    }
}

/// A well-formed board with mailbox `ps` and `turn` to move.
pub open spec fn board_with(ps: Seq<Piece>, turn: Player) -> Board {
    choose|nb: Board| nb.wf() && nb.pieces@ == ps && nb.turn == turn
}

/// The exchange on `dest` with the side to move capturing first: nothing if it has no
/// attacker there; otherwise its cheapest attacker takes, and the gain is the captured
/// piece's worth less the opponent's exchange value that follows, or zero if that is
/// less.
pub open spec fn see_spec(b: Board, dest: int) -> int
    decreases occupied_count(b.pieces@, 64),
{
    if exists|pi: int, t: int| is_cheapest(&b, dest, b.turn, pi, t) {
        let (pi, src) = choose|pi: int, t: int| is_cheapest(&b, dest, b.turn, pi, t);
        let ps2 = b.pieces@.update(src, empty_piece()).update(dest, b.pieces@[src]);
        let nb = board_with(ps2, opp_of(b.turn));
        if 0 <= src < 64 && 0 <= dest < 64 && src != dest && b.pieces@[src].t != PieceType::NoPiece
            && b.pieces@[dest].t != PieceType::NoPiece && nb.pieces@ == ps2 {
            proof {
                let p1 = b.pieces@.update(src, empty_piece());
                lemma_count_update(b.pieces@, src, empty_piece(), 64);
                lemma_count_update(p1, dest, b.pieces@[src], 64);
            }
            let v = mg_value_of(b.pieces@[dest].t) - see_spec(nb, dest);
            if v > 0 {
                v
            } else {
                0
            }
        } else {
            0
        }
    } else {
        0
    }
}

/// The exchange value on `dest` depends only on the mailbox and the side to move.
proof fn lemma_see_congruent(b1: Board, b2: Board, dest: int)
    requires
        b1.wf(),
        b2.wf(),
        b1.pieces@ == b2.pieces@,
        b1.turn == b2.turn,
    ensures
        see_spec(b1, dest) == see_spec(b2, dest),
{
    lemma_wf_unique(&b1, &b2);
    assert forall|pi: int, t: int| #[trigger] typed_attacker(&b1, dest, b1.turn, pi, t) == typed_attacker(
        &b2,
        dest,
        b2.turn,
        pi,
        t,
    ) by {}
    assert forall|pi: int, t: int| is_cheapest(&b1, dest, b1.turn, pi, t) implies #[trigger] is_cheapest(
        &b2,
        dest,
        b2.turn,
        pi,
        t,
    ) by {
        assert forall|u: int| 0 <= u < t implies !#[trigger] typed_attacker(&b2, dest, b2.turn, pi, u) by {
            assert(!typed_attacker(&b1, dest, b1.turn, pi, u));
        }
        assert forall|pj: int, u: int| 0 <= pj < pi implies !#[trigger] typed_attacker(&b2, dest, b2.turn, pj, u) by {
            assert(!typed_attacker(&b1, dest, b1.turn, pj, u));
        }
    }
    assert forall|pi: int, t: int| is_cheapest(&b2, dest, b2.turn, pi, t) implies #[trigger] is_cheapest(
        &b1,
        dest,
        b1.turn,
        pi,
        t,
    ) by {
        assert forall|u: int| 0 <= u < t implies !#[trigger] typed_attacker(&b1, dest, b1.turn, pi, u) by {
            assert(!typed_attacker(&b2, dest, b2.turn, pi, u));
        }
        assert forall|pj: int, u: int| 0 <= pj < pi implies !#[trigger] typed_attacker(&b1, dest, b1.turn, pj, u) by {
            assert(!typed_attacker(&b2, dest, b2.turn, pj, u));
        }
    }
    if exists|pi: int, t: int| is_cheapest(&b1, dest, b1.turn, pi, t) {
        let (p1, t1) = choose|pi: int, t: int| is_cheapest(&b1, dest, b1.turn, pi, t);
        let (p2, t2) = choose|pi: int, t: int| is_cheapest(&b2, dest, b2.turn, pi, t);
        assert(is_cheapest(&b2, dest, b2.turn, p1, t1));
        lemma_cheapest_unique(&b2, dest, b2.turn, p1, t1, p2, t2);
        assert(exists|pi: int, t: int| is_cheapest(&b2, dest, b2.turn, pi, t));
    } else {
        if exists|pi: int, t: int| is_cheapest(&b2, dest, b2.turn, pi, t) {
            let (p2, t2) = choose|pi: int, t: int| is_cheapest(&b2, dest, b2.turn, pi, t);
            assert(is_cheapest(&b1, dest, b1.turn, p2, t2));
        }
    }
}

/// The board a capture leads to, for its exchange value: the mailbox after the move
/// and the other side to move.
pub open spec fn board_after(b: &Board, m: u16) -> Board {
    board_with(pieces_after(b, m), opp_of(b.turn))
}

/// The type that lands on the destination of `m`: the promotion, or the moving piece.
pub open spec fn landed_type(b: &Board, m: u16) -> PieceType {
    if flag_is_prom(move_flag(m)) {
        prom_type_of(move_flag(m))
    } else {
        b.at(move_src(m)).t
    }
}

impl Board {
    /// Moves `piece` of the side to move from `src` onto `dest`, taking `captured` of the
    /// other side, and hands the move over; nothing else of the state is kept up to date.
    fn move_piece_cheap(&mut self, src: Square, dest: Square, piece: PieceType, captured: PieceType)
        requires
            old(self).wf(),
            0 <= src < 64,
            0 <= dest < 64,
            src != dest,
            piece != PieceType::NoPiece,
            captured != PieceType::NoPiece,
            old(self).at(src as int) == (Piece { t: piece, c: old(self).turn }),
            old(self).at(dest as int) == (Piece { t: captured, c: opp_of(old(self).turn) }),
        ensures
            final(self).wf(),
            final(self).pieces@ == old(self).pieces@.update(src as int, empty_piece()).update(
                dest as int,
                Piece { t: piece, c: old(self).turn },
            ),
            final(self).turn == opp_of(old(self).turn),
    {
        self.remove_piece(self.turn, piece, src);
        self.remove_piece(self.turn.opp(), captured, dest);
        self.add_piece(self.turn, piece, dest);
        self.turn = self.turn.opp();
    }

    /// What the side to move gains by capturing on `dest` with its cheapest attacker,
    /// then again with each side's cheapest attacker in turn, stopping where a capture
    /// would lose: never less than zero, never more than the piece on `dest` is worth.
    fn see(&mut self, dest: Square) -> (r: Score)
        requires
            old(self).wf(),
            0 <= dest < 64,
            old(self).at(dest as int).t != PieceType::NoPiece,
            old(self).at(dest as int).c == opp_of(old(self).turn),
        ensures
            final(self).wf(),
            0 <= r <= mg_value_of(old(self).at(dest as int).t),
            r == see_spec(*old(self), dest as int),
        decreases occupied_count(old(self).pieces@, 64),
    {
        let captured = self.piece_type(dest);
        let (attacker, src) = smallest_attacker(self, dest, self.turn);

        if attacker != PieceType::NoPiece {
            let ghost b0 = *self;
            proof {
                let pi = pt_idx(attacker);
                let si = player_idx(self.turn);
                assert(typed_attacker(self, dest as int, self.turn, pi, src as int));
                assert(bit(self.piece_bb[pi], src as int));
                assert(bit(self.side_bb[si], src as int));
                assert(0 <= src < 64);
                assert(self.at(src as int).t == attacker);
                assert(self.at(src as int).c == self.turn);
            }
            self.move_piece_cheap(src, dest, attacker, captured);
            proof {
                let p0 = b0.pieces@;
                let p1 = p0.update(src as int, empty_piece());
                lemma_count_update(p0, src as int, empty_piece(), 64);
                lemma_count_update(p1, dest as int, Piece { t: attacker, c: b0.turn }, 64);
            }
            let ghost b1 = *self;
            let gain = self.see(dest);
            proof {
                let pi = pt_idx(attacker);
                assert(is_cheapest(&b0, dest as int, b0.turn, pi, src as int));
                let (p2, t2) = choose|p: int, t: int| is_cheapest(&b0, dest as int, b0.turn, p, t);
                lemma_cheapest_unique(&b0, dest as int, b0.turn, pi, src as int, p2, t2);
                let ps2 = b0.pieces@.update(src as int, empty_piece()).update(dest as int, b0.pieces@[src as int]);
                assert(b1.pieces@ == ps2);
                let nb = board_with(ps2, opp_of(b0.turn));
                assert(b1.wf() && b1.pieces@ == ps2 && b1.turn == opp_of(b0.turn));
                lemma_see_congruent(b1, nb, dest as int);
            }
            let v = captured.mg_value() - gain;
            if v > 0 {
                v
            } else {
                0
            }
        } else {
            proof {
                if exists|pi: int, t: int| is_cheapest(self, dest as int, self.turn, pi, t) {
                    let (pi, t) = choose|pi: int, t: int| is_cheapest(self, dest as int, self.turn, pi, t);
                    assert(typed_attacker(self, dest as int, self.turn, pi, t));
                }
            }
            0
        }
    }

    /// The board without its history, for trying out a capture.
    fn scratch_copy(&self) -> (r: Board)
        ensures
            r.turn == self.turn,
            r.piece_bb == self.piece_bb,
            r.side_bb == self.side_bb,
            r.pieces == self.pieces,
            r.pos == self.pos,
            r.killers == self.killers,
            r.history@.len() == 0,
    {
        Board {
            turn: self.turn,
            piece_bb: self.piece_bb,
            side_bb: self.side_bb,
            pieces: self.pieces,
            pos: self.pos,
            history: History::new(),
            killers: self.killers,
        }
    }

    /// Static exchange value of capture `m`: the captured piece's worth less what the
    /// opponent then wins back on that square; zero for a move that captures nothing.
    pub fn see_capture(&self, m: u16) -> (r: Score)
        requires
            flag_is_cap(move_flag(m)) ==> move_ok(self, m) && move_flag(m) != MoveFlag::EN_PASSANT,
        ensures
            !flag_is_cap(move_flag(m)) ==> r == 0,
            flag_is_cap(move_flag(m)) ==> r == mg_value_of(self.at(move_dest(m)).t) - see_spec(
                board_after(self, m),
                move_dest(m),
            ),
            flag_is_cap(move_flag(m)) ==> mg_value_of(self.at(move_dest(m)).t) - mg_value_of(
                landed_type(self, m),
            ) <= r <= mg_value_of(self.at(move_dest(m)).t),
    {
        if !BitMove::is_cap(m) {
            return 0;
        }

        let captured = self.piece_type(BitMove::dest(m));
        let mut new_board = self.scratch_copy();
        proof {
            assert(new_board.pieces@ == self.pieces@);
            assert(move_ok(&new_board, m));
        }
        new_board.make_move(m);
        let dest = BitMove::dest(m);
        proof {
            assert(new_board.at(dest as int) == (Piece { t: landed_type(self, m), c: self.turn }));
        }
        let ghost after = new_board;
        let gain = new_board.see(dest);
        proof {
            let nb = board_after(self, m);
            assert(after.wf() && after.pieces@ == pieces_after(self, m) && after.turn == opp_of(self.turn));
            lemma_see_congruent(after, nb, dest as int);
        }
        captured.mg_value() - gain
    }

    /// The cheapest type, from `piece` upward, among `stm_attackers`: one such attacker is
    /// taken off `occ`, sliders it uncovers join `attackers`, and `attackers` is cut to `occ`.
    pub fn min_attacker(
        &self,
        piece: PieceType,
        to: Square,
        stm_attackers: u64,
        occ: &mut u64,
        attackers: &mut u64,
    ) -> (r: PieceType)
        requires
            0 <= to < 64,
            piece != PieceType::NoPiece,
            stm_attackers & pieces_from(self, pt_idx(piece)) != 0,
        ensures
            r != PieceType::NoPiece,
            pt_idx(piece) <= pt_idx(r),
            stm_attackers & self.piece_bb[pt_idx(r)] != 0,
            forall|i: int| pt_idx(piece) <= i < pt_idx(r) ==> stm_attackers & self.piece_bb[i] == 0,
            *final(occ) == *old(occ) ^ (1u64 << (lsb(stm_attackers & self.piece_bb[pt_idx(r)]) as u64)),
            forall|t: int| #[trigger] bit(*final(attackers), t) ==> bit(*final(occ), t),
            forall|t: int| bit(*old(attackers), t) && bit(*final(occ), t) ==> #[trigger] bit(*final(attackers), t),
            forall|t: int| #[trigger] bit(*final(attackers), t) ==> bit(*old(attackers), t) || bit(self.piece_bb[2] | self.piece_bb[3] | self.piece_bb[4], t),
            squares(*final(attackers)) == after_capture(self, to as int, *final(occ), squares(*old(attackers)), pt_idx(r)),
        decreases 5 - pt_idx(piece),
    {
        let bb = stm_attackers & self.piece_bb(piece);
        if bb == 0 {
            proof {
                assert(pt_idx(piece) < 5) by {
                    if pt_idx(piece) == 5 {
                        assert(stm_attackers & pieces_from(self, 5) == bb);
                    }
                }
                assert(stm_attackers & pieces_from(self, pt_idx(piece) + 1) != 0) by {
                    let x = stm_attackers & pieces_from(self, pt_idx(piece));
                    lemma_zero_iff_empty(x);
                    lemma_zero_iff_empty(bb);
                    lemma_zero_iff_empty(stm_attackers & pieces_from(self, pt_idx(piece) + 1));
                    let t = choose|t: int| #[trigger] bit(x, t);
                    let i = pt_idx(piece);
                    assert(pieces_from(self, i) == self.piece_bb[i] | pieces_from(self, i + 1));
                    assert(bit(stm_attackers, t));
                    assert(bit(pieces_from(self, i), t));
                    assert(!bit(self.piece_bb[i], t)) by {
                        assert(bb == stm_attackers & self.piece_bb[i]);
                        assert(!bit(bb, t));
                    }
                    assert(bit(pieces_from(self, i + 1), t));
                    assert(bit(stm_attackers & pieces_from(self, pt_idx(piece) + 1), t));
                }
            }
            let next = type_of_index(piece.as_usize() + 1);
            return self.min_attacker(next, to, stm_attackers, occ, attackers);
        }
        let sq = BitBoard::bit_scan_forward(bb);
        let ghost att0 = *attackers;
        *occ = *occ ^ BitBoard::from_sq(sq);
        if piece == PieceType::Pawn || piece == PieceType::Bishop || piece == PieceType::Queen {
            *attackers = *attackers | (bishop_attacks(to, *occ) & (self.piece_bb(PieceType::Bishop)
                | self.piece_bb(PieceType::Queen)));
        }
        if piece == PieceType::Rook || piece == PieceType::Queen {
            *attackers = *attackers | (rook_attacks(to, *occ) & (self.piece_bb(PieceType::Rook)
                | self.piece_bb(PieceType::Queen)));
        }
        *attackers = *attackers & *occ;
        proof {
            assert(squares(*attackers) =~= after_capture(self, to as int, *occ, squares(att0), pt_idx(piece)));
        }
        piece
    }
}


impl Board {
    /// Does the capture `m` gain at least `threshold` once the exchange on its destination
    /// is played out, each side recapturing with its cheapest piece and stopping when
    /// continuing would lose?
    pub fn see_ge(&self, m: u16, threshold: Score) -> (r: bool)
        requires
            self.wf(),
            -1_000_000_000 <= threshold <= 1_000_000_000,
        ensures
            !flag_is_cap(move_flag(m)) || move_flag(m) == crate::bitmove::MoveFlag::EN_PASSANT ==> r == (threshold <= 0),
            flag_is_cap(move_flag(m)) && move_flag(m) != crate::bitmove::MoveFlag::EN_PASSANT ==> {
                let piece = self.at(move_src(m));
                let captured = self.at(move_dest(m)).t;
                &&& piece.t == PieceType::NoPiece ==> !r
                &&& piece.t != PieceType::NoPiece && mg_value_of(captured) - threshold < 0 ==> !r
                &&& piece.t != PieceType::NoPiece && mg_value_of(captured) - threshold >= 0
                    && mg_value_of(captured) - threshold - mg_value_of(piece.t) >= 0 ==> r
                &&& piece.t != PieceType::NoPiece && mg_value_of(captured) - threshold >= 0 && !crate::movegen::attacked_by(
                    self,
                    move_dest(m),
                    self.side_bb[player_idx(opp_of(piece.c))],
                    (self.occ() ^ (1u64 << (move_src(m) as u64))) ^ (1u64 << (move_dest(m) as u64)),
                ) ==> r
            },
            r == see_ge_spec(self, m, threshold as int),
    {
        if !BitMove::is_cap(m) || BitMove::is_ep(m) {
            return threshold <= 0;
        }
        let src = BitMove::src(m);
        let dest = BitMove::dest(m);
        let piece = self.piece(src);
        let captured = self.piece_type(dest);
        if piece.is_none() {
            return false;
        }
        let us = piece.c;
        let mut stm = us.opp();
        let mut balance: i64 = (captured.mg_value() - threshold) as i64;
        if balance < 0 {
            return false;
        }
        // Recapture
        balance = balance - piece.t.mg_value() as i64;
        if balance >= 0 {
            return true;
        }
        // Remove the two pieces we just evaluated
        let mut occ = self.occ_bb() ^ BitBoard::from_sq(src) ^ BitBoard::from_sq(dest);
        let mut attackers = attackers_to(self, dest, occ) & occ;
        let ghost want = see_ge_spec(self, m, threshold as int);
        proof {
            assert(squares(attackers) =~= Set::new(|u: int| crate::movegen::attacks_square(self, dest as int, occ, u) && bit(occ, u)));
            assert(want == exchange_wins(self, dest as int, us, stm, occ, squares(attackers), balance as int));
        }
        let ghost quick = !crate::movegen::attacked_by(self, dest as int, self.side_bb[player_idx(stm)], occ);
        let ghost mut first = true;
        proof {
            lemma_squares_finite(occ);
            if quick {
                lemma_zero_iff_empty(attackers & self.side_bb[player_idx(stm)]);
                assert forall|t: int| !bit(attackers & self.side_bb[player_idx(stm)], t) by {
                    if bit(attackers & self.side_bb[player_idx(stm)], t) {
                        assert(bit(self.side_bb[player_idx(stm)], t) && crate::movegen::attacks_square(self, dest as int, occ, t));
                    }
                }
            }
        }
        proof {
            assert forall|t: int| #[trigger] bit(attackers, t) implies bit(pieces_from(self, 0), t) by {
                lemma_pieces_from_all(self);
            }
        }
        loop
            invariant_except_break
                exchange_wins(self, dest as int, us, stm, occ, squares(attackers), balance as int) == want,
            invariant
                self.wf(),
                0 <= dest < 64,
                -1_000_010_000 - 3000 * (64 - squares(occ).len()) <= balance <= 1_000_010_000 + 3000 * (64 - squares(occ).len()),
                squares(occ).finite(),
                squares(occ).len() <= 64,
                forall|t: int| #[trigger] bit(attackers, t) ==> bit(occ, t),
                forall|t: int| #[trigger] bit(attackers, t) ==> bit(pieces_from(self, 0), t),
                quick ==> first,
                first ==> stm == opp_of(us) && attackers & self.side_bb[player_idx(stm)] == 0 || !quick,
            ensures
                (us != stm) == want,
            decreases squares(occ).len(),
        {
            let ghost old_len = squares(occ).len();
            let ghost occ0 = occ;
            let ghost att0 = attackers;
            let ghost stm0 = stm;
            let ghost bal0 = balance as int;
            let next_capture = self.see_next(dest, stm, &mut occ, &mut attackers);
            if next_capture == PieceType::NoPiece {
                break;
            }
            proof {
                first = false;
            }
            stm = stm.opp();
            balance = -balance - 1 - next_capture.mg_value() as i64;
            proof {
                let i = pt_idx(next_capture);
                assert(crate::defs::MG_VALUE[i] == mg_value_of(next_capture));
                let x = attackers & self.side_bb[player_idx(stm)];
                lemma_zero_iff_empty(x);
                if x != 0 {
                    let u = choose|u: int| #[trigger] bit(x, u);
                    assert(squares(attackers).contains(u) && bit(self.side_bb[player_idx(stm)], u));
                } else {
                    assert forall|u: int| !(#[trigger] squares(attackers).contains(u) && bit(self.side_bb[player_idx(stm)], u)) by {
                        assert(!bit(x, u));
                    }
                }
            }
            if balance >= 0 {
                if next_capture == PieceType::King && (attackers & self.player_bb(stm) != 0) {
                    stm = stm.opp();
                }
                break;
            }
        }
        us != stm
    }
}


/// Every piece square lies in the union of all piece types.
proof fn lemma_pieces_from_all(b: &Board)
    ensures
        forall|t: int| #[trigger] bit(pieces_from(b, 0), t) == (bit(b.piece_bb[0], t) || bit(b.piece_bb[1], t)
            || bit(b.piece_bb[2], t) || bit(b.piece_bb[3], t) || bit(b.piece_bb[4], t) || bit(b.piece_bb[5], t)),
{
    assert(pieces_from(b, 0) == b.piece_bb[0] | pieces_from(b, 1));
    assert(pieces_from(b, 1) == b.piece_bb[1] | pieces_from(b, 2));
    assert(pieces_from(b, 2) == b.piece_bb[2] | pieces_from(b, 3));
    assert(pieces_from(b, 3) == b.piece_bb[3] | pieces_from(b, 4));
    assert(pieces_from(b, 4) == b.piece_bb[4] | pieces_from(b, 5));
}

/// Taking a present square off a bitboard removes exactly it from its square set.
pub proof fn lemma_toggle_off(old: u64, s: int)
    requires
        0 <= s < 64,
        bit(old, s),
    ensures
        squares(old ^ (1u64 << (s as u64))).finite(),
        squares(old ^ (1u64 << (s as u64))).len() + 1 == squares(old).len(),
{
    let n = old ^ (1u64 << (s as u64));
    assert forall|t: int| #[trigger] bit(n, t) == (bit(old, t) && t != s) by {}
    assert(squares(n) =~= squares(old).remove(s));
    lemma_squares_finite(old);
    assert(squares(old).contains(s));
}

/// Attackers found by `min_attacker` lie among the pieces.
proof fn lemma_attackers_pieces(b: &Board, old_attackers: u64, attackers: u64)
    requires
        forall|t: int| #[trigger] bit(old_attackers, t) ==> bit(pieces_from(b, 0), t),
        forall|t: int| #[trigger] bit(attackers, t) ==> bit(old_attackers, t) || bit(b.piece_bb[2] | b.piece_bb[3] | b.piece_bb[4], t),
    ensures
        forall|t: int| #[trigger] bit(attackers, t) ==> bit(pieces_from(b, 0), t),
{
    lemma_pieces_from_all(b);
}

impl Board {
    /// One recapture of the exchange on `dest`: the cheapest usable attacker of `stm` is
    /// taken off `occ` (attackers pinned to their king are unusable while all enemy pinners
    /// stand); `NoPiece` when `stm` has none.
    fn see_next(&self, dest: Square, stm: Player, occ: &mut u64, attackers: &mut u64) -> (r: PieceType)
        requires
            0 <= dest < 64,
            squares(*old(occ)).finite(),
            forall|t: int| #[trigger] bit(*old(attackers), t) ==> bit(*old(occ), t),
            forall|t: int| #[trigger] bit(*old(attackers), t) ==> bit(pieces_from(self, 0), t),
        ensures
            r == PieceType::NoPiece ==> *final(occ) == *old(occ) && *final(attackers) == *old(attackers),
            *old(attackers) & self.side_bb[player_idx(stm)] == 0 ==> r == PieceType::NoPiece,
            r != PieceType::NoPiece ==> squares(*final(occ)).len() + 1 == squares(*old(occ)).len(),
            squares(*final(occ)).finite(),
            forall|t: int| #[trigger] bit(*final(attackers), t) ==> bit(*final(occ), t),
            forall|t: int| #[trigger] bit(*final(attackers), t) ==> bit(pieces_from(self, 0), t),
            ({
                let s = usable(self, stm, *old(occ), squares(*old(attackers)));
                let i = cheapest_type(self, s, 0);
                &&& (r == PieceType::NoPiece) == (i >= 6)
                &&& 0 <= i <= 6
                &&& r != PieceType::NoPiece ==> {
                    let t = lowest(of_type(self, s, i));
                    &&& pt_idx(r) == i
                    &&& bit(*old(occ), t)
                    &&& *final(occ) == *old(occ) ^ (1u64 << (t as u64))
                    &&& squares(*final(attackers)) == after_capture(self, dest as int, *final(occ), squares(*old(attackers)), i)
                }
            }),
    {
        let ghost us_set = usable(self, stm, *occ, squares(*attackers));
        let mut stm_attackers = *attackers & self.player_bb(stm);
        proof {
            lemma_zero_iff_empty(*attackers & self.side_bb[player_idx(stm)]);
            lemma_zero_iff_empty(stm_attackers);
        }
        if self.pos.pinners[stm.opp().as_usize()] & !*occ == 0 {
            let ghost before = stm_attackers;
            stm_attackers = stm_attackers & !self.pos.king_blockers[stm.as_usize()];
            proof {
                lemma_zero_iff_empty(stm_attackers);
                if before == 0 {
                    assert forall|t: int| !bit(stm_attackers, t) by {
                        assert(!bit(before, t));
                    }
                }
            }
        }
        proof {
            assert(squares(stm_attackers) =~= us_set);
        }
        if stm_attackers == 0 {
            proof {
                lemma_zero_iff_empty(stm_attackers);
                assert forall|j: int, u: int| 0 <= j < 6 implies !#[trigger] of_type(self, us_set, j).contains(u) by {
                    assert(!bit(stm_attackers, u));
                }
                lemma_cheapest_none(self, us_set, 0);
            }
            return PieceType::NoPiece;
        }
        proof {
            lemma_zero_iff_empty(stm_attackers);
            lemma_zero_iff_empty(stm_attackers & pieces_from(self, 0));
            let t = choose|t: int| #[trigger] bit(stm_attackers, t);
            assert(bit(stm_attackers & pieces_from(self, 0), t));
        }
        let ghost old_occ = *occ;
        let ghost old_attackers = *attackers;
        let next_capture = self.min_attacker(PieceType::Pawn, dest, stm_attackers, occ, attackers);
        proof {
            let x = stm_attackers & self.piece_bb[pt_idx(next_capture)];
            lemma_lsb(x);
            assert(bit(stm_attackers, lsb(x)));
            assert(bit(old_attackers, lsb(x)));
            lemma_toggle_off(old_occ, lsb(x));
            lemma_attackers_pieces(self, old_attackers, *attackers);
            let i = pt_idx(next_capture);
            assert(bit(x, lsb(x)));
            assert(of_type(self, us_set, i).contains(lsb(x)));
            assert forall|j: int, w: int| 0 <= j < i implies !#[trigger] of_type(self, us_set, j).contains(w) by {
                lemma_zero_iff_empty(stm_attackers & self.piece_bb[j]);
                assert(!bit(stm_attackers & self.piece_bb[j], w));
            }
            lemma_cheapest_is(self, us_set, 0, i, lsb(x));
            assert(of_type(self, us_set, i) =~= squares(x));
            lemma_lowest_lsb(x);
        }
        next_capture
    }
}


impl Board {
    /// The material balance of `m` if nothing recaptures: the captured piece (a pawn for
    /// en passant) and the promotion gain, less the moving piece.
    pub fn see_approximate(&self, m: u16) -> (r: Score)
        ensures
            ({
                let piece = self.at(move_src(m)).t;
                let captured = if move_flag(m) == crate::bitmove::MoveFlag::EN_PASSANT {
                    PieceType::Pawn
                } else {
                    self.at(move_dest(m)).t
                };
                r == mg_value_of(captured) + (if flag_is_prom(move_flag(m)) {
                    mg_value_of(prom_type_of(move_flag(m))) - mg_value_of(piece)
                } else {
                    0
                }) - mg_value_of(piece)
            }),
    {
        let src = BitMove::src(m);
        let dest = BitMove::dest(m);
        let piece = self.piece_type(src);
        let captured = if BitMove::is_ep(m) {
            PieceType::Pawn
        } else {
            self.piece_type(dest)
        };
        let mut score = captured.mg_value();
        if BitMove::is_prom(m) {
            score = score + BitMove::prom_type(BitMove::flag(m)).mg_value() - piece.mg_value();
        }
        score - piece.mg_value()
    }
}

} // verus!
