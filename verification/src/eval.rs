//! Static evaluation: material, pawn structure, piece mobility and placement, king
//! shelter and safety, space, blended by game phase and returned from the side to move's
//! point of view.
use vstd::prelude::*;
use crate::bits::{bit, squares, group_bits};
use crate::bitboard::BitBoard;
use crate::board::{Board, has_kings};
use crate::attack::{attacks, knight_attacks, rook_attacks};
use crate::defs::{Eval, Piece, PieceType, Player, Score, Square, DARK_SQUARES, LIGHT_SQUARES, PHASE_MAX, SMALL_CENTER, pt_idx, player_idx};
use crate::movegen::{pawn_caps, pawn_push};
use crate::params::{BACKWARD_PAWN, BISHOP_OPP_PAWN_COLOR, BISHOP_PAIR_BONUS, BISHOP_PAWN_COLOR, CONNECTED_KNIGHT, CONNECTED_ROOK, DOUBLED_PAWN, ISOLATED_PAWN, KING_OPEN, KING_SEMI_OPEN, KNIGHT_PAIR_PENALTY, KNIGHT_PAWN_ADJUSTMENT, OPP_ROOK_BEHIND_PASSER, OUTPOST_KNIGHT, PASSED_PAWN_SCORE, PAWN_ATTACK, PAWN_BEHIND_CENTER, PAWN_DEFENDED, PAWN_DOUBLE_PUSH, PAWN_PUSH, PIECE_VALUE, ROOK_BEHIND_PASSER, ROOK_KING_ALIGNED, ROOK_ON_SEVENTH, ROOK_PAWN_ADJUSTMENT, SAFETY_TABLE, SHIELD_MISSING, SHIELD_MISSING_ON_OPEN_FILE, SUPPORTED_KNIGHT};
use crate::tables::{distance, passed, shielding, king_zone, CENTER_DISTANCE};
use crate::utils::{east_one, file_fill, fill_down, fill_up, front_span, ranks_in_front_of, west_one};

verus! {

broadcast use group_bits;

/// Contribution of each piece type to the game phase; 24 is the opening.
pub const GAME_PHASE_INC: [Score; 6] = [0, 1, 1, 2, 4, 0];

/// Central squares on each side's half that its pieces want to control.
pub const SAFE_MASK: [u64; 2] = [0x3c3c3c00, 0x3c3c3c00000000];

/// Both components lie within `k` of zero.
pub open spec fn ebound(e: Eval, k: int) -> bool {
    -k <= e.0 <= k && -k <= e.1 <= k
}

/// The parameter pair as an evaluation.
fn ev(p: [Score; 2]) -> (r: Eval)
    ensures
        r == Eval(p[0], p[1]),
{
    Eval(p[0], p[1])
}

/// Number of squares of `bb`.
fn cnt(bb: u64) -> (r: i32)
    ensures
        r == squares(bb).len(),
        0 <= r <= 64,
{
    BitBoard::count(bb) as i32
}

/// The parameter pair scaled by a count `n`.
fn scaled(p: [Score; 2], n: i32) -> (r: Eval)
    requires
        -3000 <= p[0] <= 3000,
        -3000 <= p[1] <= 3000,
        0 <= n <= 64,
    ensures
        r == Eval((p[0] * n) as i32, (p[1] * n) as i32),
        ebound(r, 200_000),
{
    proof {
        assert(-192_000 <= p[0] * n <= 192_000) by (nonlinear_arith)
            requires
                -3000 <= p[0] <= 3000,
                0 <= n <= 64,
        ;
        assert(-192_000 <= p[1] * n <= 192_000) by (nonlinear_arith)
            requires
                -3000 <= p[1] <= 3000,
                0 <= n <= 64,
        ;
    }
    Eval(p[0] * n, p[1] * n)
}

/// The parameter pair scaled by a count of piece pairs `n`.
fn scaled_pairs(p: [Score; 2], n: i32) -> (r: Eval)
    requires
        -20 <= p[0] <= 20,
        -20 <= p[1] <= 20,
        0 <= n <= 4096,
    ensures
        r == Eval((p[0] * n) as i32, (p[1] * n) as i32),
        ebound(r, 100_000),
{
    proof {
        assert(-81_920 <= p[0] * n <= 81_920) by (nonlinear_arith)
            requires
                -20 <= p[0] <= 20,
                0 <= n <= 4096,
        ;
        assert(-81_920 <= p[1] * n <= 81_920) by (nonlinear_arith)
            requires
                -20 <= p[1] <= 20,
                0 <= n <= 4096,
        ;
    }
    Eval(p[0] * n, p[1] * n)
}

/// Componentwise sum of two evaluations within bounds.
fn plus(a: Eval, b: Eval) -> (r: Eval)
    requires
        ebound(a, 1_000_000_000),
        ebound(b, 1_000_000_000),
    ensures
        r == Eval((a.0 + b.0) as i32, (a.1 + b.1) as i32),
{
    Eval(a.0 + b.0, a.1 + b.1)
}

/// Data gathered while evaluating: per side, the material and the accumulated terms, the
/// pawns, the squares attacked, the king and the attack on the enemy king.
pub struct EvalInfo {
    phase: Score,
    material: [Eval; 2],
    mob: [Eval; 2],
    tropism: [Eval; 2],
    king_shield: [Eval; 2],
    adjust_material: [Eval; 2],
    /// Middlegame value of the knights, bishops, rooks and queens
    piece_material: [Score; 2],
    pawn_count: [Score; 2],
    // Attack data
    pawns: [u64; 2],
    att_count: [Score; 2],
    att_weight: [Score; 2],
    attacked_by: [u64; 2],
    attack_by_pawns: [u64; 2],
    king_sq: [Square; 2],
    king_bb: [u64; 2],
}

impl EvalInfo {
    /// The terms gathered for side `i` within their bounds, its king on the board.
    pub closed spec fn side_ok(&self, i: int) -> bool {
        &&& ebound(self.material[i], 400_000)
        &&& ebound(self.mob[i], 100_000)
        &&& ebound(self.tropism[i], 0)
        &&& ebound(self.king_shield[i], 300)
        &&& ebound(self.adjust_material[i], 20_000)
        &&& 0 <= self.piece_material[i] <= 400_000
        &&& 0 <= self.pawn_count[i] <= 64
        &&& 0 <= self.att_count[i] <= 64
        &&& 0 <= self.att_weight[i] <= 64 * 36
        &&& 0 <= self.king_sq[i] < 64
    }

    /// Every gathered term within its bound, the kings on the board.
    pub closed spec fn wf(&self) -> bool {
        &&& 0 <= self.phase <= 64 * 24
        &&& self.side_ok(0)
        &&& self.side_ok(1)
    }

    /// The pawn counts and piece material gathered are those of `b`.
    pub closed spec fn counts_of(&self, b: &Board) -> bool {
        &&& self.pawn_count[0] == count_of(b, Player::White, 0)
        &&& self.pawn_count[1] == count_of(b, Player::Black, 0)
        &&& self.piece_material[0] == piece_material_of(b, Player::White)
        &&& self.piece_material[1] == piece_material_of(b, Player::Black)
    }

    /// The evaluation data of `board` before any term is added.
    pub fn init(board: &Board) -> (r: EvalInfo)
        requires
            has_kings(board),
        ensures
            r.wf(),
            r.counts_of(board),
    {
        let king_w = board.player_piece_bb(Player::White, PieceType::King);
        let king_b = board.player_piece_bb(Player::Black, PieceType::King);
        let ksq_w = BitBoard::bit_scan_forward(king_w);
        let ksq_b = BitBoard::bit_scan_forward(king_b);
        let pawns_w = board.player_piece_bb(Player::White, PieceType::Pawn);
        let pawns_b = board.player_piece_bb(Player::Black, PieceType::Pawn);
        let (mat_w, nonpawn_w, phase_w) = side_material(board, Player::White);
        let (mat_b, nonpawn_b, phase_b) = side_material(board, Player::Black);
        let apw = pawn_caps(pawns_w, Player::White);
        let apb = pawn_caps(pawns_b, Player::Black);
        let r = EvalInfo {
            phase: phase_w + phase_b,
            material: [mat_w, mat_b],
            mob: [Eval(0, 0), Eval(0, 0)],
            tropism: [Eval(0, 0), Eval(0, 0)],
            king_shield: [Eval(0, 0), Eval(0, 0)],
            adjust_material: [Eval(0, 0), Eval(0, 0)],
            piece_material: [nonpawn_w, nonpawn_b],
            pawn_count: [cnt(pawns_w), cnt(pawns_b)],
            pawns: [pawns_w, pawns_b],
            att_count: [0, 0],
            att_weight: [0, 0],
            attacked_by: [apw, apb],
            attack_by_pawns: [apw, apb],
            king_sq: [ksq_w, ksq_b],
            king_bb: [king_w, king_b],
        };
        r
    }
}

/// Number of pieces of `side` of type index `i`.
pub open spec fn count_of(b: &Board, side: Player, i: int) -> int {
    squares(b.piece_bb[i] & b.side_bb[player_idx(side)]).len() as int
}

/// Middlegame value of the knights, bishops, rooks and queens of `side`.
pub open spec fn piece_material_of(b: &Board, side: Player) -> int {
    PIECE_VALUE[1][0] * count_of(b, side, 1) + PIECE_VALUE[2][0] * count_of(b, side, 2) + PIECE_VALUE[3][0]
        * count_of(b, side, 3) + PIECE_VALUE[4][0] * count_of(b, side, 4)
}

/// Neither side has a pawn, and neither has pieces worth a rook: no side can be winning.
pub open spec fn bare_material(b: &Board) -> bool {
    &&& count_of(b, Player::White, 0) == 0
    &&& count_of(b, Player::Black, 0) == 0
    &&& piece_material_of(b, Player::White) < PIECE_VALUE[3][0]
    &&& piece_material_of(b, Player::Black) < PIECE_VALUE[3][0]
}

/// Material of `side` by piece values, the middlegame value of its pieces other than
/// pawns, and its contribution to the game phase.
fn side_material(board: &Board, side: Player) -> (r: (Eval, Score, Score))
    ensures
        ebound(r.0, 400_000),
        0 <= r.1 <= 400_000,
        0 <= r.2 <= 32 * 24,
        r.1 == piece_material_of(board, side),
{
    let p = cnt(board.player_piece_bb(side, PieceType::Pawn));
    let n = cnt(board.player_piece_bb(side, PieceType::Knight));
    let b = cnt(board.player_piece_bb(side, PieceType::Bishop));
    let rk = cnt(board.player_piece_bb(side, PieceType::Rook));
    let q = cnt(board.player_piece_bb(side, PieceType::Queen));
    let mg = PIECE_VALUE[0][0] * p + PIECE_VALUE[1][0] * n + PIECE_VALUE[2][0] * b + PIECE_VALUE[3][0] * rk
        + PIECE_VALUE[4][0] * q;
    let eg = PIECE_VALUE[0][1] * p + PIECE_VALUE[1][1] * n + PIECE_VALUE[2][1] * b + PIECE_VALUE[3][1] * rk
        + PIECE_VALUE[4][1] * q;
    let nonpawn = PIECE_VALUE[1][0] * n + PIECE_VALUE[2][0] * b + PIECE_VALUE[3][0] * rk + PIECE_VALUE[4][0] * q;
    let phase = GAME_PHASE_INC[1] * n + GAME_PHASE_INC[2] * b + GAME_PHASE_INC[3] * rk + GAME_PHASE_INC[4] * q;
    (Eval(mg, eg), nonpawn, phase)
}


/// Bounds of the parameter tables read at a computed index.
proof fn lemma_params()
    ensures
        forall|i: int| 0 <= i < 9 ==> -100 <= #[trigger] KNIGHT_PAWN_ADJUSTMENT[i][0] <= 100 && -100 <= KNIGHT_PAWN_ADJUSTMENT[i][1] <= 100,
        forall|i: int| 0 <= i < 9 ==> -100 <= #[trigger] ROOK_PAWN_ADJUSTMENT[i][0] <= 100 && -100 <= ROOK_PAWN_ADJUSTMENT[i][1] <= 100,
        forall|i: int| 0 <= i < 8 ==> -140 <= #[trigger] PASSED_PAWN_SCORE[i][0] <= 140 && -140 <= PASSED_PAWN_SCORE[i][1] <= 140,
        forall|i: int| 0 <= i < 4 ==> -70 <= #[trigger] SHIELD_MISSING[i][0] <= 0 && -70 <= SHIELD_MISSING[i][1] <= 0,
        forall|i: int| 0 <= i < 4 ==> -70 <= #[trigger] SHIELD_MISSING_ON_OPEN_FILE[i][0] <= 0 && -70 <= SHIELD_MISSING_ON_OPEN_FILE[i][1] <= 0,
        forall|i: int| 0 <= i < 100 ==> 0 <= #[trigger] SAFETY_TABLE[i] <= 500,
        forall|i: int| 0 <= i < 64 ==> 0 <= #[trigger] CENTER_DISTANCE[i] <= 6,
{
    assert forall|i: int| 0 <= i < 100 implies 0 <= #[trigger] SAFETY_TABLE[i] <= 500 by {
        assert(SAFETY_TABLE@ == seq![
            0i32, 0, 1, 2, 3, 5, 7, 9, 12, 15,
            18, 22, 26, 30, 35, 39, 44, 50, 56, 62,
            68, 75, 82, 85, 89, 97, 105, 113, 122, 131,
            140, 150, 169, 180, 191, 202, 213, 225, 237, 248,
            260, 272, 283, 295, 307, 319, 330, 342, 354, 366,
            377, 389, 401, 412, 424, 436, 448, 459, 471, 483,
            494, 500, 500, 500, 500, 500, 500, 500, 500, 500,
            500, 500, 500, 500, 500, 500, 500, 500, 500, 500,
            500, 500, 500, 500, 500, 500, 500, 500, 500, 500,
            500, 500, 500, 500, 500, 500, 500, 500, 500, 500,
        ]);
    }
}

/// Structural evaluation of a knight, bishop, rook, queen or king on `sq`, from white's
/// perspective: its free, attacking and defending squares; attacks on the enemy king
/// zone count toward king safety.
fn mobility(board: &Board, piece: Piece, sq: Square, eval: &mut EvalInfo) -> (r: Eval)
    requires
        old(eval).wf(),
        0 <= sq < 64,
        piece.t != PieceType::NoPiece,
        piece.t != PieceType::Pawn,
    ensures
        final(eval).wf(),
        ebound(r, 500),
        final(eval).phase == old(eval).phase,
        final(eval).material == old(eval).material,
        final(eval).mob == old(eval).mob,
        final(eval).king_shield == old(eval).king_shield,
        final(eval).adjust_material == old(eval).adjust_material,
        final(eval).piece_material == old(eval).piece_material,
        final(eval).pawn_count == old(eval).pawn_count,
        final(eval).pawns == old(eval).pawns,
        final(eval).attack_by_pawns == old(eval).attack_by_pawns,
        final(eval).king_sq == old(eval).king_sq,
        final(eval).king_bb == old(eval).king_bb,
        final(eval).tropism == old(eval).tropism,
        r.0 == r.1,
        piece.c == Player::White ==> r.0 >= 0,
        piece.c == Player::Black ==> r.0 <= 0,
        final(eval).attacked_by[1 - player_idx(piece.c)] == old(eval).attacked_by[1 - player_idx(piece.c)],
        final(eval).att_count[1 - player_idx(piece.c)] == old(eval).att_count[1 - player_idx(piece.c)],
        final(eval).att_weight[1 - player_idx(piece.c)] == old(eval).att_weight[1 - player_idx(piece.c)],
        forall|t: int| #[trigger] bit(final(eval).attacked_by[player_idx(piece.c)], t) == (bit(
            old(eval).attacked_by[player_idx(piece.c)],
            t,
        ) || (crate::attack::piece_hits(piece.t, sq as int, board.occ(), piece.c, t) && bit(board.occ(), t) && !bit(
            board.side_bb[player_idx(piece.c)],
            t,
        ))),
{
    let occ = board.occ_bb();
    let my_bb = board.player_bb(piece.c);
    let opp_bb = occ & !my_bb;
    let us = piece.c.as_usize();
    let opp = 1 - us;
    let opp_king_sq = eval.king_sq[opp];
    let opp_king_zone = king_zone(opp_king_sq);

    let moves = attacks(piece.t, sq, occ, piece.c);
    let att = moves & opp_bb;
    let open = match piece.t {
        PieceType::Knight | PieceType::Bishop => moves & !occ & !eval.attack_by_pawns[opp],
        _ => moves & !occ,
    };
    eval.attacked_by[us] = eval.attacked_by[us] | att;

    let open = cnt(open);
    let att = cnt(att);
    let def = cnt(moves & my_bb);
    let king_att_cnt = cnt(moves & !my_bb & opp_king_zone);

    // This score is in millipawns
    let score = match piece.t {
        PieceType::Knight => 20 * open + 35 * att + 15 * def,
        PieceType::Bishop => 17 * open + 30 * att + 15 * def,
        PieceType::Rook => 15 * open + 20 * att + 15 * def,
        PieceType::Queen => 5 * open + 15 * att + 8 * def,
        _ => 2 * open + 8 * att + 10 * def,
    } / 10;

    let king_att_score = match piece.t {
        PieceType::Queen => 4 * king_att_cnt,
        PieceType::Rook => 3 * king_att_cnt,
        PieceType::Bishop | PieceType::Knight => 2 * king_att_cnt,
        _ => 0,
    };

    if king_att_score > 0 && eval.att_count[us] < 64 && eval.att_weight[us] <= 64 * 36 - 256 {
        eval.att_count[us] = eval.att_count[us] + 1;
        eval.att_weight[us] = eval.att_weight[us] + king_att_score;
    }

    match piece.c {
        Player::White => Eval(score, score),
        _ => Eval(-score, -score),
    }
}

/// Points for driving the lone enemy king to the edge and bringing the own king closer,
/// once pawns are gone and the side to move is a rook or more ahead.
fn mopup_eval(board: &Board, eval: &mut EvalInfo)
    requires
        old(eval).wf(),
    ensures
        final(eval).wf(),
        final(eval).material == old(eval).material,
        final(eval).king_shield == old(eval).king_shield,
        final(eval).adjust_material == old(eval).adjust_material,
        final(eval).phase == old(eval).phase,
        final(eval).piece_material == old(eval).piece_material,
        final(eval).pawn_count == old(eval).pawn_count,
        final(eval).pawns == old(eval).pawns,
        final(eval).attack_by_pawns == old(eval).attack_by_pawns,
        final(eval).king_sq == old(eval).king_sq,
        final(eval).king_bb == old(eval).king_bb,
        final(eval).tropism == old(eval).tropism,
        final(eval).att_count == old(eval).att_count,
        final(eval).att_weight == old(eval).att_weight,
        forall|i: int| 0 <= i < 2 ==> (#[trigger] final(eval).mob[i]).0 == old(eval).mob[i].0,
{
    proof {
        lemma_params();
    }
    // Don't apply mop-up when there are still pawns on the board
    if board.piece_bb(PieceType::Pawn) != 0 {
        return;
    }
    // Only apply mopup when we're up on material, require at least a rook
    let us = board.turn.as_usize();
    let opp = 1 - us;
    let diff = eval.material[us].1 - eval.material[opp].1;
    if diff < PieceType::Rook.eg_value() - 100 {
        return;
    }
    let king_sq = eval.king_sq[us];
    let opp_king_sq = eval.king_sq[opp];
    // 4.7 per step of the enemy king from the centre, 1.6 per step the kings are closer
    // than 14, truncated
    let center_dist = CENTER_DISTANCE[opp_king_sq as usize];
    let kings_dist = 14 - distance(king_sq, opp_king_sq);
    let mopup = (47 * center_dist + 16 * kings_dist) / 10;
    if eval.mob[us].1 <= 100_000 - 100 {
        eval.mob[us] = Eval(eval.mob[us].0, eval.mob[us].1 + mopup);
    }
}

/// The files met by a king shield, lowest square first: how many lack an own pawn on
/// the shield (at most three), and how many of those also have no enemy pawn in front of
/// the king, counted on from `m` and `o`.
pub open spec fn shield_counts(shield: u64, pawns: u64, opp_pawns: u64, span: u64, m: int, o: int) -> (int, int)
    decreases shield,
{
    let sq = crate::bitboard::lsb(shield);
    let f = BitBoard::FILE_A << ((sq % 8) as u64);
    if shield != 0 && 0 <= sq < 64 && shield & !f < shield {
        let miss = shield & pawns & f == 0 && m < 3;
        let m2 = if miss { m + 1 } else { m };
        let o2 = if miss && opp_pawns & span & f == 0 { o + 1 } else { o };
        shield_counts(shield & !f, pawns, opp_pawns, span, m2, o2)
    } else {
        (m, o)
    }
}

/// Penalty for shield files without an own pawn on the shield squares, more when the
/// enemy has no pawn in front of the king on that file either.
fn missing_shield_pawns(pawn_shield: u64, pawns: u64, opp_pawns: u64, king_front_span: u64) -> (r: Eval)
    ensures
        ebound(r, 200),
        ({
            let (m, o) = shield_counts(pawn_shield, pawns, opp_pawns, king_front_span, 0, 0);
            &&& 0 <= o <= m <= 3
            &&& r == Eval(
                (SHIELD_MISSING[m][0] + SHIELD_MISSING_ON_OPEN_FILE[o][0]) as i32,
                (SHIELD_MISSING[m][1] + SHIELD_MISSING_ON_OPEN_FILE[o][1]) as i32,
            )
        }),
{
    proof {
        lemma_params();
    }
    let mut shield = pawn_shield;
    let mut pawns_missing: usize = 0;
    let mut pawns_open_file_missing: usize = 0;
    while shield != 0
        invariant
            pawns_missing <= 3,
            pawns_open_file_missing <= pawns_missing,
            shield_counts(pawn_shield, pawns, opp_pawns, king_front_span, 0, 0) == shield_counts(
                shield,
                pawns,
                opp_pawns,
                king_front_span,
                pawns_missing as int,
                pawns_open_file_missing as int,
            ),
        decreases shield,
    {
        let ghost s0 = shield;
        let ghost pm0 = pawns_missing as int;
        let ghost po0 = pawns_open_file_missing as int;
        let sq = BitBoard::bit_scan_forward(shield);
        let file_bb = BitBoard::file_bb(sq);
        if shield & pawns & file_bb == 0 && pawns_missing < 3 {
            pawns_missing = pawns_missing + 1;
            if opp_pawns & king_front_span & file_bb == 0 {
                pawns_open_file_missing = pawns_open_file_missing + 1;
            }
        }
        let ghost old_shield = shield;
        shield = shield & !file_bb;
        proof {
            assert(bit(old_shield, sq as int) && bit(file_bb, sq as int));
            crate::movegen::lemma_pop_decreases(old_shield, sq as u64);
            lemma_and_not_le(old_shield, file_bb, sq as u64);
            assert(shield_counts(s0, pawns, opp_pawns, king_front_span, pm0, po0) == shield_counts(
                shield,
                pawns,
                opp_pawns,
                king_front_span,
                pawns_missing as int,
                pawns_open_file_missing as int,
            ));
        }
    }
    proof {
        assert(shield_counts(shield, pawns, opp_pawns, king_front_span, pawns_missing as int, pawns_open_file_missing as int)
            == (pawns_missing as int, pawns_open_file_missing as int));
    }
    plus(ev(SHIELD_MISSING[pawns_missing]), ev(SHIELD_MISSING_ON_OPEN_FILE[pawns_open_file_missing]))
}

proof fn lemma_and_not_le(a: u64, m: u64, t: u64)
    by (bit_vector)
    requires
        t < 64,
        (a >> t) & 1u64 == 1u64,
        (m >> t) & 1u64 == 1u64,
    ensures
        a & !m < a,
{
}

/// Penalties for a king on an open or half-open file and for missing shield pawns.
fn king_pawn_shield(eval: &mut EvalInfo)
    requires
        old(eval).wf(),
    ensures
        final(eval).wf(),
        final(eval).material == old(eval).material,
        final(eval).mob == old(eval).mob,
        final(eval).adjust_material == old(eval).adjust_material,
        final(eval).phase == old(eval).phase,
        final(eval).piece_material == old(eval).piece_material,
        final(eval).pawn_count == old(eval).pawn_count,
        final(eval).pawns == old(eval).pawns,
        final(eval).attack_by_pawns == old(eval).attack_by_pawns,
        final(eval).king_sq == old(eval).king_sq,
        final(eval).king_bb == old(eval).king_bb,
        final(eval).tropism == old(eval).tropism,
        final(eval).att_count == old(eval).att_count,
        final(eval).att_weight == old(eval).att_weight,
{
    let w_pawns = eval.pawns[0];
    let b_pawns = eval.pawns[1];
    let w_king_sq = eval.king_sq[0];
    let b_king_sq = eval.king_sq[1];
    let mut ws = Eval(0, 0);
    let mut bs = Eval(0, 0);

    // punish king on open or semi-open file
    if (w_pawns | b_pawns) & BitBoard::file_bb(w_king_sq) == 0 {
        ws = ev(KING_OPEN);
    } else if w_pawns & BitBoard::file_bb(w_king_sq) == 0 {
        ws = ev(KING_SEMI_OPEN);
    }
    if (w_pawns | b_pawns) & BitBoard::file_bb(b_king_sq) == 0 {
        bs = ev(KING_OPEN);
    } else if b_pawns & BitBoard::file_bb(b_king_sq) == 0 {
        bs = ev(KING_SEMI_OPEN);
    }

    let w_pawn_shield = shielding(Player::White, w_king_sq);
    let w_king_front_span = ranks_in_front_of(Player::White, w_king_sq);
    ws = plus(ws, missing_shield_pawns(w_pawn_shield, w_pawns, b_pawns, w_king_front_span));

    let b_pawn_shield = shielding(Player::Black, b_king_sq);
    let b_king_front_span = ranks_in_front_of(Player::Black, b_king_sq);
    bs = plus(bs, missing_shield_pawns(b_pawn_shield, b_pawns, w_pawns, b_king_front_span));

    eval.king_shield = [ws, bs];
}

/// Bonuses and penalties for pairs of minor pieces, and for knights and rooks by the
/// number of own pawns.
fn adjust_material(board: &Board, eval: &mut EvalInfo)
    requires
        old(eval).wf(),
    ensures
        final(eval).wf(),
        final(eval).material == old(eval).material,
        final(eval).mob == old(eval).mob,
        final(eval).king_shield == old(eval).king_shield,
        final(eval).phase == old(eval).phase,
        final(eval).piece_material == old(eval).piece_material,
        final(eval).pawn_count == old(eval).pawn_count,
        final(eval).pawns == old(eval).pawns,
        final(eval).attack_by_pawns == old(eval).attack_by_pawns,
        final(eval).king_sq == old(eval).king_sq,
        final(eval).king_bb == old(eval).king_bb,
        final(eval).tropism == old(eval).tropism,
        final(eval).att_count == old(eval).att_count,
        final(eval).att_weight == old(eval).att_weight,
{
    let w = side_adjustment(board, Player::White);
    let b = side_adjustment(board, Player::Black);
    eval.adjust_material = [w, b];
}

proof fn lemma_small_product(a: int, n: int)
    by (nonlinear_arith)
    requires
        -100 <= a <= 100,
        0 <= n <= 64,
    ensures
        -6400 <= a * n <= 6400,
{
}

/// Material adjustment of one side. Pawn counts beyond eight use the entry for eight.
fn side_adjustment(board: &Board, side: Player) -> (r: Eval)
    ensures
        ebound(r, 20_000),
{
    proof {
        lemma_params();
    }
    let bishops = cnt(board.player_piece_bb(side, PieceType::Bishop));
    let knights = cnt(board.player_piece_bb(side, PieceType::Knight));
    let rooks = cnt(board.player_piece_bb(side, PieceType::Rook));
    let pawns = cnt(board.player_piece_bb(side, PieceType::Pawn));
    let p = if pawns > 8 { 8usize } else { pawns as usize };
    let mut r = Eval(0, 0);
    if bishops > 1 {
        r = ev(BISHOP_PAIR_BONUS);
    }
    if knights > 1 {
        r = plus(r, ev(KNIGHT_PAIR_PENALTY));
    }
    let ka = scaled(KNIGHT_PAWN_ADJUSTMENT[p], knights);
    let ra = scaled(ROOK_PAWN_ADJUSTMENT[p], rooks);
    proof {
        lemma_small_product(KNIGHT_PAWN_ADJUSTMENT[p as int][0] as int, knights as int);
        lemma_small_product(KNIGHT_PAWN_ADJUSTMENT[p as int][1] as int, knights as int);
        lemma_small_product(ROOK_PAWN_ADJUSTMENT[p as int][0] as int, rooks as int);
        lemma_small_product(ROOK_PAWN_ADJUSTMENT[p as int][1] as int, rooks as int);
    }
    r = plus(r, ka);
    r = plus(r, ra);
    r
}

/// Reward the control of space on our side of the board
fn eval_space(board: &Board, side: Player, eval: &EvalInfo, non_pawn_material: Score) -> (r: Score)
    requires
        eval.wf(),
    ensures
        0 <= r <= 600_000,
        non_pawn_material < 11551 ==> r == 0,
        non_pawn_material >= 11551 ==> ({
            let us = player_idx(side);
            let opp_att = eval.attack_by_pawns[1 - us];
            let my_pawns = eval.pawns[us];
            let safe = SAFE_MASK[us] & !my_pawns & !opp_att;
            let behind = if side == Player::White {
                my_pawns | (my_pawns >> 8u64) | (my_pawns >> 16u64)
            } else {
                my_pawns | (my_pawns << 8u64) | (my_pawns << 16u64)
            };
            let bonus = squares(safe).len() + squares(behind & safe & !opp_att).len();
            let minors = squares(board.piece_bb[2]).len() + squares(board.piece_bb[1]).len();
            let w = if minors > 64 { 64 } else { minors as int };
            r == bonus * w * w / 16
        }),
{
    // Space isn't important if there aren't pieces to control it, so return early
    if non_pawn_material < 11551 {
        return 0;
    }
    let us = side.as_usize();
    let opp = 1 - us;
    let my_pawns = eval.pawns[us];
    let safe = SAFE_MASK[us] & !my_pawns & !eval.attack_by_pawns[opp];
    let behind = match side {
        Player::White => my_pawns | (my_pawns >> 8u64) | (my_pawns >> 16u64),
        _ => my_pawns | (my_pawns << 8u64) | (my_pawns << 16u64),
    };
    let bonus = cnt(safe) + cnt(behind & safe & !eval.attack_by_pawns[opp]);
    // Increase space evaluation weight in positions with many minor pieces
    let minors = cnt(board.piece_bb(PieceType::Bishop)) + cnt(board.piece_bb(PieceType::Knight));
    let weight = if minors > 64 { 64 } else { minors };
    proof {
        assert(0 <= bonus * weight <= 128 * 64) by (nonlinear_arith)
            requires
                0 <= bonus <= 128,
                0 <= weight <= 64,
        ;
        assert(0 <= bonus * weight * weight <= 128 * 64 * 64) by (nonlinear_arith)
            requires
                0 <= bonus * weight <= 128 * 64,
                0 <= weight <= 64,
        ;
    }
    bonus * weight * weight / 16
}

/// Knight terms of `side`: supported knights and outposts, and knights defending each other.
fn eval_knights(board: &Board, side: Player, eval: &EvalInfo) -> (r: Eval)
    requires
        eval.wf(),
    ensures
        ebound(r, 50_000),
{
    let us = side.as_usize();
    let opp = 1 - us;
    let opp_pawns = eval.pawns[opp];
    let all = board.player_piece_bb(side, PieceType::Knight);
    let mut knights = all;
    let mut supported = knights & eval.attack_by_pawns[us];
    let mut score = Eval(0, 0);
    let mut seen: i32 = 0;
    while supported != 0
        invariant
            0 <= seen <= 64,
            ebound(score, 35 * seen),
        decreases supported,
    {
        let ghost old_bb = supported;
        let sq = BitBoard::pop_lsb(&mut supported);
        proof {
            crate::movegen::lemma_pop_decreases(old_bb, sq as u64);
        }
        if seen < 64 {
            score = plus(score, ev(SUPPORTED_KNIGHT));
            // An outpost can't be attacked by a pawn on the neighbouring files
            if passed(side, sq) & opp_pawns & !BitBoard::file_bb(sq) == 0 {
                score = plus(score, ev(OUTPOST_KNIGHT));
            }
            seen = seen + 1;
        }
    }
    let mut connected: i32 = 0;
    let mut n: i32 = 0;
    while knights != 0
        invariant
            0 <= n <= 64,
            0 <= connected <= 64 * n,
        decreases knights,
    {
        let ghost old_bb = knights;
        let sq = BitBoard::pop_lsb(&mut knights);
        proof {
            crate::movegen::lemma_pop_decreases(old_bb, sq as u64);
        }
        if n < 64 {
            let moves = knight_attacks(sq);
            connected = connected + cnt(moves & knights);
            n = n + 1;
        }
    }
    plus(score, scaled_pairs(CONNECTED_KNIGHT, connected))
}

/// Bishop terms of `side`: own and enemy pawns on the colour of its bishops.
fn eval_bishops(board: &Board, side: Player, eval: &EvalInfo) -> (r: Eval)
    requires
        eval.wf(),
    ensures
        ebound(r, 3000),
{
    let us = side.as_usize();
    let opp = 1 - us;
    let my_pawns = eval.pawns[us];
    let opp_pawns = eval.pawns[opp];
    let bishops = board.player_piece_bb(side, PieceType::Bishop);
    let mut score = Eval(0, 0);
    if bishops & DARK_SQUARES != 0 {
        score = plus(score, scaled(BISHOP_PAWN_COLOR, cnt(my_pawns & DARK_SQUARES)));
        score = plus(score, scaled(BISHOP_OPP_PAWN_COLOR, cnt(opp_pawns & DARK_SQUARES)));
    }
    if bishops & LIGHT_SQUARES != 0 {
        score = plus(score, scaled(BISHOP_PAWN_COLOR, cnt(my_pawns & LIGHT_SQUARES)));
        score = plus(score, scaled(BISHOP_OPP_PAWN_COLOR, cnt(opp_pawns & LIGHT_SQUARES)));
    }
    score
}

/// Rook terms of `side`: rooks on the seventh, on the enemy king's file, and connected.
fn eval_rooks(board: &Board, side: Player, eval: &EvalInfo) -> (r: Eval)
    requires
        eval.wf(),
    ensures
        ebound(r, 100_000),
{
    let us = side.as_usize();
    let opp = 1 - us;
    let opp_king_bb = eval.king_bb[opp];
    let opp_king_file = BitBoard::file_bb(eval.king_sq[opp]);
    let occ = board.occ_bb();
    let opp_pawns = eval.pawns[opp];
    let all = board.player_piece_bb(side, PieceType::Rook);
    let mut rooks = all;
    let mut score = Eval(0, 0);

    // Rooks on seventh rank are only valuable if they cut of the king
    // or can goble up some pawns
    if opp_king_bb & side.rank_8() != 0 || opp_pawns & side.rank_7() != 0 {
        score = scaled(ROOK_ON_SEVENTH, cnt(rooks & side.rank_7()));
    }
    // Align an attack on enemy king
    score = plus(score, scaled(ROOK_KING_ALIGNED, cnt(rooks & opp_king_file)));

    // Connected rooks
    let mut connected: i32 = 0;
    let mut n: i32 = 0;
    while BitBoard::several(rooks)
        invariant
            0 <= n <= 64,
            0 <= connected <= 64 * n,
        decreases rooks,
    {
        let ghost old_bb = rooks;
        proof {
            crate::bits::lemma_zero_iff_no_squares(rooks);
        }
        let sq = BitBoard::pop_lsb(&mut rooks);
        proof {
            crate::movegen::lemma_pop_decreases(old_bb, sq as u64);
        }
        if n < 64 {
            let moves = rook_attacks(sq, occ);
            connected = connected + cnt(moves & rooks);
            n = n + 1;
        }
    }
    plus(score, scaled_pairs(CONNECTED_ROOK, connected))
}

/// Pawn structure of `side`: defended, central, mobile, doubled, isolated, backward and
/// passed pawns, and rooks behind passers.
fn eval_pawns(board: &Board, side: Player, eval: &EvalInfo) -> (r: Eval)
    requires
        eval.wf(),
    ensures
        ebound(r, 60_000),
{
    proof {
        lemma_params();
    }
    let occ = board.occ_bb();
    let us = side.as_usize();
    let opp = 1 - us;
    let my_pawns = eval.pawns[us];
    let opp_pawns = eval.pawns[opp];
    let my_pawn_attacks = eval.attack_by_pawns[us];
    let opp_pawn_attacks = eval.attack_by_pawns[opp];

    // Defended pawns
    let supported = my_pawns & my_pawn_attacks;
    let mut score = scaled(PAWN_DEFENDED, cnt(supported));

    // Pawns controlling centre of the board
    let num_pawns_behind_center = cnt(my_pawns & pawn_caps(SMALL_CENTER, side.opp()));
    score = plus(score, scaled(PAWN_BEHIND_CENTER, num_pawns_behind_center));

    // Pawn mobility
    let attacks = pawn_caps(my_pawns & !side.rank_7(), side);
    let pushes = pawn_push(my_pawns, side) & !occ;
    let double_pushes = pawn_push(pushes & side.rank_3(), side);
    score = plus(score, scaled(PAWN_ATTACK, cnt(attacks)));
    score = plus(score, scaled(PAWN_PUSH, cnt(pushes)));
    score = plus(score, scaled(PAWN_DOUBLE_PUSH, cnt(double_pushes)));

    // Doubled and isolated pawns
    let my_front_span = front_span(side, my_pawns);
    let num_doubled = cnt(my_pawns & my_front_span);
    let num_isolated = cnt(file_fill(my_pawns) & !west_one(my_pawns) & !east_one(my_pawns));
    score = plus(score, scaled(DOUBLED_PAWN, num_doubled));
    score = plus(score, scaled(ISOLATED_PAWN, num_isolated));

    // Backward pawns
    let my_attack_spans = fill_up(side, my_pawn_attacks);
    let stops = !my_attack_spans & opp_pawn_attacks;
    let my_backward_area = fill_down(side, stops);
    let num_backward = cnt(my_backward_area & my_pawns);
    score = plus(score, scaled(BACKWARD_PAWN, num_backward));

    plus(score, eval_passers(board, side, eval))
}

/// The middlegame and endgame scores blended by game phase: `phase` 24 is pure
/// middlegame, 0 pure endgame.
fn blend(score: Eval, phase: Score) -> (r: Score)
    requires
        ebound(score, 2_000_000),
        0 <= phase <= 24,
    ensures
        r == crate::defs::trunc_div(score.0 * phase + score.1 * (24 - phase), 24),
        -2_000_000 <= r <= 2_000_000,
{
    proof {
        assert(-48_000_000 <= score.0 * phase <= 48_000_000) by (nonlinear_arith)
            requires
                -2_000_000 <= score.0 <= 2_000_000,
                0 <= phase <= 24,
        ;
        assert(-48_000_000 <= score.1 * (24 - phase) <= 48_000_000) by (nonlinear_arith)
            requires
                -2_000_000 <= score.1 <= 2_000_000,
                0 <= phase <= 24,
        ;
        assert(-48_000_000 <= score.0 * phase + score.1 * (24 - phase) <= 48_000_000) by (nonlinear_arith)
            requires
                -2_000_000 <= score.0 <= 2_000_000,
                -2_000_000 <= score.1 <= 2_000_000,
                0 <= phase <= 24,
        ;
    }
    (score.0 * phase + score.1 * (24 - phase)) / 24
}

/// Passed pawns of `side` by rank, and rooks of either side behind them.
fn eval_passers(board: &Board, side: Player, eval: &EvalInfo) -> (r: Eval)
    requires
        eval.wf(),
    ensures
        ebound(r, 40_000),
{
    proof {
        lemma_params();
    }
    let us = side.as_usize();
    let opp = 1 - us;
    let my_pawns = eval.pawns[us];
    let opp_pawns = eval.pawns[opp];
    let mut score = Eval(0, 0);
    // Passed pawns
    let spans = front_span(side.opp(), opp_pawns);
    let opp_front_spans = spans | west_one(spans) | east_one(spans);
    let mut passers = my_pawns & !opp_front_spans;
    let behind_passers = fill_down(side, passers);
    let num_my_rooks_behind_passers = cnt(board.player_piece_bb(side, PieceType::Rook) & behind_passers);
    let num_opp_rooks_behind_passers = cnt(board.player_piece_bb(side.opp(), PieceType::Rook) & behind_passers);
    score = plus(score, scaled(ROOK_BEHIND_PASSER, num_my_rooks_behind_passers));
    score = plus(score, scaled(OPP_ROOK_BEHIND_PASSER, num_opp_rooks_behind_passers));

    let mut passed_score = Eval(0, 0);
    let mut n: i32 = 0;
    while passers != 0
        invariant
            0 <= n <= 64,
            ebound(passed_score, 140 * n),
        decreases passers,
    {
        let ghost old_bb = passers;
        let sq = BitBoard::pop_lsb(&mut passers);
        proof {
            crate::movegen::lemma_pop_decreases(old_bb, sq as u64);
        }
        proof {
            lemma_params();
        }
        if n < 64 {
            let rel_rank = match side {
                Player::White => (sq / 8) as usize,
                Player::Black => (7 - sq / 8) as usize,
            };
            passed_score = plus(passed_score, ev(PASSED_PAWN_SCORE[rel_rank]));
            n = n + 1;
        }
    }
    plus(score, passed_score)
}

/// The sum of the evaluation terms as middlegame and endgame scores, from white's point
/// of view; `eval` gathers the attack and king safety data on the way.
fn white_score(board: &Board, eval: &mut EvalInfo) -> (r: Eval)
    requires
        old(eval).wf(),
    ensures
        final(eval).wf(),
        ebound(r, 2_000_000),
        final(eval).phase == old(eval).phase,
        final(eval).piece_material == old(eval).piece_material,
        final(eval).pawn_count == old(eval).pawn_count,
        final(eval).pawns == old(eval).pawns,
        final(eval).attack_by_pawns == old(eval).attack_by_pawns,
{
    let w_pawns = eval_pawns(board, Player::White, eval);
    let b_pawns = eval_pawns(board, Player::Black, eval);
    let mut score = Eval(w_pawns.0 - b_pawns.0, w_pawns.1 - b_pawns.1);

    let mut piece_bb = board.occ_bb() & !board.piece_bb(PieceType::Pawn);
    let mut n: i32 = 0;
    let ghost e0 = *eval;
    while piece_bb != 0
        invariant
            eval.wf(),
            0 <= n <= 64,
            ebound(score, 120_000 + 500 * n),
            eval.phase == e0.phase,
            eval.material == e0.material,
            eval.mob == e0.mob,
            eval.king_shield == e0.king_shield,
            eval.adjust_material == e0.adjust_material,
            eval.piece_material == e0.piece_material,
            eval.pawn_count == e0.pawn_count,
            eval.pawns == e0.pawns,
            eval.attack_by_pawns == e0.attack_by_pawns,
            eval.king_sq == e0.king_sq,
            eval.king_bb == e0.king_bb,
            eval.tropism == e0.tropism,
        decreases piece_bb,
    {
        let ghost old_bb = piece_bb;
        let sq = BitBoard::pop_lsb(&mut piece_bb);
        proof {
            crate::movegen::lemma_pop_decreases(old_bb, sq as u64);
        }
        let piece = board.piece(sq);
        if n < 64 && piece.t != PieceType::NoPiece && piece.t != PieceType::Pawn {
            let m = mobility(board, piece, sq, eval);
            score = plus(score, m);
            n = n + 1;
        }
    }

    mopup_eval(board, eval);
    king_pawn_shield(eval);
    adjust_material(board, eval);

    let kw = eval_knights(board, Player::White, eval);
    let kb = eval_knights(board, Player::Black, eval);
    score = plus(score, Eval(kw.0 - kb.0, kw.1 - kb.1));
    let bw = eval_bishops(board, Player::White, eval);
    let bb = eval_bishops(board, Player::Black, eval);
    score = plus(score, Eval(bw.0 - bb.0, bw.1 - bb.1));
    let rw = eval_rooks(board, Player::White, eval);
    let rb = eval_rooks(board, Player::Black, eval);
    score = plus(score, Eval(rw.0 - rb.0, rw.1 - rb.1));

    let m = Eval(eval.material[0].0 - eval.material[1].0, eval.material[0].1 - eval.material[1].1);
    let k = Eval(eval.king_shield[0].0 - eval.king_shield[1].0, eval.king_shield[0].1 - eval.king_shield[1].1);
    let mo = Eval(eval.mob[0].0 - eval.mob[1].0, eval.mob[0].1 - eval.mob[1].1);
    let t = Eval(eval.tropism[0].0 - eval.tropism[1].0, eval.tropism[0].1 - eval.tropism[1].1);
    let adj = Eval(eval.adjust_material[0].0 - eval.adjust_material[1].0, eval.adjust_material[0].1 - eval.adjust_material[1].1);
    score = plus(score, m);
    score = plus(score, k);
    score = plus(score, mo);
    score = plus(score, t);
    score = plus(score, adj);
    score
}

/// The low material correction of a score `s` from white's point of view, given each
/// side's pawn count and the middlegame value of its other pieces (white first): when
/// the side ahead has no pawns, less than a rook in pieces is no advantage, nor are two
/// knights against no pawns, and a rook against a minor piece, or a rook and a minor
/// piece against a rook, count half.
pub open spec fn low_material_spec(s: int, pawns: (int, int), material: (int, int)) -> int {
    let white_ahead = s > 0;
    let strong_pawns = if white_ahead { pawns.0 } else { pawns.1 };
    let weak_pawns = if white_ahead { pawns.1 } else { pawns.0 };
    let strong = if white_ahead { material.0 } else { material.1 };
    let weak = if white_ahead { material.1 } else { material.0 };
    let rook = crate::defs::MG_VALUE[3] as int;
    let bishop = crate::defs::MG_VALUE[2] as int;
    let knight = crate::defs::MG_VALUE[1] as int;
    if strong_pawns != 0 {
        s
    } else if strong < rook {
        0
    } else if weak_pawns == 0 && strong == 2 * knight {
        0
    } else {
        let s1 = if strong == rook && (weak == bishop || weak == knight) {
            crate::defs::trunc_div(s, 2)
        } else {
            s
        };
        if (strong == rook + bishop || strong == rook + knight) && weak == rook {
            crate::defs::trunc_div(s1, 2)
        } else {
            s1
        }
    }
}

/// The score for the side to move of a position whose terms other than the tempo sum to
/// `total` from white's point of view: the side to move gains a tempo of 10, the low
/// material correction applies, and black's score is the negation.
pub open spec fn side_score(turn: Player, total: int, pawns: (int, int), material: (int, int)) -> int {
    if turn == Player::White {
        low_material_spec(total + 10, pawns, material)
    } else {
        -low_material_spec(total - 10, pawns, material)
    }
}

/// Low material correction, guarding against an imaginary material advantage that
/// actually is a draw: without pawns, the stronger side needs more than a minor piece,
/// two knights do not win against a bare king, and a rook (and minor) against a minor
/// (rook) is worth half.
fn low_material(score: Score, eval: &EvalInfo) -> (r: Score)
    requires
        eval.wf(),
        -5_000_000 <= score <= 5_000_000,
    ensures
        -5_000_000 <= r <= 5_000_000,
        eval.pawn_count[0] == 0 && eval.pawn_count[1] == 0 && eval.piece_material[0] < PIECE_VALUE[3][0]
            && eval.piece_material[1] < PIECE_VALUE[3][0] ==> r == 0,
        r == low_material_spec(
            score as int,
            (eval.pawn_count[0] as int, eval.pawn_count[1] as int),
            (eval.piece_material[0] as int, eval.piece_material[1] as int),
        ),
{
    let mut total_score = score;
    let (stronger, weaker) = if total_score > 0 { (0usize, 1usize) } else { (1usize, 0usize) };
    let strong_material = eval.piece_material[stronger];
    let weak_material = eval.piece_material[weaker];

    // Low material correction. Guard against an imaginary material advantage
    // that actually is a draw
    if eval.pawn_count[stronger] == 0 {
        if strong_material < PieceType::Rook.mg_value() {
            return 0;
        }
        if eval.pawn_count[weaker] == 0 && strong_material == 2 * PieceType::Knight.mg_value() {
            return 0;
        }
        if strong_material == PieceType::Rook.mg_value() && (weak_material == PieceType::Bishop.mg_value()
            || weak_material == PieceType::Knight.mg_value()) {
            total_score = total_score / 2;
        }
        if (strong_material == PieceType::Rook.mg_value() + PieceType::Bishop.mg_value()
            || strong_material == PieceType::Rook.mg_value() + PieceType::Knight.mg_value())
            && weak_material == PieceType::Rook.mg_value() {
            total_score = total_score / 2;
        }
    }

    total_score
}

/// The score for the side to move of a position whose terms other than the tempo sum to
/// `total` from white's point of view (`side_score`).
fn side_to_move_score(turn: Player, total: Score, eval: &EvalInfo) -> (r: Score)
    requires
        eval.wf(),
        -4_999_000 <= total <= 4_999_000,
    ensures
        r == side_score(
            turn,
            total as int,
            (eval.pawn_count[0] as int, eval.pawn_count[1] as int),
            (eval.piece_material[0] as int, eval.piece_material[1] as int),
        ),
        -5_000_000 <= r <= 5_000_000,
{
    // Tempo bonus
    let with_tempo = if turn == Player::White {
        total + 10
    } else {
        total - 10
    };
    let corrected = low_material(with_tempo, eval);
    if turn == Player::White {
        corrected
    } else {
        -corrected
    }
}

/// The static evaluation of the position, from the side to move's point of view.
pub fn evaluate(board: &Board) -> (r: Score)
    requires
        has_kings(board),
    ensures
        -10_000_000 <= r <= 10_000_000,
        bare_material(board) ==> r == 0,
        exists|total: int|
            -4_999_000 <= total <= 4_999_000 && r == #[trigger] side_score(
                board.turn,
                total,
                (count_of(board, Player::White, 0), count_of(board, Player::Black, 0)),
                (piece_material_of(board, Player::White), piece_material_of(board, Player::Black)),
            ),
{
    let mut eval = EvalInfo::init(board);
    let score = white_score(board, &mut eval);
    proof {
        lemma_params();
    }
    let phase = if eval.phase < PHASE_MAX { eval.phase } else { PHASE_MAX };
    let mut total_score = blend(score, phase);

    // King safety:
    // Safety doesn't matter if we don't have enough pieces to actually attack
    let mut w_weight = eval.att_weight[0];
    let mut b_weight = eval.att_weight[1];
    if eval.att_count[0] < 2 || board.player_piece_bb(Player::White, PieceType::Queen) == 0 {
        w_weight = 0;
    }
    if eval.att_count[1] < 2 || board.player_piece_bb(Player::Black, PieceType::Queen) == 0 {
        b_weight = 0;
    }
    let w_idx = if w_weight > 99 { 99usize } else { w_weight as usize };
    let b_idx = if b_weight > 99 { 99usize } else { b_weight as usize };
    total_score = total_score + SAFETY_TABLE[w_idx];
    total_score = total_score - SAFETY_TABLE[b_idx];

    let w_material = eval.piece_material[0];
    let b_material = eval.piece_material[1];
    let total_non_pawn = w_material + b_material;

    // Control of space on the player's side of the board
    total_score = total_score + eval_space(board, Player::White, &eval, total_non_pawn);
    total_score = total_score - eval_space(board, Player::Black, &eval, total_non_pawn);

    let r = side_to_move_score(board.turn, total_score, &eval);
    proof {
        assert(r == side_score(
            board.turn,
            total_score as int,
            (count_of(board, Player::White, 0), count_of(board, Player::Black, 0)),
            (piece_material_of(board, Player::White), piece_material_of(board, Player::Black)),
        ));
    }
    r
}

} // verus!
