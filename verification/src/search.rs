//! Alpha-beta search: principal variation search with a transposition table, null move,
//! futility and late move pruning, late move reductions, and a quiescence search of
//! captures and checks.
use vstd::prelude::*;
use std::sync::Arc;
use std::sync::atomic::AtomicBool;
use crate::bitmove::{BitMove, MoveFlag, move_src, move_dest, move_flag, flag_is_cap, flag_is_prom};
use crate::board::{Board, has_kings, king_sq_of};
use crate::attack::king_hits;
use crate::bits::bit;
use crate::defs::{PieceType, Player, Score, INFINITY, MG_VALUE, MAX_GAME_LENGTH, MAX_STACK_SIZE, pt_idx, player_idx, opp_of, mg_value_of, eg_value_of};
use crate::eval::evaluate;
use crate::makemove::move_ok;
use crate::movegen::{MovegenParams, is_legal_move, gen_move_ok, all_gen_ok, legal_spec, king_step};
use crate::movelist::MoveList;
use crate::order::{pick_next_move, score_move, history_ok, HistoryTable};
use crate::perft::{perft_ready, same_game, play, take_back};
use crate::search_info::{SearchInfo, MAX_SEARCH_DEPTH};
use crate::table::{HashTable, HashEntry, Bound, entries_ok, IMMEDIATE_MATE_SCORE, IS_MATE, SCORE_LIMIT};
use crate::utils::{is_draw, material_draw, repeats};

verus! {

/// Margin added to a capture before it is judged unable to raise alpha.
pub const DELTA_PRUNING: Score = 100;

/// Entries of the table of late move reductions: by tactical move, principal variation
/// node, depth (up to 127) and move number (up to 255).
pub const LMR_SIZE: usize = 131072;

/// The position of a base reduction in the table.
pub open spec fn lmr_index(tactical: bool, pv: bool, depth: int, index: int) -> int {
    let t = if tactical { 1int } else { 0int };
    let p = if pv { 1int } else { 0int };
    let d = if depth > 127 { 127 } else { depth };
    let i = if index > 255 { 255 } else { index };
    ((t * 2 + p) * 128 + d) * 256 + i
}

/// Biggest possible material gain in this position: the best enemy piece to capture
/// (a pawn when only pawns are left to take), and a promotion if a pawn of the side to
/// move is about to promote.
pub open spec fn max_gain_spec(b: &Board) -> int {
    let opp = b.side_bb[player_idx(opp_of(b.turn))];
    let own_pawns = b.piece_bb[0] & b.side_bb[player_idx(b.turn)];
    let seventh = if b.turn == Player::White { crate::bitboard::BitBoard::RANK_7 } else { crate::bitboard::BitBoard::RANK_2 };
    (if opp & b.piece_bb[4] != 0 {
        MG_VALUE[4] as int
    } else if opp & b.piece_bb[3] != 0 {
        MG_VALUE[3] as int
    } else if opp & b.piece_bb[2] != 0 {
        MG_VALUE[2] as int
    } else if opp & b.piece_bb[1] != 0 {
        MG_VALUE[1] as int
    } else if opp & b.piece_bb[0] != 0 {
        MG_VALUE[0] as int
    } else {
        0
    }) + (if own_pawns & seventh != 0 { MG_VALUE[4] - MG_VALUE[0] } else { 0 })
}

/// Biggest possible material gain in this position
pub fn max_gain(board: &Board) -> (r: Score)
    ensures
        r == max_gain_spec(board),
        0 <= r <= 5000,
{
    let mut score: Score = 0;
    let opp = board.player_bb(board.turn.opp());
    if opp & board.piece_bb(PieceType::Queen) != 0 {
        score = MG_VALUE[4];
    } else if opp & board.piece_bb(PieceType::Rook) != 0 {
        score = MG_VALUE[3];
    } else if opp & board.piece_bb(PieceType::Bishop) != 0 {
        score = MG_VALUE[2];
    } else if opp & board.piece_bb(PieceType::Knight) != 0 {
        score = MG_VALUE[1];
    } else if opp & board.piece_bb(PieceType::Pawn) != 0 {
        score = MG_VALUE[0];
    }
    // Pawn about to promote
    if board.player_piece_bb(board.turn, PieceType::Pawn) & board.turn.rank_7() != 0 {
        score = score + MG_VALUE[4] - MG_VALUE[0];
    }
    score
}

/// Can this move raise alpha? Always when the evaluation already reaches alpha, for a
/// promotion, and for a move that is no capture (then a check); a capture only when the
/// captured piece and a margin make up the difference.
pub fn passes_delta(board: &Board, m: u16, eval: Score, alpha: Score) -> (r: bool)
    requires
        -SCORE_LIMIT <= eval <= SCORE_LIMIT,
        -SCORE_LIMIT <= alpha <= SCORE_LIMIT,
    ensures
        r == (eval >= alpha || flag_is_prom(move_flag(m)) || (move_flag(m) != MoveFlag::CAPTURE
            && move_flag(m) != MoveFlag::EN_PASSANT) || eval + mg_value_of(
            if move_flag(m) == MoveFlag::CAPTURE { board.at(move_dest(m)).t } else { PieceType::Pawn },
        ) + DELTA_PRUNING >= alpha),
{
    if eval >= alpha {
        return true;
    }
    if BitMove::is_prom(m) {
        return true;
    }
    let flag = BitMove::flag(m);
    let captured = if flag == MoveFlag::CAPTURE {
        board.piece_type(BitMove::dest(m))
    } else if flag == MoveFlag::EN_PASSANT {
        PieceType::Pawn
    } else {
        // if this move isn't a capture, then is must be a check, which we always want to search
        return true;
    };
    eval + captured.mg_value() + DELTA_PRUNING >= alpha
}

/// Gives the move from the table the highest ordering score.
pub fn set_tt_move_score(moves: &mut MoveList, tt_move: u16)
    requires
        old(moves).wf(),
    ensures
        final(moves).wf(),
        final(moves).moves() == old(moves).moves(),
        final(moves).cursor() == old(moves).cursor(),
        !old(moves).moves().contains(tt_move) ==> final(moves).scores() == old(moves).scores(),
        old(moves).moves().contains(tt_move) ==> exists|i: int| 0 <= i < old(moves).moves().len()
            && old(moves).moves()[i] == tt_move
            && (forall|j: int| 0 <= j < i ==> old(moves).moves()[j] != tt_move)
            && final(moves).scores() == old(moves).scores().update(i, 2_000_000),
{
    let n = moves.size();
    let mut i: usize = 0;
    while i < n
        invariant
            moves.wf(),
            moves.moves() == old(moves).moves(),
            moves.scores() == old(moves).scores(),
            moves.cursor() == old(moves).cursor(),
            n == moves.moves().len(),
            i <= n,
            forall|j: int| 0 <= j < i ==> moves.moves()[j] != tt_move,
        decreases n - i,
    {
        if moves.get(i) == tt_move {
            proof {
                moves.lemma_lengths();
            }
            moves.set_score(i, 2_000_000);
            return;
        }
        i = i + 1;
    }
}

/// The score the table entry settles at this depth and window: an exact score, alpha
/// for a score known to be at most alpha, beta for one known to be at least beta; none
/// when the entry was searched less deep (depths compared modulo 256).
pub fn table_cutoff(entry: HashEntry, depth: i32, alpha: Score, beta: Score) -> (r: Option<Score>)
    ensures
        r == (if entry.depth < depth as u8 {
            None
        } else {
            match entry.bound {
                Bound::Exact => Some(entry.score),
                Bound::Upper => if alpha >= entry.score { Some(alpha) } else { None },
                Bound::Lower => if beta <= entry.score { Some(beta) } else { None },
                Bound::NoBound => None,
            }
        }),
{
    if entry.depth < depth as u8 {
        return None;
    }
    match entry.bound {
        Bound::Exact => Some(entry.score),
        Bound::Upper => {
            if alpha >= entry.score {
                Some(alpha)
            } else {
                None
            }
        },
        Bound::Lower => {
            if beta <= entry.score {
                Some(beta)
            } else {
                None
            }
        },
        Bound::NoBound => None,
    }
}

/// If the entry from one depth lower failed low and, even with an added margin, it
/// still can't beat the current alpha, it will likely fail low again, so return early
pub fn will_fail_low(entry: HashEntry, depth: i32, alpha: Score) -> (r: bool)
    ensures
        r == (entry.depth >= depth - 1 && entry.bound == Bound::Upper && entry.score + MG_VALUE[0] <= alpha),
{
    entry.depth as i64 >= depth as i64 - 1 && entry.bound == Bound::Upper && entry.score as i64 + MG_VALUE[0] as i64
        <= alpha as i64
}

/// The late move reduction: the base reduction from the table, one more when the
/// position is not improving, one less for a check, two less in check, one less for a
/// move with a good history; at most one less than the depth, at least one.
pub fn lmr_reduction(base: i32, depth: i32, improving: bool, gives_check: bool, in_check: bool, history_score: i32) -> (r: i32)
    requires
        0 <= base <= 100,
        1 <= depth <= 1001,
    ensures
        ({
            let adj = base + (if improving { 0int } else { 1 }) - (if gives_check { 1int } else { 0 })
                - (if in_check { 2int } else { 0 }) - (if history_score > 0 { 1int } else { 0 });
            let capped = if adj < depth - 1 { adj } else { depth - 1 };
            r == (if capped > 1 { capped } else { 1 })
        }),
        1 <= r,
{
    let mut reduction = base;
    if !improving {
        reduction = reduction + 1;
    }
    if gives_check {
        reduction = reduction - 1;
    }
    if in_check {
        reduction = reduction - 2;
    }
    if history_score > 0 {
        reduction = reduction - 1;
    }
    if reduction > depth - 1 {
        reduction = depth - 1;
    }
    if reduction < 1 {
        reduction = 1;
    }
    reduction
}

/// The side to move has no legal move: no generated move is legal.
pub open spec fn no_legal_move(b: &Board) -> bool {
    forall|m: u16| gen_move_ok(b, m) ==> !#[trigger] legal_spec(b, m)
}

/// A node below the root, inside the search depth, that is not drawn, whose window the
/// mate distance bounds leave open, that the table holds nothing for, and where the side
/// to move has no legal move: it is mated or stalemated.
pub open spec fn final_node(b: &Board, table: &HashTable, alpha: Score, beta: Score) -> bool {
    let ply = b.pos.ply as int;
    let lo = if -IMMEDIATE_MATE_SCORE + ply > alpha { -IMMEDIATE_MATE_SCORE + ply } else { alpha as int };
    let hi = if IMMEDIATE_MATE_SCORE - 1 - ply < beta { IMMEDIATE_MATE_SCORE - 1 - ply } else { beta as int };
    &&& 0 < ply < MAX_SEARCH_DEPTH
    &&& lo < hi
    &&& !(b.pos.rule_fifty >= 100 || repeats(b) || material_draw(b))
    &&& table.entries@[table.slot(b.pos.key)].key != b.pos.key
    &&& no_legal_move(b)
}

/// Whether a move is legal depends only on the position.
proof fn lemma_same_game_legal(a: &Board, b: &Board, m: u16)
    requires
        same_game(a, b),
    ensures
        legal_spec(a, m) == legal_spec(b, m),
        gen_move_ok(a, m) == gen_move_ok(b, m),
{
    assert(a.pieces == b.pieces) by {
        assert(a.pieces@ == b.pieces@);
    }
}

/// A drawn position below the root, inside the search depth, whose window the mate
/// distance bounds leave open: by the fifty move rule, a repetition or too little
/// material.
pub open spec fn draw_below_root(b: &Board, alpha: Score, beta: Score) -> bool {
    let ply = b.pos.ply as int;
    let lo = if -IMMEDIATE_MATE_SCORE + ply > alpha { -IMMEDIATE_MATE_SCORE + ply } else { alpha as int };
    let hi = if IMMEDIATE_MATE_SCORE - 1 - ply < beta { IMMEDIATE_MATE_SCORE - 1 - ply } else { beta as int };
    &&& 0 < ply < MAX_SEARCH_DEPTH
    &&& lo < hi
    &&& (b.pos.rule_fifty >= 100 || repeats(b) || material_draw(b))
}

/// A history score moved by `delta`, kept within a billion of zero.
fn bump_history(h: Score, delta: i32) -> (r: Score)
    requires
        -1_000_000_000 <= h <= 1_000_000_000,
        -2_000_000 <= delta <= 2_000_000,
    ensures
        -1_000_000_000 <= r <= 1_000_000_000,
        -1_000_000_000 <= h + delta <= 1_000_000_000 ==> r == h + delta,
{
    let v = h + delta;
    if v > 1_000_000_000 {
        1_000_000_000
    } else if v < -1_000_000_000 {
        -1_000_000_000
    } else {
        v
    }
}


/// A history table with the entry for side `c`, from `s` to `d`, set to `v`.
fn set_history(h: &mut HistoryTable, c: usize, s: usize, d: usize, v: Score)
    requires
        c < 2,
        s < 64,
        d < 64,
    ensures
        forall|c2: int, s2: int, d2: int| 0 <= c2 < 2 && 0 <= s2 < 64 && 0 <= d2 < 64 ==> #[trigger] final(h)[c2][s2][d2]
            == if c2 == c && s2 == s && d2 == d { v } else { old(h)[c2][s2][d2] },
{
    let mut side = h[c];
    let mut row = side[s];
    row[d] = v;
    side[s] = row;
    h[c] = side;
}

/// The search: the position, the transposition table, the history of quiet moves, the
/// limits and the flag another thread raises to stop it.
pub struct Searcher {
    pub num_nodes: u64,
    pub sel_depth: usize,
    pub board: Board,
    pub table: HashTable,
    pub abort: Arc<AtomicBool>,
    pub stop: bool,
    pub info: SearchInfo,
    pub best_root_move: u16,
    pub history_score: HistoryTable,
    pub quiets_tried: [[u16; 128]; 100],
    pub eval_history: [Score; 128],
    pub lmr: Vec<i32>,
}

impl Searcher {
    /// The position can be searched, the table and history are within bounds, and the
    /// reduction table is complete.
    pub open spec fn wf(&self) -> bool {
        &&& perft_ready(&self.board)
        &&& self.table.wf()
        &&& entries_ok(&self.table)
        &&& history_ok(&self.history_score)
        &&& self.lmr@.len() == LMR_SIZE
        &&& forall|i: int| 0 <= i < LMR_SIZE ==> 0 <= #[trigger] self.lmr@[i] <= 100
        &&& self.board.history@.len() <= MAX_GAME_LENGTH
    }

    /// A searcher for `board`; `lmr` holds the base late move reductions by
    /// [`lmr_index`].
    pub fn new(board: Board, abort: Arc<AtomicBool>, table: HashTable, info: SearchInfo, lmr: Vec<i32>) -> (r: Self)
        requires
            perft_ready(&board),
            board.history@.len() <= MAX_GAME_LENGTH,
            table.wf(),
            entries_ok(&table),
            lmr@.len() == LMR_SIZE,
            forall|i: int| 0 <= i < LMR_SIZE ==> 0 <= #[trigger] lmr@[i] <= 100,
        ensures
            r.wf(),
            r.board == board,
            r.info == info,
            r.num_nodes == 0,
    {
        let r = Searcher {
            board,
            abort,
            stop: false,
            num_nodes: 0,
            sel_depth: 0,
            table,
            info,
            best_root_move: 0,
            history_score: [[[0; 64]; 64]; 2],
            quiets_tried: [[0; 128]; 100],
            eval_history: [0; 128],
            lmr,
        };
        r
    }

    /// Starts the clock and lowers the stop flag.
    pub fn start(&mut self)
        requires
            old(self).info.time_set ==> old(self).info.move_time.is_some() || (if old(self).board.turn == Player::White {
                old(self).info.w_time
            } else {
                old(self).info.b_time
            }).is_some(),
        ensures
            final(self).board == old(self).board,
            final(self).wf() == old(self).wf(),
    {
        let turn = self.board.turn;
        self.info.start(turn);
        self.abort.store(false, std::sync::atomic::Ordering::Relaxed);
    }

    /// Raises the stop flag.
    pub fn stop(&mut self)
        ensures
            final(self).stop,
            final(self).best_root_move == old(self).best_root_move,
            final(self).board == old(self).board,
            final(self).table == old(self).table,
            final(self).wf() == old(self).wf(),
    {
        self.abort.store(true, std::sync::atomic::Ordering::Relaxed);
        self.stop = true;
    }

    /// Has the search been told to stop?
    pub fn should_stop(&mut self) -> (r: bool)
        ensures
            final(self).best_root_move == old(self).best_root_move,
            final(self).board == old(self).board,
            final(self).table == old(self).table,
            final(self).wf() == old(self).wf(),
            old(self).stop ==> r,
            final(self).stop == r,
    {
        if !self.stop {
            self.stop = self.abort.load(std::sync::atomic::Ordering::Relaxed);
        }
        self.stop
    }

    /// Stops the search when its time is up.
    fn checkup(&mut self)
        ensures
            old(self).stop ==> final(self).stop,
            final(self).best_root_move == old(self).best_root_move,
            final(self).board == old(self).board,
            final(self).table == old(self).table,
            final(self).wf() == old(self).wf(),
    {
        if !self.info.has_time() {
            self.stop();
        }
    }

    /// Resets the node count, the ply and the killer moves before a search.
    pub fn clear_for_search(&mut self)
        requires
            old(self).wf(),
        ensures
            final(self).wf(),
            final(self).num_nodes == 0,
            final(self).board.pos.ply == 0,
    {
        self.num_nodes = 0;
        self.board.pos.ply = 0;
        self.board.clear_killers();
    }

    /// The best move found: the table's move for the position, else the best root move.
    pub fn best_move(&self) -> (r: u16)
        requires
            self.wf(),
        ensures
            ({
                let e = self.table.entries@[self.table.slot(self.board.pos.key)];
                r == if e.key != 0 && e.key == self.board.pos.key && e.m != 0 {
                    e.m
                } else {
                    self.best_root_move
                }
            }),
    {
        match self.table.best_move(self.board.key()) {
            Some(m) => m,
            None => self.best_root_move,
        }
    }
}


/// Sets killer `k` of `ply` to `m`, leaving everything else.
fn set_killer(board: &mut Board, k: usize, ply: usize, m: u16)
    requires
        k < 2,
        ply < MAX_STACK_SIZE,
    ensures
        same_game(final(board), old(board)),
{
    let mut row = board.killers[k];
    row[ply] = m;
    board.killers[k] = row;
}

/// Generated moves stay generated moves when the list is reordered by a swap.
proof fn lemma_swap_gen_ok(b: &Board, ms: Seq<u16>, a: int, c: int)
    requires
        all_gen_ok(b, ms),
        0 <= a < ms.len(),
        0 <= c < ms.len(),
    ensures
        all_gen_ok(b, ms.update(a, ms[c]).update(c, ms[a])),
{
    let ms2 = ms.update(a, ms[c]).update(c, ms[a]);
    assert forall|i: int| 0 <= i < ms2.len() implies #[trigger] gen_move_ok(b, ms2[i]) by {
        if i == c {
        } else if i == a {
        } else {
            assert(ms2[i] == ms[i]);
        }
    }
}

/// Whether a move is generated depends only on the position.
proof fn lemma_same_game_gen_ok(a: &Board, b: &Board, ms: Seq<u16>)
    requires
        all_gen_ok(a, ms),
        same_game(a, b),
    ensures
        all_gen_ok(b, ms),
{
    assert forall|i: int| 0 <= i < ms.len() implies #[trigger] gen_move_ok(b, ms[i]) by {
        assert(gen_move_ok(a, ms[i]));
    }
}

impl Searcher {
    /// Scores every move of `moves` for ordering by history and killer moves.
    fn rescore(&self, moves: &mut MoveList)
        requires
            self.wf(),
            self.board.pos.ply < MAX_STACK_SIZE,
            old(moves).wf(),
            all_gen_ok(&self.board, old(moves).moves()),
        ensures
            final(moves).wf(),
            final(moves).moves() == old(moves).moves(),
    {
        let n = moves.size();
        let mut i: usize = 0;
        while i < n
            invariant
                self.wf(),
                self.board.pos.ply < MAX_STACK_SIZE,
                moves.wf(),
                moves.moves() == old(moves).moves(),
                all_gen_ok(&self.board, moves.moves()),
                n == moves.moves().len(),
                i <= n,
            decreases n - i,
        {
            proof {
                moves.lemma_lengths();
            }
            let m = moves.get(i);
            assert(gen_move_ok(&self.board, moves.moves()[i as int]));
            let sc = score_move(m, &self.board, &self.history_score, 0);
            moves.set_score(i, sc);
            i = i + 1;
        }
    }

    /// Search with an aspiration window around `eval` from depth 5 on, widened on each
    /// fail; gives up the window entirely past 3500 and returns once the window is full.
    pub fn aspiration_search(&mut self, depth: i32, eval: Score) -> (r: Score)
        requires
            old(self).wf(),
            1 <= depth <= 1000,
            -SCORE_LIMIT <= eval <= SCORE_LIMIT,
            old(self).board.pos.ply == 0,
        ensures
            final(self).wf(),
            same_game(&final(self).board, &old(self).board),
            -SCORE_LIMIT <= r <= SCORE_LIMIT,
            old(self).stop ==> r == 0,
            final(self).best_root_move == old(self).best_root_move
                || legal_spec(&old(self).board, final(self).best_root_move),
    {
        let mut alpha = -INFINITY;
        let mut beta = INFINITY;
        if depth > 4 && -INFINITY < eval - 16 && eval + 16 < INFINITY {
            alpha = eval - 16;
            beta = eval + 16;
        }
        let ghost b0 = self.board;
        let mut research: i64 = 0;
        loop
            invariant
                self.wf(),
                same_game(&self.board, &b0),
                b0 == old(self).board,
                self.board.pos.ply == 0,
                1 <= depth <= 1000,
                -INFINITY <= alpha < beta <= INFINITY,
                0 <= research,
                research + (alpha + INFINITY) + (INFINITY - beta) <= 2 * INFINITY,
                self.best_root_move == old(self).best_root_move
                    || legal_spec(&old(self).board, self.best_root_move),
                research == 0 ==> self.stop == old(self).stop,
                old(self).stop ==> research == 0,
            decreases (alpha + INFINITY) + (INFINITY - beta),
        {
            if self.should_stop() {
                return 0;
            }
            if alpha < -3500 {
                alpha = -INFINITY;
            }
            if beta > 3500 {
                beta = INFINITY;
            }
            let best_eval = self.negamax(depth, alpha, beta, false);
            research = research + 1;
            proof {
                assert(23 <= research * research * 23 <= 100_000_000_000) by (nonlinear_arith)
                    requires
                        1 <= research <= 64_001,
                ;
            }
            let widen = research * research * 23;
            if best_eval <= alpha {
                if alpha == -INFINITY {
                    return best_eval;
                }
                let lower = alpha as i64 - widen;
                alpha = if lower < -INFINITY as i64 { -INFINITY } else { lower as i32 };
            } else if best_eval >= beta {
                if beta == INFINITY {
                    return best_eval;
                }
                let upper = beta as i64 + widen;
                beta = if upper > INFINITY as i64 { INFINITY } else { upper as i32 };
            } else {
                return best_eval;
            }
        }
    }
}


impl Searcher {
    /// Principal variation search of the position to `depth` plies within the window
    /// `alpha`-`beta`; `do_null` allows a null move. The position is left as it was; the
    /// table, history and killer moves learn from the search. A move that cannot be played
    /// (`move_ok` fails: the history is full) is skipped.
    #[verifier::rlimit(80)]
    pub fn negamax(&mut self, depth_in: i32, alpha_in: Score, beta_in: Score, do_null: bool) -> (r: Score)
        requires
            old(self).wf(),
            0 <= depth_in <= 1000,
            -SCORE_LIMIT <= alpha_in < beta_in <= SCORE_LIMIT,
            old(self).board.pos.ply <= MAX_SEARCH_DEPTH,
        ensures
            final(self).wf(),
            same_game(&final(self).board, &old(self).board),
            -SCORE_LIMIT <= r <= SCORE_LIMIT,
            draw_below_root(&old(self).board, alpha_in, beta_in) ==> r == 0,
            old(self).stop ==> r == 0,
            old(self).board.pos.ply > 0 ==> final(self).best_root_move == old(self).best_root_move,
            final(self).best_root_move == old(self).best_root_move
                || legal_spec(&old(self).board, final(self).best_root_move),
            !final(self).stop && final_node(&old(self).board, &old(self).table, alpha_in, beta_in)
                && old(self).board.pos.checkers_bb != 0 ==> r == -IMMEDIATE_MATE_SCORE + old(self).board.pos.ply,
            !final(self).stop && final_node(&old(self).board, &old(self).table, alpha_in, beta_in)
                && old(self).board.pos.checkers_bb == 0 && !do_null && beta_in - alpha_in > 1 && depth_in >= 1 ==> r == 0,
        decreases MAX_GAME_LENGTH - old(self).board.history@.len(), 1int,
    {
        let mut depth = depth_in;
        let mut alpha = alpha_in;
        let mut beta = beta_in;
        if self.num_nodes & 4096 == 0 {
            self.checkup();
        }
        if self.should_stop() {
            return 0;
        }
        let ply = self.board.pos.ply;
        if ply >= MAX_SEARCH_DEPTH {
            return evaluate(&self.board);
        }
        let is_root = ply == 0;
        let is_pv = beta - alpha > 1;
        let in_check = self.board.in_check();

        // Mate distance pruning
        if !is_root {
            let lo = -IMMEDIATE_MATE_SCORE + ply as Score;
            if lo > alpha {
                alpha = lo;
            }
            let hi = IMMEDIATE_MATE_SCORE - 1 - ply as Score;
            if hi < beta {
                beta = hi;
            }
            if alpha >= beta {
                return alpha;
            }
            if is_draw(&self.board) {
                return 0;
            }
        }
        if in_check && !is_root {
            depth = depth + 1;
        }
        if depth == 0 {
            return self.quiesence(alpha, beta, true);
        }

        let entry = self.table.probe(self.board.key(), ply);
        let mut tt_move: u16 = 0;
        match entry {
            Some(e) => {
                tt_move = e.m;
                if !is_pv || e.bound == Bound::Exact {
                    match table_cutoff(e, depth, alpha, beta) {
                        Some(score) => {
                            return score;
                        },
                        None => {},
                    }
                    if will_fail_low(e, depth, alpha) {
                        return alpha;
                    }
                }
            },
            None => {},
        }
        self.num_nodes = self.num_nodes.wrapping_add(1);

        let mut moves = MoveList::all(MovegenParams::simple(&self.board));
        let ghost bg = self.board;
        if moves.is_empty() {
            if ply > self.sel_depth {
                self.sel_depth = ply;
            }
            if in_check {
                return -IMMEDIATE_MATE_SCORE + ply as Score;
            }
            return 0;
        }
        let eval = match entry {
            Some(e) => e.static_eval,
            None => evaluate(&self.board),
        };
        self.eval_history[ply] = eval;

        // Null move pruning
        if do_null && !in_check && depth >= 2 && self.board.has_big_piece(self.board.turn)
            && self.board.history.len() < MAX_GAME_LENGTH {
            let ghost before = self.board;
            self.board.make_null_move();
            let red = 4 + depth / 6;
            let child = if depth - red > 0 { depth - red } else { 0 };
            let score = -self.negamax(child, -beta, -beta + 1, false);
            self.board.unmake_null_move();
            proof {
                assert(self.board.pieces@ == before.pieces@);
                assert(self.board.history@ =~= before.history@);
            }
            if score >= beta {
                return score;
            }
        }

        let improving: bool = ply >= 2 && eval >= self.eval_history[ply - 2];
        let improving_i: i32 = if improving { 1 } else { 0 };

        // Reverse futility pruning
        if !is_pv && !in_check && depth < 9 && eval - 214 * (depth - improving_i) >= beta && eval < 10_000 {
            return eval;
        }

        // Futility pruning: frontier node
        if depth == 1 && !in_check && !is_pv && eval + MG_VALUE[2] < alpha && alpha > -IS_MATE && beta < IS_MATE {
            return eval;
        }

        // Razoring
        if !is_pv && !in_check && tt_move == 0 && do_null && depth <= 3 {
            if eval + 300 + (depth - 1) * 60 < alpha {
                return self.quiesence(alpha, beta, true);
            }
        }

        let mut legals: usize = 0;
        let mut quiets_tried: usize = 0;
        let mut search_quiets = true;
        let mut best_move: u16 = 0;
        let mut best_score: Score = -INFINITY;
        let old_alpha = alpha;

        proof {
            lemma_same_game_gen_ok(&bg, &self.board, moves.moves());
        }
        self.rescore(&mut moves);
        if tt_move != 0 {
            set_tt_move_score(&mut moves, tt_move);
        }

        proof {
            assert(1 <= depth * depth <= 1_002_001) by (nonlinear_arith)
                requires
                    1 <= depth <= 1001,
            ;
        }
        let dd = depth * depth;
        let turn = self.board.turn;
        let ghost b0 = self.board;
        let n = moves.size();
        let mut i: usize = 0;
        while i < n
            invariant_except_break
                alpha < beta,
                legals <= i,
            invariant
                self.wf(),
                same_game(&self.board, &b0),
                b0.pos.ply == ply,
                ply < MAX_SEARCH_DEPTH,
                turn == b0.turn,
                moves.wf(),
                n == moves.moves().len(),
                all_gen_ok(&b0, moves.moves()),
                i <= n,
                1 <= depth <= 1001,
                1 <= dd <= 1_002_001,
                same_game(&b0, &old(self).board),
                -SCORE_LIMIT <= alpha <= SCORE_LIMIT,
                -SCORE_LIMIT <= beta <= SCORE_LIMIT,
                -SCORE_LIMIT <= best_score <= SCORE_LIMIT,
                -SCORE_LIMIT <= old_alpha <= SCORE_LIMIT,
                -10_000_000 <= eval <= 10_000_000,
                0 <= legals <= n,
                quiets_tried <= 128,
                MAX_GAME_LENGTH - self.board.history@.len() == MAX_GAME_LENGTH - b0.history@.len(),
                no_legal_move(&old(self).board) ==> legals == 0,
                is_root == (ply == 0),
                ply == old(self).board.pos.ply,
                !is_root ==> self.best_root_move == old(self).best_root_move,
                self.best_root_move == old(self).best_root_move
                    || legal_spec(&old(self).board, self.best_root_move),
            decreases n - i,
        {
            proof {
                moves.lemma_lengths();
            }
            let ghost ms0 = moves.moves();
            let ghost sc0 = moves.scores();
            pick_next_move(&mut moves, i);
            proof {
                lemma_swap_gen_ok(&b0, ms0, i as int, crate::order::pick_from(sc0, i as int, 0, i as int));
            }
            let (m, move_score) = moves.get_all(i);
            proof {
                lemma_same_game_gen_ok(&b0, &self.board, moves.moves());
                assert(gen_move_ok(&self.board, moves.moves()[i as int]));
            }
            if !is_legal_move(&self.board, m) {
                i = i + 1;
                continue;
            }
            proof {
                lemma_same_game_legal(&self.board, &old(self).board, m);
            }
            legals = legals + 1;
            let is_cap = BitMove::is_cap(m);
            let is_prom = BitMove::is_prom(m);
            let is_quiet = !is_cap && !is_prom;
            let src = BitMove::src(m) as usize;
            let dest = BitMove::dest(m) as usize;
            let history_score = self.history_score[turn.as_usize()][src][dest];
            if !search_quiets && is_quiet {
                i = i + 1;
                continue;
            }
            let gives_check = self.board.gives_check(m);
            if !is_root && best_score > -IS_MATE && self.board.has_non_pawns(turn) {
                if is_cap || is_prom || gives_check {
                    // History pruning: skip quiet moves at low depth
                    // that yielded bad results in previous searches
                    if depth <= 2 && history_score < 0 && !gives_check {
                        i = i + 1;
                        continue;
                    }
                    // SEE pruning
                    if !self.board.see_ge(m, -200 * depth) {
                        i = i + 1;
                        continue;
                    }
                    // Futility pruning
                    if depth <= 8 && move_score < 0 - 50 * dd && !gives_check {
                        i = i + 1;
                        continue;
                    }
                } else {
                    // Futility pruning: parent node
                    if !in_check && depth <= 8 && eval + MG_VALUE[1] + 30 * depth <= alpha {
                        search_quiets = false;
                        i = i + 1;
                        continue;
                    }
                    // Late move pruning
                    if !in_check && depth <= 4 && (quiets_tried as u32) > (3u32 << ((depth - 1) as u32)) {
                        search_quiets = false;
                        i = i + 1;
                        continue;
                    }
                    // SEE pruning
                    if depth <= 8 && !self.board.see_ge(m, 0 - 21 * dd) {
                        i = i + 1;
                        continue;
                    }
                }
            }

            let mut reduction: i32 = 0;
            if depth > 2 && (!is_cap || move_score < 0) && legals > 1 && (!is_root || legals > 4) {
                let tactical = is_cap || is_prom;
                let d: usize = if depth > 127 { 127 } else { depth as usize };
                let l: usize = if legals > 255 { 255 } else { legals };
                let t: usize = if tactical { 1 } else { 0 };
                let p: usize = if is_pv { 1 } else { 0 };
                let base = self.lmr[((t * 2 + p) * 128 + d) * 256 + l];
                reduction = lmr_reduction(base, depth, improving, gives_check, in_check, history_score);
            }

            if !self.board.move_fits(m) {
                i = i + 1;
                continue;
            }
            let ghost before = self.board;
            play(&mut self.board, m);
            let mut score: Score = 0;
            // search pv move in a full window, at full depth
            if legals == 0 || depth <= 2 || !is_pv {
                score = -self.negamax(depth - 1 - reduction, -beta, -alpha, true);
                if reduction > 0 && score > alpha {
                    score = -self.negamax(depth - 1, -beta, -alpha, true);
                }
            } else {
                // Search every other move in a zero window
                score = -self.negamax(depth - 1 - reduction, -alpha - 1, -alpha, true);
                if score > alpha && score < beta {
                    score = -self.negamax(depth - 1, -beta, -alpha, true);
                }
            }
            take_back(&mut self.board, m, Ghost(before));

            if score > alpha {
                alpha = score;
            }
            if score > best_score && !self.should_stop() {
                best_score = score;
                best_move = m;
                if is_root {
                    self.best_root_move = m;
                }
            }
            if score >= beta {
                if !is_cap {
                    let k0 = self.board.killers[0][ply];
                    set_killer(&mut self.board, 1, ply, k0);
                    set_killer(&mut self.board, 0, ply, m);
                    proof {
                        assert(perft_ready(&self.board));
                    }
                    let t = turn.as_usize();
                    let h = bump_history(self.history_score[t][src][dest], dd);
                    set_history(&mut self.history_score, t, src, dest, h);
                    let ghost root_move = self.best_root_move;
                    let mut j: usize = 0;
                    while j < quiets_tried
                        invariant
                            self.best_root_move == root_move,
                            self.wf(),
                            same_game(&self.board, &b0),
                            MAX_GAME_LENGTH - self.board.history@.len() == MAX_GAME_LENGTH - b0.history@.len(),
                            j <= quiets_tried <= 128,
                            ply < MAX_SEARCH_DEPTH,
                            t < 2,
                            1 <= dd <= 1_002_001,
                        decreases quiets_tried - j,
                    {
                        let mv = self.quiets_tried[ply][j];
                        let m_src = BitMove::src(mv) as usize;
                        let m_dest = BitMove::dest(mv) as usize;
                        let h = bump_history(self.history_score[t][m_src][m_dest], -dd);
                        set_history(&mut self.history_score, t, m_src, m_dest, h);
                        j = j + 1;
                    }
                }
                break;
            } else if !is_cap {
                if quiets_tried < 128 {
                    let mut row = self.quiets_tried[ply];
                    row[quiets_tried] = m;
                    self.quiets_tried[ply] = row;
                    quiets_tried = quiets_tried + 1;
                }
            }
            i = i + 1;
        }

        if legals == 0 {
            if in_check {
                best_score = -IMMEDIATE_MATE_SCORE + ply as Score;
            } else {
                best_score = 0;
            }
        }
        if !self.should_stop() {
            let flag = if best_score >= beta {
                Bound::Lower
            } else if alpha != old_alpha {
                Bound::Exact
            } else {
                Bound::Upper
            };
            let entry = HashEntry::new(self.board.key(), depth, best_move, best_score, eval, flag);
            self.table.store(entry, ply);
        }
        best_score
    }

    /// Quiescence search: captures, promotions and checks until the position is quiet,
    /// standing pat on the static evaluation. At the root of the quiescence search the
    /// table is read and written.
    #[verifier::rlimit(60)]
    pub fn quiesence(&mut self, alpha_in: Score, beta: Score, root: bool) -> (r: Score)
        requires
            old(self).wf(),
            -SCORE_LIMIT <= alpha_in < beta <= SCORE_LIMIT,
        ensures
            final(self).wf(),
            same_game(&final(self).board, &old(self).board),
            -SCORE_LIMIT <= r <= SCORE_LIMIT,
            final(self).best_root_move == old(self).best_root_move,
            old(self).stop ==> r == 0,
            old(self).board.pos.rule_fifty >= 100 || repeats(&old(self).board) || material_draw(&old(self).board)
                ==> r == 0,
        decreases MAX_GAME_LENGTH - old(self).board.history@.len(), 0int,
    {
        let mut alpha = alpha_in;
        if self.num_nodes & 4096 == 0 {
            self.checkup();
        }
        if self.should_stop() {
            return 0;
        }
        if is_draw(&self.board) {
            return 0;
        }
        let mut tt_move: u16 = 0;
        if root {
            let entry = self.table.probe(self.board.key(), 0);
            match entry {
                Some(e) => {
                    match table_cutoff(e, 0, alpha, beta) {
                        Some(score) => {
                            return score;
                        },
                        None => {},
                    }
                    tt_move = e.m;
                },
                None => {},
            }
        }
        self.num_nodes = self.num_nodes.wrapping_add(1);
        if self.board.pos.ply > self.sel_depth {
            self.sel_depth = self.board.pos.ply;
        }

        // Stand pat
        let eval = evaluate(&self.board);
        if eval >= beta {
            return eval;
        }
        if eval > alpha {
            alpha = eval;
        }
        // delta pruning
        let diff = alpha - eval - DELTA_PRUNING;
        if diff > 0 && diff > max_gain(&self.board) {
            return eval;
        }

        let mut moves = MoveList::quiet(MovegenParams::simple(&self.board));
        let mut legals: usize = 0;
        let mut best_score = eval;
        let old_alpha = alpha;
        let futility_base = if self.board.in_check() { -INFINITY } else { eval + 155 };
        if tt_move != 0 {
            set_tt_move_score(&mut moves, tt_move);
        }

        let ghost b0 = self.board;
        let n = moves.size();
        let mut i: usize = 0;
        while i < n
            invariant_except_break
                alpha < beta,
                legals <= i,
            invariant
                self.wf(),
                same_game(&self.board, &b0),
                self.best_root_move == old(self).best_root_move,
                moves.wf(),
                n == moves.moves().len(),
                all_gen_ok(&b0, moves.moves()),
                i <= n,
                -SCORE_LIMIT <= alpha <= SCORE_LIMIT,
                -SCORE_LIMIT <= beta <= SCORE_LIMIT,
                -SCORE_LIMIT <= best_score <= SCORE_LIMIT,
                -SCORE_LIMIT <= old_alpha <= SCORE_LIMIT,
                -10_000_000 <= eval <= 10_000_000,
                -10_000_000 <= futility_base <= 10_000_155,
                same_game(&b0, &old(self).board),
                0 <= legals <= n,
                MAX_GAME_LENGTH - self.board.history@.len() == MAX_GAME_LENGTH - b0.history@.len(),
            decreases n - i,
        {
            proof {
                moves.lemma_lengths();
            }
            let ghost ms0 = moves.moves();
            let ghost sc0 = moves.scores();
            pick_next_move(&mut moves, i);
            proof {
                lemma_swap_gen_ok(&b0, ms0, i as int, crate::order::pick_from(sc0, i as int, 0, i as int));
            }
            let m = moves.get(i);
            proof {
                lemma_same_game_gen_ok(&b0, &self.board, moves.moves());
                assert(gen_move_ok(&self.board, moves.moves()[i as int]));
            }
            if !is_legal_move(&self.board, m) {
                i = i + 1;
                continue;
            }
            let is_prom = BitMove::is_prom(m);
            let gives_check = self.board.gives_check(m);
            legals = legals + 1;

            // Futility pruning
            if !gives_check && futility_base > -INFINITY && !is_prom {
                if legals > 2 {
                    i = i + 1;
                    continue;
                }
                let dest = BitMove::dest(m);
                // This move isn't a promotion and doesn't give check, so it is a capture
                let futility_value = futility_base + self.board.piece_type(dest).eg_value();
                if futility_value <= alpha {
                    if futility_value > best_score {
                        best_score = futility_value;
                    }
                    i = i + 1;
                    continue;
                }
                if futility_base <= alpha && !self.board.see_ge(m, 1) {
                    if futility_base > best_score {
                        best_score = futility_base;
                    }
                    i = i + 1;
                    continue;
                }
            }

            // This move (likely) won't raise alpha
            if !passes_delta(&self.board, m, eval, alpha) {
                i = i + 1;
                continue;
            }

            // if eval + SEE exceeds beta, return early, as the opponent should've
            // had a better option earlier
            let see = self.board.see_approximate(m);
            if see + eval > beta {
                best_score = see;
                break;
            }
            if !self.board.see_ge(m, 0) {
                i = i + 1;
                continue;
            }
            if !self.board.move_fits(m) {
                i = i + 1;
                continue;
            }
            let ghost before = self.board;
            play(&mut self.board, m);
            let score = -self.quiesence(-beta, -alpha, false);
            take_back(&mut self.board, m, Ghost(before));
            if score > best_score {
                best_score = score;
            }
            if score > alpha {
                alpha = score;
            }
            if score >= beta {
                break;
            }
            i = i + 1;
        }

        if root {
            let best = match self.table.best_move(self.board.key()) {
                Some(mv) => mv,
                None => 0,
            };
            let flag = if best_score >= beta {
                Bound::Lower
            } else if alpha != old_alpha {
                Bound::Exact
            } else {
                Bound::Upper
            };
            let entry = HashEntry::new(self.board.key(), 0, best, best_score, eval, flag);
            self.table.store(entry, 0);
        }
        best_score
    }
}


/// Appends to `pv` the table's best moves from the position on, while each is legal, at
/// most `depth` of them; the board is played forward and back.
/// The move the table stores for the position of `b`: its slot holds that position and
/// a move, the move is legal and it can be played.
pub open spec fn stored_legal_move(table: &HashTable, b: &Board, m: u16) -> bool {
    let e = table.entries@[table.slot(b.pos.key)];
    &&& e.key != 0
    &&& e.key == b.pos.key
    &&& e.m != 0
    &&& m == e.m
    &&& legal_spec(b, m)
    &&& move_ok(b, m)
}

/// The table stores for the position of `b` a playable legal king move onto a square
/// without a piece of the side to move.
pub open spec fn stored_king_step(table: &HashTable, b: &Board) -> bool {
    exists|d: int|
        king_hits(king_sq_of(b, b.turn), d) && !bit(b.side_bb[player_idx(b.turn)], d)
            && stored_legal_move(table, b, #[trigger] king_step(b, d))
}

fn pv_from(table: &HashTable, board: &mut Board, depth: u8, pv: &mut Vec<u16>)
    requires
        table.wf(),
        perft_ready(old(board)),
        old(board).history@.len() <= MAX_GAME_LENGTH,
    ensures
        same_game(final(board), old(board)),
        final(board).killers == old(board).killers,
        old(pv)@.len() <= final(pv)@.len() <= old(pv)@.len() + depth,
        final(pv)@.subrange(0, old(pv)@.len() as int) == old(pv)@,
        final(pv)@.len() > old(pv)@.len() ==> stored_legal_move(table, old(board), final(pv)@[old(pv)@.len() as int]),
        depth > 0 && stored_king_step(table, old(board)) ==> final(pv)@.len() > old(pv)@.len(),
    decreases depth,
{
    if depth == 0 {
        return;
    }
    let m = match table.best_move(board.key()) {
        Some(m) => m,
        None => {
            return;
        },
    };
    let legal = MoveList::legal(MovegenParams::simple(board));
    if !legal.contains(m) {
        proof {
            if stored_king_step(table, board) {
                let d = choose|d: int|
                    king_hits(king_sq_of(board, board.turn), d) && !bit(board.side_bb[player_idx(board.turn)], d)
                        && stored_legal_move(table, board, #[trigger] king_step(board, d));
                assert(legal.moves().contains(king_step(board, d)));
            }
        }
        return;
    }
    if !board.move_fits(m) {
        return;
    }
    let ghost p0 = pv@;
    pv.push(m);
    let ghost before = *board;
    play(board, m);
    pv_from(table, board, depth - 1, pv);
    take_back(board, m, Ghost(before));
    proof {
        assert(pv@.subrange(0, p0.len() as int) =~= p0) by {
            assert(pv@.subrange(0, p0.len() + 1int) == p0.push(m));
            assert(p0.push(m).subrange(0, p0.len() as int) =~= p0);
        }
        assert(pv@[p0.len() as int] == pv@.subrange(0, p0.len() + 1int)[p0.len() as int]);
    }
}

impl HashTable {
    /// The principal variation stored in the table: its best moves from the position on,
    /// while each is legal, at most `depth` of them. The board is left as it was.
    pub fn extract_pv(&self, board: &mut Board, depth: u8) -> (r: Vec<u16>)
        requires
            self.wf(),
            perft_ready(old(board)),
            old(board).history@.len() <= MAX_GAME_LENGTH,
        ensures
            same_game(final(board), old(board)),
            final(board).killers == old(board).killers,
            r@.len() <= depth,
            r@.len() > 0 ==> stored_legal_move(self, old(board), r@[0]),
            depth > 0 && stored_king_step(self, old(board)) ==> r@.len() > 0,
    {
        let mut pv: Vec<u16> = Vec::new();
        pv_from(self, board, depth, &mut pv);
        pv
    }
}


/// How a score is reported: a mate on the board, a mate in a number of moves (negative
/// when the side to move is mated), or centipawns.
#[derive(Clone, Copy, PartialEq, Eq, Structural, Debug)]
pub enum ScoreText {
    Mate,
    MateIn(Score),
    Cp(Score),
}

/// The report of `score`: a bare mate at the mate score itself, moves to mate beyond
/// the mate threshold (half the plies, rounded toward zero), centipawns otherwise.
pub fn score_text(score: Score) -> (r: ScoreText)
    ensures
        r == (if score == IMMEDIATE_MATE_SCORE || score == -IMMEDIATE_MATE_SCORE {
            ScoreText::Mate
        } else if score > IS_MATE {
            ScoreText::MateIn(crate::heuristics::div_trunc(IMMEDIATE_MATE_SCORE - score + 1, 2) as i32)
        } else if score < -IS_MATE {
            ScoreText::MateIn(crate::heuristics::div_trunc(-(score + IMMEDIATE_MATE_SCORE), 2) as i32)
        } else {
            ScoreText::Cp(score)
        }),
{
    if score == IMMEDIATE_MATE_SCORE || score == -IMMEDIATE_MATE_SCORE {
        ScoreText::Mate
    } else if score > IS_MATE {
        let n: i64 = IMMEDIATE_MATE_SCORE as i64 - score as i64 + 1;
        let q: i64 = if n >= 0 { n / 2 } else { -((-n) / 2) };
        ScoreText::MateIn(q as i32)
    } else if score < -IS_MATE {
        let n: i64 = -(score as i64 + IMMEDIATE_MATE_SCORE as i64);
        let q: i64 = if n >= 0 { n / 2 } else { -((-n) / 2) };
        ScoreText::MateIn(q as i32)
    } else {
        ScoreText::Cp(score)
    }
}

/// The deepest iteration of a search limited to `depth` plies, at most a thousand.
pub fn iteration_limit(depth: usize) -> (r: i32)
    ensures
        r == (if depth < 1000 { depth as int } else { 1000 }),
{
    if depth < 1000 {
        depth as i32
    } else {
        1000
    }
}

/// The decision after the iteration to `depth` of iterative deepening: whether to go
/// on to the next depth (not when the search was stopped or the last depth is done),
/// and the best root move, the first move of the iteration's principal variation unless
/// the iteration was stopped or found none.
pub fn after_iteration(depth: i32, max_depth: i32, stopped: bool, pv: &Vec<u16>, best_root_move: u16) -> (r: (bool, u16))
    ensures
        r.0 == (!stopped && depth < max_depth),
        r.1 == (if !stopped && pv@.len() > 0 {
            pv@[0]
        } else {
            best_root_move
        }),
{
    if stopped {
        return (false, best_root_move);
    }
    let best = if pv.len() > 0 { pv[0] } else { best_root_move };
    (depth < max_depth, best)
}

} // verus!
