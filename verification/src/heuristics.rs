//! Move ordering statistics gathered during search: history, capture history,
//! continuation history and killer moves.
use vstd::prelude::*;
use crate::bitmove::{BitMove, MoveFlag, flag_is_cap, flag_is_prom, move_dest, move_flag, move_src};
use crate::board::Board;
use crate::defs::{Depth, Piece, PieceType, Player, Score, MAX_STACK_SIZE, pt_idx, player_idx, piece_idx};
use crate::movelist::MoveList;

verus! {

/// What a tactical move takes, for the capture statistics: a pawn for en passant and
/// for a promotion that captures nothing.
pub open spec fn taken_type(b: &Board, m: u16) -> PieceType {
    if move_flag(m) == MoveFlag::EN_PASSANT || !flag_is_cap(move_flag(m)) {
        PieceType::Pawn
    } else {
        b.at(move_dest(m)).t
    }
}

/// The capture statistics can index a tactical move: a piece stands on its source
/// square, and a capture other than en passant has something to take.
pub open spec fn capture_indexable(b: &Board, m: u16) -> bool {
    &&& b.at(move_src(m)).t != PieceType::NoPiece
    &&& (flag_is_cap(move_flag(m)) && move_flag(m) != MoveFlag::EN_PASSANT ==> b.at(move_dest(m)).t
        != PieceType::NoPiece)
}

/// Every move the board records, for the current state and the stored ones, is a real
/// move and names the piece that made it.
pub open spec fn moves_recorded(b: &Board) -> bool {
    &&& (b.pos.last_move matches Some(m) ==> m != 0 && b.pos.moved_piece.t != PieceType::NoPiece)
    &&& forall|i: int| 0 <= i < b.history@.len() ==> ((#[trigger] b.history@[i]).last_move matches Some(m)
        ==> m != 0 && b.history@[i].moved_piece.t != PieceType::NoPiece)
}

/// A made move keeps every recorded move naming its piece: the state pushed onto the
/// history was recorded, and the new state records a real move with its piece.
pub proof fn lemma_recorded_after_move(before: &Board, after: &Board, m: u16)
    requires
        moves_recorded(before),
        after.history@ == before.history@.push(before.pos),
        after.pos.last_move == Some(m),
        m != 0,
        after.pos.moved_piece.t != PieceType::NoPiece,
    ensures
        moves_recorded(after),
{
    assert forall|i: int| 0 <= i < after.history@.len() implies ((#[trigger] after.history@[i]).last_move matches Some(
        lm,
    ) ==> lm != 0 && after.history@[i].moved_piece.t != PieceType::NoPiece) by {
        if i < before.history@.len() {
            assert(after.history@[i] == before.history@[i]);
        } else {
            assert(after.history@[i] == before.pos);
        }
    }
}

/// The earlier moves that the continuation statistics of a move draw on, as the index
/// of the piece that made each one and its destination: `k == 0` the last move,
/// `k == 1` the one before it and `k == 2` the one three plies before the last, each
/// where the ply counter and the stored states reach that far and a move is recorded.
pub open spec fn cont_target(b: &Board, k: int) -> Option<(int, int)> {
    let n = b.history@.len();
    if k == 0 {
        if b.pos.ply > 0 {
            match b.pos.last_move {
                Some(lm) => Some((piece_idx(b.pos.moved_piece), move_dest(lm))),
                None => None,
            }
        } else {
            None
        }
    } else {
        let back = if k == 1 { 1int } else { 3int };
        if b.pos.ply > back && n >= back {
            match b.history@[n - back].last_move {
                Some(lm) => Some((piece_idx(b.history@[n - back].moved_piece), move_dest(lm))),
                None => None,
            }
        } else {
            None
        }
    }
}

/// The continuation statistic of a piece with index `pc` moving to `dest` after the
/// earlier move `t`, zero where there is none.
pub open spec fn cont_term(h: &Heuristics, t: Option<(int, int)>, pc: int, dest: int) -> int {
    match t {
        Some((p, pd)) => h.continuation@[p][pd][pc][dest] as int,
        None => 0,
    }
}

/// The sum of the continuation statistics of move `m` over its earlier moves.
pub open spec fn cont_sum(h: &Heuristics, b: &Board, m: u16) -> int {
    let pc = piece_idx(b.at(move_src(m)));
    let d = move_dest(m);
    cont_term(h, cont_target(b, 0), pc, d) + cont_term(h, cont_target(b, 1), pc, d) + cont_term(
        h,
        cont_target(b, 2),
        pc,
        d,
    )
}

/// `v` kept within the range of a score.
pub open spec fn clamp_score(v: int) -> int {
    if v > i32::MAX {
        i32::MAX as int
    } else if v < i32::MIN {
        i32::MIN as int
    } else {
        v
    }
}

/// Division rounding toward zero by a positive divisor.
pub open spec fn div_trunc(a: int, b: int) -> int {
    if a >= 0 {
        a / b
    } else {
        -((-a) / b)
    }
}

/// The change applied to a statistic `e` for `bonus`: the bonus, damped as the
/// statistic approaches 32768 in the bonus's direction.
pub open spec fn gravity(e: int, bonus: int) -> int {
    let a = if bonus < 0 { -bonus } else { bonus };
    bonus - div_trunc(a * e, 32768)
}

/// The bonus for a search to `depth`: sixteen times the square of one more than the
/// depth, at most 1200.
pub open spec fn depth_bonus(depth: int) -> int {
    let b = 16 * (depth + 1) * (depth + 1);
    if b < 1200 {
        b
    } else {
        1200
    }
}

/// A statistic `e` after `n` additions of `v`, each kept within the range of a score.
pub open spec fn add_times(e: int, n: nat, v: int) -> int
    decreases n,
{
    if n == 0 {
        e
    } else {
        clamp_score(add_times(e, (n - 1) as nat, v) + v)
    }
}

/// Whether earlier move `k` of `b` is the move of piece index `p` to `pd`, as a count.
pub open spec fn cont_hit(b: &Board, k: int, p: int, pd: int) -> nat {
    if cont_target(b, k) == Some((p, pd)) {
        1
    } else {
        0
    }
}

/// How many of the earlier moves of `b` are the move of piece index `p` to `pd`.
pub open spec fn cont_hits(b: &Board, p: int, pd: int) -> nat {
    cont_hit(b, 0, p, pd) + cont_hit(b, 1, p, pd) + cont_hit(b, 2, p, pd)
}

/// `e + delta` for a statistic `e`, kept within the range of a score.
fn add_clamped(e: Score, delta: i64) -> (r: Score)
    requires
        -1099511627776 <= delta <= 1099511627776,
    ensures
        r == clamp_score(e + delta),
{
    let v: i64 = e as i64 + delta;
    if v > i32::MAX as i64 {
        i32::MAX
    } else if v < i32::MIN as i64 {
        i32::MIN
    } else {
        v as i32
    }
}

/// The change for statistic `e` and `bonus`, as `gravity` states it.
fn gravity_step(e: i64, bonus: i64) -> (r: i64)
    requires
        -17179869184 <= e <= 17179869184,
        -1200 <= bonus <= 1200,
    ensures
        r == gravity(e as int, bonus as int),
        -1073741824 <= r <= 1073741824,
{
    let a: i64 = if bonus < 0 { -bonus } else { bonus };
    assert(-20615843020800 <= a * e <= 20615843020800) by (nonlinear_arith)
        requires
            0 <= a <= 1200,
            -17179869184 <= e <= 17179869184,
    ;
    let p: i64 = a * e;
    let q: i64 = if p >= 0 { p / 32768 } else { -((-p) / 32768) };
    bonus - q
}


/// One continuation table: indexed by the moved piece and destination of the current move.
pub type ContTable = [[[Score; 64]; 12]; 64];

/// Move ordering statistics.
pub struct Heuristics {
    /// Per side, source and destination: how well quiet moves did.
    pub history: [[[Score; 64]; 64]; 2],
    /// Per colored piece, destination and captured type: how well captures did.
    pub capture: [[[Score; 6]; 64]; 12],
    /// Per colored piece of an earlier move and its destination, then per piece and
    /// destination of the current move.
    pub continuation: Vec<ContTable>,
    /// Per ply, two quiet moves that caused a beta cutoff.
    pub killers: [[u16; 2]; MAX_STACK_SIZE],
}

/// An earlier move with the piece that made it, as piece index and destination.
pub open spec fn target_of(t: Option<(u16, Piece)>) -> Option<(int, int)> {
    match t {
        Some((lm, p)) => Some((piece_idx(p), move_dest(lm))),
        None => None,
    }
}

/// One more addition to each continuation statistic that earlier move `t` hits: the
/// counts of additions per statistic grow by one where `t` hits.
proof fn lemma_cont_step(
    h0: Seq<ContTable>,
    before: Seq<ContTable>,
    after: Seq<ContTable>,
    t: Option<(int, int)>,
    n: spec_fn(int, int) -> nat,
    pc: int,
    d: int,
    v: int,
)
    requires
        forall|i: int, a: int, b: int, e: int|
            0 <= i < 12 && 0 <= a < 64 && 0 <= b < 12 && 0 <= e < 64 ==> #[trigger] before[i][a][b][e] == if b == pc
                && e == d {
                add_times(h0[i][a][b][e] as int, n(i, a), v)
            } else {
                h0[i][a][b][e] as int
            },
        forall|i: int, a: int, b: int, e: int|
            0 <= i < 12 && 0 <= a < 64 && 0 <= b < 12 && 0 <= e < 64 ==> #[trigger] after[i][a][b][e] == if t == Some(
                (i, a),
            ) && b == pc && e == d {
                clamp_score(before[i][a][b][e] + v)
            } else {
                before[i][a][b][e] as int
            },
    ensures
        forall|i: int, a: int, b: int, e: int|
            0 <= i < 12 && 0 <= a < 64 && 0 <= b < 12 && 0 <= e < 64 ==> #[trigger] after[i][a][b][e] == if b == pc
                && e == d {
                add_times(h0[i][a][b][e] as int, n(i, a) + (if t == Some((i, a)) { 1nat } else { 0nat }), v)
            } else {
                h0[i][a][b][e] as int
            },
{
    assert forall|i: int, a: int, b: int, e: int|
        0 <= i < 12 && 0 <= a < 64 && 0 <= b < 12 && 0 <= e < 64 implies #[trigger] after[i][a][b][e] == if b == pc
            && e == d {
            add_times(h0[i][a][b][e] as int, n(i, a) + (if t == Some((i, a)) { 1nat } else { 0nat }), v)
        } else {
            h0[i][a][b][e] as int
        } by {
        assert(before[i][a][b][e] == before[i][a][b][e]);
        if t == Some((i, a)) && b == pc && e == d {
            let k = n(i, a);
            assert(add_times(h0[i][a][b][e] as int, k + 1, v) == clamp_score(
                add_times(h0[i][a][b][e] as int, k, v) + v,
            ));
        }
    }
}

/// What `Heuristics::update` needs to index its statistics: the board's recorded
/// moves name their pieces, each quiet move of a quiet cutoff has a piece on its
/// source square, and each tactical move can be indexed in the capture statistics.
pub open spec fn update_ok(b: &Board, best: u16, quiets: Seq<u16>, noisy: Seq<u16>) -> bool {
    let tactical = flag_is_cap(move_flag(best)) || flag_is_prom(move_flag(best));
    &&& moves_recorded(b)
    &&& (tactical ==> capture_indexable(b, best))
    &&& (!tactical ==> b.at(move_src(best)).t != PieceType::NoPiece)
    &&& (!tactical ==> forall|i: int| 0 <= i < quiets.len() ==> b.at(move_src(#[trigger] quiets[i])).t != PieceType::NoPiece)
    &&& forall|i: int| 0 <= i < noisy.len() ==> capture_indexable(b, #[trigger] noisy[i])
}

/// A statistic `e` after `n` damped changes by `bonus`, each kept within the range of a
/// score.
pub open spec fn grav_times(e: int, n: nat, bonus: int) -> int
    decreases n,
{
    if n == 0 {
        e
    } else {
        let p = grav_times(e, (n - 1) as nat, bonus);
        clamp_score(p + gravity(p, bonus))
    }
}

/// How many of the first `n` moves of `ms`, other than `best`, go from `sq` to `d`.
pub open spec fn quiet_hits(ms: Seq<u16>, best: u16, sq: int, d: int, n: int) -> nat
    decreases n,
{
    if n <= 0 {
        0
    } else {
        quiet_hits(ms, best, sq, d, n - 1) + (if ms[n - 1] != best && move_src(ms[n - 1]) == sq
            && move_dest(ms[n - 1]) == d {
            1nat
        } else {
            0nat
        })
    }
}

/// The capture statistic a tactical move `m` of `b` is scored by, as piece index,
/// destination and taken type index.
pub open spec fn capture_entry(b: &Board, m: u16) -> (int, int, int) {
    (piece_idx(b.at(move_src(m))), move_dest(m), pt_idx(taken_type(b, m)))
}

/// How many of the first `n` moves of `ms`, other than `best`, are scored by the
/// capture statistic `e`.
pub open spec fn capture_hits(b: &Board, ms: Seq<u16>, best: u16, e: (int, int, int), n: int) -> nat
    decreases n,
{
    if n <= 0 {
        0
    } else {
        capture_hits(b, ms, best, e, n - 1) + (if ms[n - 1] != best && capture_entry(b, ms[n - 1]) == e {
            1nat
        } else {
            0nat
        })
    }
}

/// A continuation statistic `(i, a, c, e)` after the cutoff update of `h0`: first the
/// best move rewarded by `bonus`, then each of the first `n` moves of `ms` other than
/// the best penalised by it. Each such move changes the statistics of its piece and
/// destination after each earlier move the board records, by the damped change computed
/// from their sum at that time.
pub open spec fn cont_after(
    h0: Seq<ContTable>,
    b: &Board,
    best: u16,
    ms: Seq<u16>,
    bonus: int,
    n: int,
    i: int,
    a: int,
    c: int,
    e: int,
) -> int
    decreases n,
{
    let m = if n <= 0 { best } else { ms[n - 1] };
    let v = if n <= 0 { bonus } else { -bonus };
    let pc = piece_idx(b.at(move_src(m)));
    let d = move_dest(m);
    let prev = if n <= 0 {
        h0[i][a][c][e] as int
    } else {
        cont_after(h0, b, best, ms, bonus, n - 1, i, a, c, e)
    };
    if (n <= 0 || m != best) && c == pc && e == d {
        let t0 = match cont_target(b, 0) {
            Some((p, pd)) => if n <= 0 {
                h0[p][pd][pc][d] as int
            } else {
                cont_after(h0, b, best, ms, bonus, n - 1, p, pd, pc, d)
            },
            None => 0,
        };
        let t1 = match cont_target(b, 1) {
            Some((p, pd)) => if n <= 0 {
                h0[p][pd][pc][d] as int
            } else {
                cont_after(h0, b, best, ms, bonus, n - 1, p, pd, pc, d)
            },
            None => 0,
        };
        let t2 = match cont_target(b, 2) {
            Some((p, pd)) => if n <= 0 {
                h0[p][pd][pc][d] as int
            } else {
                cont_after(h0, b, best, ms, bonus, n - 1, p, pd, pc, d)
            },
            None => 0,
        };
        add_times(prev, cont_hits(b, i, a), gravity(clamp_score(t0 + t1 + t2), v))
    } else {
        prev
    }
}

/// The earlier moves a board records index the continuation statistics.
proof fn lemma_cont_targets_in_range(b: &Board)
    requires
        moves_recorded(b),
    ensures
        forall|k: int| 0 <= k < 3 ==> (#[trigger] cont_target(b, k) matches Some((p, pd)) ==> 0 <= p < 12 && 0 <= pd < 64),
{
    crate::defs::lemma_pt_idx(b.pos.moved_piece.t);
    let n = b.history@.len();
    if n >= 1 {
        crate::defs::lemma_pt_idx(b.history@[n - 1].moved_piece.t);
    }
    if n >= 3 {
        crate::defs::lemma_pt_idx(b.history@[n - 3].moved_piece.t);
    }
}

impl Heuristics {
    /// The continuation table has one entry per colored piece.
    pub open spec fn wf(&self) -> bool {
        self.continuation@.len() == 12
    }

    /// All statistics zero.
    pub fn new() -> (r: Self)
        ensures
            r.wf(),
            forall|s: int, a: int, b: int| 0 <= s < 2 && 0 <= a < 64 && 0 <= b < 64 ==> r.history[s][a][b] == 0,
            forall|p: int, d: int, c: int| 0 <= p < 12 && 0 <= d < 64 && 0 <= c < 6 ==> r.capture[p][d][c] == 0,
            forall|i: int, p: int, d: int, q: int| 0 <= i < 12 && 0 <= p < 64 && 0 <= d < 12 && 0 <= q < 64
                ==> r.continuation@[i][p][d][q] == 0,
            forall|i: int, j: int| 0 <= i < MAX_STACK_SIZE && 0 <= j < 2 ==> r.killers[i][j] == 0,
    {
        let table: ContTable = [[[0; 64]; 12]; 64];
        let mut continuation: Vec<ContTable> = Vec::new();
        let mut i: usize = 0;
        while i < 12
            invariant
                i <= 12,
                continuation@.len() == i,
                forall|k: int| 0 <= k < i ==> continuation@[k] == table,
            decreases 12 - i,
        {
            continuation.push(table);
            i = i + 1;
        }
        Heuristics {
            history: [[[0; 64]; 64]; 2],
            capture: [[[0; 6]; 64]; 12],
            continuation,
            killers: [[0; 2]; 128],
        }
    }

    /// Zeroes the history, capture and continuation statistics, keeping the killers.
    pub fn clear_non_killers(&mut self)
        requires
            old(self).wf(),
        ensures
            final(self).wf(),
            forall|s: int, a: int, b: int| 0 <= s < 2 && 0 <= a < 64 && 0 <= b < 64 ==> final(self).history[s][a][b] == 0,
            forall|p: int, d: int, c: int| 0 <= p < 12 && 0 <= d < 64 && 0 <= c < 6 ==> final(self).capture[p][d][c] == 0,
            forall|i: int, p: int, d: int, q: int| 0 <= i < 12 && 0 <= p < 64 && 0 <= d < 12 && 0 <= q < 64
                ==> final(self).continuation@[i][p][d][q] == 0,
            final(self).killers == old(self).killers,
    {
        self.history = [[[0; 64]; 64]; 2];
        self.capture = [[[0; 6]; 64]; 12];
        let table: ContTable = [[[0; 64]; 12]; 64];
        let mut i: usize = 0;
        while i < 12
            invariant
                i <= 12,
                self.continuation@.len() == 12,
                forall|k: int| 0 <= k < i ==> self.continuation@[k] == table,
                forall|s: int, a: int, b: int| 0 <= s < 2 && 0 <= a < 64 && 0 <= b < 64 ==> self.history[s][a][b] == 0,
                forall|p: int, d: int, c: int| 0 <= p < 12 && 0 <= d < 64 && 0 <= c < 6 ==> self.capture[p][d][c] == 0,
                self.killers == old(self).killers,
            decreases 12 - i,
        {
            self.continuation.set(i, table);
            i = i + 1;
        }
    }

    /// Forgets all killer moves.
    pub fn clear_killers(&mut self)
        ensures
            forall|i: int, j: int| 0 <= i < MAX_STACK_SIZE && 0 <= j < 2 ==> final(self).killers[i][j] == 0,
            final(self).history == old(self).history,
            final(self).capture == old(self).capture,
            final(self).continuation@ == old(self).continuation@,
    {
        self.killers = [[0; 2]; 128];
    }

    /// Records a killer at `ply`, demoting the previous first killer to second.
    pub fn add_killer(&mut self, killer: u16, ply: usize)
        requires
            ply < MAX_STACK_SIZE,
        ensures
            final(self).killers@ == old(self).killers@.update(ply as int, [killer, old(self).killers[ply as int][0]]),
            final(self).history == old(self).history,
            final(self).capture == old(self).capture,
            final(self).continuation@ == old(self).continuation@,
    {
        let first = self.killers[ply][0];
        self.killers[ply] = [killer, first];
    }

    /// History score of a quiet move of `turn` from `src` to `dest`.
    pub fn get_history(&self, turn: Player, src: usize, dest: usize) -> (r: Score)
        requires
            src < 64,
            dest < 64,
        ensures
            r == self.history[player_idx(turn)][src as int][dest as int],
    {
        self.history[turn.as_usize()][src][dest]
    }

    /// Capture history score of `piece` capturing a `captured` on `dest`.
    pub fn get_capture(&self, piece: Piece, dest: usize, captured: PieceType) -> (r: Score)
        requires
            piece.t != PieceType::NoPiece,
            captured != PieceType::NoPiece,
            dest < 64,
        ensures
            r == self.capture[piece_idx(piece)][dest as int][pt_idx(captured)],
    {
        self.capture[piece.as_usize()][dest][captured.as_usize()]
    }

    /// The continuation statistic of a piece with index `piece` moving to `dest` after
    /// `pc` made the move `lm`.
    fn cont_value(&self, lm: u16, pc: Piece, piece: usize, dest: usize) -> (r: i64)
        requires
            self.wf(),
            pc.t != PieceType::NoPiece,
            piece < 12,
            dest < 64,
        ensures
            r == self.continuation@[piece_idx(pc)][move_dest(lm)][piece as int][dest as int],
            i32::MIN <= r <= i32::MAX,
    {
        self.continuation[pc.as_usize()][BitMove::dest(lm) as usize][piece][dest] as i64
    }

    /// The ordering score of `m`: the history of a quiet move, the capture history of a
    /// capture or promotion.
    pub fn get_heuristic(&self, board: &Board, m: u16) -> (r: Score)
        requires
            flag_is_cap(move_flag(m)) || flag_is_prom(move_flag(m)) ==> capture_indexable(board, m),
        ensures
            !(flag_is_cap(move_flag(m)) || flag_is_prom(move_flag(m))) ==> r == self.history[player_idx(
                board.turn,
            )][move_src(m)][move_dest(m)],
            flag_is_cap(move_flag(m)) || flag_is_prom(move_flag(m)) ==> r == self.capture[piece_idx(
                board.at(move_src(m)),
            )][move_dest(m)][pt_idx(taken_type(board, m))],
    {
        let (src, dest) = BitMove::to_squares(m);
        if !BitMove::is_tactical(m) {
            self.get_history(board.turn, src as usize, dest as usize)
        } else {
            let piece = board.piece(src);
            let captured = if BitMove::is_ep(m) {
                PieceType::Pawn
            }
            // Promotion without capture
             else if !BitMove::is_cap(m) {
                PieceType::Pawn
            } else {
                board.piece_type(dest)
            };
            self.get_capture(piece, dest as usize, captured)
        }
    }

    /// The continuation statistic of `m` after the earlier moves the board records,
    /// summed and kept within the range of a score.
    pub fn get_continuation(&self, board: &Board, m: u16) -> (r: Score)
        requires
            self.wf(),
            moves_recorded(board),
            board.at(move_src(m)).t != PieceType::NoPiece,
        ensures
            r == clamp_score(cont_sum(self, board, m)),
    {
        let dest = BitMove::dest(m) as usize;
        let piece = board.piece(BitMove::src(m)).as_usize();
        let index = board.history.len();
        let ghost pc = piece_idx(board.at(move_src(m)));

        let first: i64 = if board.pos.ply > 0 {
            match board.pos.last_move {
                Some(lm) => self.cont_value(lm, board.pos.moved_piece, piece, dest),
                None => 0,
            }
        } else {
            0
        };
        assert(first == cont_term(self, cont_target(board, 0), pc, dest as int));
        let second: i64 = if board.pos.ply > 1 && index >= 1 {
            match board.history.get_move(index - 1) {
                Some((lm, p)) => self.cont_value(lm, p, piece, dest),
                None => 0,
            }
        } else {
            0
        };
        assert(second == cont_term(self, cont_target(board, 1), pc, dest as int));
        let third: i64 = if board.pos.ply > 3 && index >= 3 {
            match board.history.get_move(index - 3) {
                Some((lm, p)) => self.cont_value(lm, p, piece, dest),
                None => 0,
            }
        } else {
            0
        };
        assert(third == cont_term(self, cont_target(board, 2), pc, dest as int));
        let score: i64 = first + second + third;
        add_clamped(0, score)
    }

    /// Adds `delta` to the history of `c` from `s` to `d`, within the range of a score.
    fn bump_history_entry(&mut self, c: usize, sq: usize, d: usize, delta: i64)
        requires
            c < 2,
            sq < 64,
            d < 64,
            -1099511627776 <= delta <= 1099511627776,
        ensures
            forall|c2: int, s2: int, d2: int|
                0 <= c2 < 2 && 0 <= s2 < 64 && 0 <= d2 < 64 ==> #[trigger] final(self).history[c2][s2][d2] == if c2
                    == c && s2 == sq && d2 == d {
                    clamp_score(old(self).history[c2][s2][d2] + delta)
                } else {
                    old(self).history[c2][s2][d2] as int
                },
            final(self).capture == old(self).capture,
            final(self).continuation@ == old(self).continuation@,
            final(self).killers == old(self).killers,
    {
        let v = add_clamped(self.history[c][sq][d], delta);
        let mut side = self.history[c];
        let mut row = side[sq];
        row[d] = v;
        side[sq] = row;
        self.history[c] = side;
    }

    /// Adds `delta` to the capture history of piece index `p` taking type index `t` on
    /// `d`, within the range of a score.
    fn bump_capture_entry(&mut self, p: usize, d: usize, t: usize, delta: i64)
        requires
            p < 12,
            d < 64,
            t < 6,
            -1099511627776 <= delta <= 1099511627776,
        ensures
            forall|p2: int, d2: int, t2: int|
                0 <= p2 < 12 && 0 <= d2 < 64 && 0 <= t2 < 6 ==> #[trigger] final(self).capture[p2][d2][t2] == if p2
                    == p && d2 == d && t2 == t {
                    clamp_score(old(self).capture[p2][d2][t2] + delta)
                } else {
                    old(self).capture[p2][d2][t2] as int
                },
            final(self).history == old(self).history,
            final(self).continuation@ == old(self).continuation@,
            final(self).killers == old(self).killers,
    {
        let v = add_clamped(self.capture[p][d][t], delta);
        let mut per_piece = self.capture[p];
        let mut row = per_piece[d];
        row[t] = v;
        per_piece[d] = row;
        self.capture[p] = per_piece;
    }

    /// Adds `delta` to the continuation statistic of piece index `pc` moving to `d` after
    /// piece index `p` moved to `pd`, within the range of a score.
    fn bump_cont_entry(&mut self, p: usize, pd: usize, pc: usize, d: usize, delta: i64)
        requires
            old(self).wf(),
            p < 12,
            pd < 64,
            pc < 12,
            d < 64,
            -1099511627776 <= delta <= 1099511627776,
        ensures
            final(self).wf(),
            forall|i: int, a: int, b: int, e: int|
                0 <= i < 12 && 0 <= a < 64 && 0 <= b < 12 && 0 <= e < 64 ==> #[trigger] final(self).continuation@[i][a][b][e]
                    == if i == p && a == pd && b == pc && e == d {
                    clamp_score(old(self).continuation@[i][a][b][e] + delta)
                } else {
                    old(self).continuation@[i][a][b][e] as int
                },
            final(self).history == old(self).history,
            final(self).capture == old(self).capture,
            final(self).killers == old(self).killers,
    {
        let v = add_clamped(self.continuation[p][pd][pc][d], delta);
        let mut table = self.continuation[p];
        let mut row = table[pd];
        let mut cell = row[pc];
        cell[d] = v;
        row[pc] = cell;
        table[pd] = row;
        self.continuation.set(p, table);
    }

    /// Moves the history of quiet move `m` by `bonus`, damped toward the limit.
    fn update_history(&mut self, board: &Board, m: u16, bonus: Score)
        requires
            -1200 <= bonus <= 1200,
        ensures
            forall|c2: int, s2: int, d2: int|
                0 <= c2 < 2 && 0 <= s2 < 64 && 0 <= d2 < 64 ==> #[trigger] final(self).history[c2][s2][d2] == if c2
                    == player_idx(board.turn) && s2 == move_src(m) && d2 == move_dest(m) {
                    clamp_score(old(self).history[c2][s2][d2] + gravity(old(self).history[c2][s2][d2] as int, bonus as int))
                } else {
                    old(self).history[c2][s2][d2] as int
                },
            final(self).capture == old(self).capture,
            final(self).continuation@ == old(self).continuation@,
            final(self).killers == old(self).killers,
    {
        let (src, dest) = BitMove::to_squares(m);
        let e = self.get_history(board.turn, src as usize, dest as usize);
        let scaled = gravity_step(e as i64, bonus as i64);
        self.bump_history_entry(board.turn.as_usize(), src as usize, dest as usize, scaled);
    }

    /// Moves the capture history of tactical move `m` by `bonus`, damped toward the limit.
    fn update_capture(&mut self, board: &Board, m: u16, bonus: Score)
        requires
            -1200 <= bonus <= 1200,
            capture_indexable(board, m),
        ensures
            forall|p2: int, d2: int, t2: int|
                0 <= p2 < 12 && 0 <= d2 < 64 && 0 <= t2 < 6 ==> #[trigger] final(self).capture[p2][d2][t2] == if p2
                    == piece_idx(board.at(move_src(m))) && d2 == move_dest(m) && t2 == pt_idx(taken_type(board, m)) {
                    clamp_score(old(self).capture[p2][d2][t2] + gravity(old(self).capture[p2][d2][t2] as int, bonus as int))
                } else {
                    old(self).capture[p2][d2][t2] as int
                },
            final(self).history == old(self).history,
            final(self).continuation@ == old(self).continuation@,
            final(self).killers == old(self).killers,
    {
        let (src, dest) = BitMove::to_squares(m);
        let piece = board.piece(src);
        let captured = if BitMove::is_ep(m) {
            PieceType::Pawn
        }
        // Promotion without capture
         else if !BitMove::is_cap(m) {
            PieceType::Pawn
        } else {
            board.piece_type(dest)
        };
        let e = self.get_capture(piece, dest as usize, captured);
        let scaled = gravity_step(e as i64, bonus as i64);
        self.bump_capture_entry(piece.as_usize(), dest as usize, captured.as_usize(), scaled);
    }


    /// Adds `delta` to the continuation statistic of piece index `pc` moving to `d` after
    /// the earlier move `t`, if there is one.
    fn bump_after(&mut self, t: Option<(u16, Piece)>, pc: usize, d: usize, delta: i64)
        requires
            old(self).wf(),
            t matches Some((lm, p)) ==> p.t != PieceType::NoPiece,
            pc < 12,
            d < 64,
            -1099511627776 <= delta <= 1099511627776,
        ensures
            final(self).wf(),
            forall|i: int, a: int, b: int, e: int|
                0 <= i < 12 && 0 <= a < 64 && 0 <= b < 12 && 0 <= e < 64 ==> #[trigger] final(self).continuation@[i][a][b][e]
                    == if target_of(t) == Some((i, a)) && b == pc && e == d {
                    clamp_score(old(self).continuation@[i][a][b][e] + delta)
                } else {
                    old(self).continuation@[i][a][b][e] as int
                },
            final(self).history == old(self).history,
            final(self).capture == old(self).capture,
            final(self).killers == old(self).killers,
    {
        if let Some((lm, p)) = t {
            self.bump_cont_entry(p.as_usize(), BitMove::dest(lm) as usize, pc, d, delta);
        }
    }

    /// The earlier move `k` of `cont_target`, with the piece that made it.
    fn earlier_move(board: &Board, k: usize) -> (r: Option<(u16, Piece)>)
        requires
            k < 3,
            moves_recorded(board),
        ensures
            target_of(r) == cont_target(board, k as int),
            r matches Some((lm, p)) ==> p.t != PieceType::NoPiece,
    {
        let index = board.history.len();
        if k == 0 {
            if board.pos.ply > 0 {
                match board.pos.last_move {
                    Some(lm) => Some((lm, board.pos.moved_piece)),
                    None => None,
                }
            } else {
                None
            }
        } else {
            let back: usize = if k == 1 { 1 } else { 3 };
            if board.pos.ply > back && index >= back {
                let r = board.history.get_move(index - back);
                proof {
                    if r is Some {
                        assert(board.history@[index - back].last_move is Some);
                    }
                }
                r
            } else {
                None
            }
        }
    }

    /// Moves the continuation statistics of quiet move `m` after each earlier move the
    /// board records by the same damped change, computed from their sum.
    fn update_continuation(&mut self, board: &Board, m: u16, bonus: Score)
        requires
            old(self).wf(),
            moves_recorded(board),
            board.at(move_src(m)).t != PieceType::NoPiece,
            -1200 <= bonus <= 1200,
        ensures
            final(self).wf(),
            forall|i: int, a: int, b: int, e: int|
                0 <= i < 12 && 0 <= a < 64 && 0 <= b < 12 && 0 <= e < 64 ==> #[trigger] final(self).continuation@[i][a][b][e]
                    == if b == piece_idx(board.at(move_src(m))) && e == move_dest(m) {
                    add_times(
                        old(self).continuation@[i][a][b][e] as int,
                        cont_hits(board, i, a),
                        gravity(clamp_score(cont_sum(old(self), board, m)), bonus as int),
                    )
                } else {
                    old(self).continuation@[i][a][b][e] as int
                },
            final(self).history == old(self).history,
            final(self).capture == old(self).capture,
            final(self).killers == old(self).killers,
    {
        let ghost h0 = self.continuation@;
        let sum = self.get_continuation(board, m);
        let scaled = gravity_step(sum as i64, bonus as i64);
        let ghost v = scaled as int;
        let dest = BitMove::dest(m) as usize;
        let piece = board.piece(BitMove::src(m)).as_usize();
        let ghost pc = piece as int;
        let ghost d = dest as int;
        let ghost n0 = |i: int, a: int| 0nat;
        let ghost n1 = |i: int, a: int| cont_hit(board, 0, i, a);
        let ghost n2 = |i: int, a: int| cont_hit(board, 0, i, a) + cont_hit(board, 1, i, a);

        let t0 = Self::earlier_move(board, 0);
        self.bump_after(t0, piece, dest, scaled);
        proof {
            lemma_cont_step(h0, h0, self.continuation@, target_of(t0), n0, pc, d, v);
        }
        let ghost c1 = self.continuation@;
        let t1 = Self::earlier_move(board, 1);
        self.bump_after(t1, piece, dest, scaled);
        proof {
            assert forall|i: int, a: int, b: int, e: int|
                0 <= i < 12 && 0 <= a < 64 && 0 <= b < 12 && 0 <= e < 64 implies #[trigger] c1[i][a][b][e] == if b == pc
                    && e == d {
                    add_times(h0[i][a][b][e] as int, n1(i, a), v)
                } else {
                    h0[i][a][b][e] as int
                } by {
                assert(n0(i, a) + (if target_of(t0) == Some((i, a)) { 1nat } else { 0nat }) == n1(i, a));
            }
            lemma_cont_step(h0, c1, self.continuation@, target_of(t1), n1, pc, d, v);
        }
        let ghost c2 = self.continuation@;
        let t2 = Self::earlier_move(board, 2);
        self.bump_after(t2, piece, dest, scaled);
        proof {
            assert forall|i: int, a: int, b: int, e: int|
                0 <= i < 12 && 0 <= a < 64 && 0 <= b < 12 && 0 <= e < 64 implies #[trigger] c2[i][a][b][e] == if b == pc
                    && e == d {
                    add_times(h0[i][a][b][e] as int, n2(i, a), v)
                } else {
                    h0[i][a][b][e] as int
                } by {
                assert(n1(i, a) + (if target_of(t1) == Some((i, a)) { 1nat } else { 0nat }) == n2(i, a));
            }
            lemma_cont_step(h0, c2, self.continuation@, target_of(t2), n2, pc, d, v);
            assert forall|i: int, a: int|
                #![trigger cont_hits(board, i, a)]
                n2(i, a) + (if target_of(t2) == Some((i, a)) { 1nat } else { 0nat }) == cont_hits(board, i, a) by {}
        }
    }

    /// The bonus for a search to `depth`, as `depth_bonus` states it.
    fn bonus_for(depth: Depth) -> (r: Score)
        ensures
            r == depth_bonus(depth as int),
            0 <= r <= 1200,
    {
        let d1: i64 = depth as i64 + 1;
        assert(0 <= d1 * d1 <= 32769 * 32769) by (nonlinear_arith)
            requires
                -32767 <= d1 <= 32768,
        ;
        let b: i64 = 16 * (d1 * d1);
        assert(16 * (d1 * d1) == 16 * d1 * d1) by (nonlinear_arith);
        if b < 1200 {
            b as Score
        } else {
            1200
        }
    }

    /// Rewards the move that caused a cutoff at `depth` and penalises the other moves
    /// tried: for a tactical best move its capture statistic; for a quiet one its history
    /// and continuation statistics, with the other quiet moves penalised; in both cases
    /// the other tactical moves penalised in the capture statistics. The lists are read
    /// from their first move.
    pub fn update(
        &mut self,
        board: &Board,
        depth: Depth,
        best_move: u16,
        quiets: MoveList,
        noisy: MoveList,
        quiets_tried: &[Option<u16>],
    )
        requires
            old(self).wf(),
            quiets.wf(),
            noisy.wf(),
            update_ok(board, best_move, quiets.moves(), noisy.moves()),
        ensures
            final(self).wf(),
            final(self).killers == old(self).killers,
            flag_is_cap(move_flag(best_move)) || flag_is_prom(move_flag(best_move)) ==> final(self).continuation@
                == old(self).continuation@,
            !(flag_is_cap(move_flag(best_move)) || flag_is_prom(move_flag(best_move))) ==> forall|i: int, a: int, c: int, e: int|
                0 <= i < 12 && 0 <= a < 64 && 0 <= c < 12 && 0 <= e < 64 ==> #[trigger] final(self).continuation@[i][a][c][e]
                    == cont_after(
                    old(self).continuation@,
                    board,
                    best_move,
                    quiets.moves(),
                    depth_bonus(depth as int),
                    quiets.moves().len() as int,
                    i,
                    a,
                    c,
                    e,
                ),
            forall|c: int, sq: int, d: int|
                0 <= c < 2 && 0 <= sq < 64 && 0 <= d < 64 ==> #[trigger] final(self).history[c][sq][d] == if flag_is_cap(
                    move_flag(best_move),
                ) || flag_is_prom(move_flag(best_move)) || c != player_idx(board.turn) {
                    old(self).history[c][sq][d] as int
                } else {
                    grav_times(
                        grav_times(
                            old(self).history[c][sq][d] as int,
                            if sq == move_src(best_move) && d == move_dest(best_move) { 1nat } else { 0nat },
                            depth_bonus(depth as int),
                        ),
                        quiet_hits(quiets.moves(), best_move, sq, d, quiets.moves().len() as int),
                        -depth_bonus(depth as int),
                    )
                },
            forall|p: int, d: int, t: int|
                0 <= p < 12 && 0 <= d < 64 && 0 <= t < 6 ==> #[trigger] final(self).capture[p][d][t] == grav_times(
                    grav_times(
                        old(self).capture[p][d][t] as int,
                        if (flag_is_cap(move_flag(best_move)) || flag_is_prom(move_flag(best_move)))
                            && capture_entry(board, best_move) == (p, d, t) {
                            1nat
                        } else {
                            0nat
                        },
                        depth_bonus(depth as int),
                    ),
                    capture_hits(board, noisy.moves(), best_move, (p, d, t), noisy.moves().len() as int),
                    -depth_bonus(depth as int),
                ),
    {
        let bonus = Self::bonus_for(depth);
        let ghost h0 = *self;
        let ghost tidx = player_idx(board.turn);
        let ghost tactical = flag_is_cap(move_flag(best_move)) || flag_is_prom(move_flag(best_move));

        if BitMove::is_tactical(best_move) {
            self.update_capture(board, best_move, bonus);
        } else {
            self.update_history(board, best_move, bonus);
            self.update_continuation(board, best_move, bonus);
            let ghost hb = *self;
            assert forall|i: int, a: int, c: int, e: int|
                0 <= i < 12 && 0 <= a < 64 && 0 <= c < 12 && 0 <= e < 64 implies #[trigger] self.continuation@[i][a][c][e]
                    == cont_after(h0.continuation@, board, best_move, quiets.moves(), bonus as int, 0, i, a, c, e) by {}
            assert forall|c: int, sq: int, d: int|
                0 <= c < 2 && 0 <= sq < 64 && 0 <= d < 64 implies #[trigger] hb.history[c][sq][d] == if c != tidx {
                    h0.history[c][sq][d] as int
                } else {
                    grav_times(
                        h0.history[c][sq][d] as int,
                        if sq == move_src(best_move) && d == move_dest(best_move) { 1nat } else { 0nat },
                        bonus as int,
                    )
                } by {
                assert(grav_times(h0.history[c][sq][d] as int, 0, bonus as int) == h0.history[c][sq][d]);
                assert(grav_times(h0.history[c][sq][d] as int, 1, bonus as int) == clamp_score(
                    grav_times(h0.history[c][sq][d] as int, 0, bonus as int) + gravity(
                        grav_times(h0.history[c][sq][d] as int, 0, bonus as int),
                        bonus as int,
                    ),
                ));
            }

            let n = quiets.size();
            let mut i: usize = 0;
            while i < n
                invariant
                    self.wf(),
                    quiets.wf(),
                    n == quiets.moves().len(),
                    i <= n,
                    update_ok(board, best_move, quiets.moves(), noisy.moves()),
                    !tactical,
                    tactical == (flag_is_cap(move_flag(best_move)) || flag_is_prom(move_flag(best_move))),
                    tidx == player_idx(board.turn),
                    0 <= bonus <= 1200,
                    self.killers == h0.killers,
                    self.capture == h0.capture,
                    moves_recorded(board),
                    bonus == depth_bonus(depth as int),
                    forall|i2: int, a: int, c: int, e: int|
                        0 <= i2 < 12 && 0 <= a < 64 && 0 <= c < 12 && 0 <= e < 64 ==> #[trigger] self.continuation@[i2][a][c][e]
                            == cont_after(h0.continuation@, board, best_move, quiets.moves(), bonus as int, i as int, i2, a, c, e),
                    forall|c: int, sq: int, d: int|
                        0 <= c < 2 && 0 <= sq < 64 && 0 <= d < 64 ==> #[trigger] self.history[c][sq][d] == if c != tidx {
                            hb.history[c][sq][d] as int
                        } else {
                            grav_times(hb.history[c][sq][d] as int, quiet_hits(quiets.moves(), best_move, sq, d, i as int), -bonus)
                        },
                decreases n - i,
            {
                let m = quiets.get(i);
                let ghost before = *self;
                if m != best_move {
                    proof {
                        assert(board.at(move_src(quiets.moves()[i as int])).t != PieceType::NoPiece);
                    }
                    self.update_history(board, m, -bonus);
                    self.update_continuation(board, m, -bonus);
                }
                proof {
                    assert forall|c: int, sq: int, d: int|
                        0 <= c < 2 && 0 <= sq < 64 && 0 <= d < 64 implies #[trigger] self.history[c][sq][d] == if c
                            != tidx {
                            hb.history[c][sq][d] as int
                        } else {
                            grav_times(
                                hb.history[c][sq][d] as int,
                                quiet_hits(quiets.moves(), best_move, sq, d, i + 1),
                                -bonus,
                            )
                        } by {
                        let k = quiet_hits(quiets.moves(), best_move, sq, d, i as int);
                        assert(before.history[c][sq][d] == before.history[c][sq][d]);
                        assert(grav_times(hb.history[c][sq][d] as int, k + 1, -bonus) == clamp_score(
                            grav_times(hb.history[c][sq][d] as int, k, -bonus) + gravity(
                                grav_times(hb.history[c][sq][d] as int, k, -bonus),
                                -bonus,
                            ),
                        ));
                    }
                    if m != best_move {
                        lemma_cont_targets_in_range(board);
                        crate::defs::lemma_pt_idx(board.at(move_src(m)).t);
                    }
                    assert forall|i2: int, a: int, c: int, e: int|
                        0 <= i2 < 12 && 0 <= a < 64 && 0 <= c < 12 && 0 <= e < 64 implies #[trigger] self.continuation@[i2][a][c][e]
                            == cont_after(h0.continuation@, board, best_move, quiets.moves(), bonus as int, i + 1, i2, a, c, e) by {
                        assert(before.continuation@[i2][a][c][e] == cont_after(h0.continuation@, board, best_move, quiets.moves(), bonus as int, i as int, i2, a, c, e));
                    }
                }
                i = i + 1;
            }
            proof {
                assert forall|c: int, sq: int, d: int|
                    0 <= c < 2 && 0 <= sq < 64 && 0 <= d < 64 && c != tidx implies #[trigger] self.history[c][sq][d]
                        == h0.history[c][sq][d] by {
                    assert(hb.history[c][sq][d] == h0.history[c][sq][d]);
                }
            }
        }
        let ghost h1 = *self;
        proof {
            assert forall|p: int, d: int, t: int|
                0 <= p < 12 && 0 <= d < 64 && 0 <= t < 6 implies #[trigger] h1.capture[p][d][t] == grav_times(
                    h0.capture[p][d][t] as int,
                    if tactical && capture_entry(board, best_move) == (p, d, t) { 1nat } else { 0nat },
                    bonus as int,
                ) by {
                assert(grav_times(h0.capture[p][d][t] as int, 0, bonus as int) == h0.capture[p][d][t]);
                assert(grav_times(h0.capture[p][d][t] as int, 1, bonus as int) == clamp_score(
                    grav_times(h0.capture[p][d][t] as int, 0, bonus as int) + gravity(
                        grav_times(h0.capture[p][d][t] as int, 0, bonus as int),
                        bonus as int,
                    ),
                ));
            }
        }

        let n = noisy.size();
        let mut i: usize = 0;
        while i < n
            invariant
                self.wf(),
                noisy.wf(),
                n == noisy.moves().len(),
                i <= n,
                update_ok(board, best_move, quiets.moves(), noisy.moves()),
                0 <= bonus <= 1200,
                self.killers == h0.killers,
                self.history == h1.history,
                self.continuation@ == h1.continuation@,
                forall|p: int, d: int, t: int|
                    0 <= p < 12 && 0 <= d < 64 && 0 <= t < 6 ==> #[trigger] self.capture[p][d][t] == grav_times(
                        h1.capture[p][d][t] as int,
                        capture_hits(board, noisy.moves(), best_move, (p, d, t), i as int),
                        -bonus,
                    ),
            decreases n - i,
        {
            let m = noisy.get(i);
            let ghost before = *self;
            if m != best_move {
                proof {
                    assert(capture_indexable(board, noisy.moves()[i as int]));
                }
                self.update_capture(board, m, -bonus);
            }
            proof {
                assert forall|p: int, d: int, t: int|
                    0 <= p < 12 && 0 <= d < 64 && 0 <= t < 6 implies #[trigger] self.capture[p][d][t] == grav_times(
                        h1.capture[p][d][t] as int,
                        capture_hits(board, noisy.moves(), best_move, (p, d, t), i + 1),
                        -bonus,
                    ) by {
                    let k = capture_hits(board, noisy.moves(), best_move, (p, d, t), i as int);
                    assert(before.capture[p][d][t] == before.capture[p][d][t]);
                    assert(grav_times(h1.capture[p][d][t] as int, k + 1, -bonus) == clamp_score(
                        grav_times(h1.capture[p][d][t] as int, k, -bonus) + gravity(
                            grav_times(h1.capture[p][d][t] as int, k, -bonus),
                            -bonus,
                        ),
                    ));
                }
            }
            i = i + 1;
        }
    }
}

} // verus!
