//! Move ordering: scores for moves and picking the best remaining one.
use vstd::prelude::*;
use crate::bitmove::{BitMove, MoveFlag, move_src, move_dest, move_flag, flag_is_cap, flag_is_prom, prom_type_of};
use crate::board::Board;
use crate::defs::{PieceType, Score, MAX_STACK_SIZE, pt_idx, player_idx, mg_value_of};
use crate::movegen::gen_move_ok;
use crate::movelist::MoveList;
use crate::mvvlva::{mvv_lva, mvv_lva_spec};

verus! {

pub const HASH_BONUS: i32 = 8_000_000;
pub const WINNING_CAPTURE_BONUS: i32 = 7_000_000;
pub const PROMOTE_BONUS: i32 = 6_000_000;
pub const LOSING_CAPTURE_BONUS: i32 = 5_000_000;
pub const KILLER_1_BONUS: i32 = 900_000;
pub const KILLER_2_BONUS: i32 = 800_000;

/// Scores of quiet moves by side, source and destination.
pub type HistoryTable = [[[Score; 64]; 64]; 2];

/// Every history score lies within a billion of zero.
pub open spec fn history_ok(h: &HistoryTable) -> bool {
    forall|c: int, s: int, d: int| 0 <= c < 2 && 0 <= s < 64 && 0 <= d < 64 ==>
        -1_000_000_000 <= #[trigger] h[c][s][d] <= 1_000_000_000
}

/// The ordering score of `m`: the hash move first; captures by victim and attacker; quiet
/// moves by history and killer status; promotions on top by the promoted piece.
pub open spec fn order_score(b: &Board, h: &HistoryTable, hash_move: u16, m: u16) -> int {
    let s = move_src(m);
    let d = move_dest(m);
    let f = move_flag(m);
    let mp = b.at(s).t;
    if m == hash_move {
        HASH_BONUS as int
    } else {
        let base = if flag_is_cap(f) {
            let cp = if f == MoveFlag::EN_PASSANT { PieceType::Pawn } else { b.at(d).t };
            WINNING_CAPTURE_BONUS + mvv_lva_spec(pt_idx(mp), pt_idx(cp))
        } else {
            h[player_idx(b.turn)][s][d] + if m == b.killers[0][b.pos.ply as int] {
                KILLER_1_BONUS as int
            } else if m == b.killers[1][b.pos.ply as int] {
                KILLER_2_BONUS as int
            } else {
                0
            }
        };
        base + if flag_is_prom(f) { PROMOTE_BONUS + mg_value_of(prom_type_of(f)) } else { 0 }
    }
}

/// Ordering score of the generated move `m`.
pub fn score_move(m: u16, board: &Board, history_table: &HistoryTable, hash_move: u16) -> (r: Score)
    requires
        board.pos.ply < MAX_STACK_SIZE,
        history_ok(history_table),
        gen_move_ok(board, m),
    ensures
        r == order_score(board, history_table, hash_move, m),
{
    if m == hash_move {
        return HASH_BONUS;
    }
    let (src, dest) = BitMove::from_to(m);
    let move_piece = board.piece_type(src);
    let mut score: i32 = 0;
    if BitMove::is_cap(m) {
        let cap_piece = if BitMove::is_ep(m) {
            PieceType::Pawn
        } else {
            board.piece_type(dest)
        };
        let delta = mvv_lva(move_piece.as_usize(), cap_piece.as_usize());
        score = WINNING_CAPTURE_BONUS + delta;
    } else {
        score = history_table[board.turn.as_usize()][src as usize][dest as usize];
        let ply = board.pos.ply;
        if m == board.killers[0][ply] {
            score = score + KILLER_1_BONUS;
        } else if m == board.killers[1][ply] {
            score = score + KILLER_2_BONUS;
        }
    }
    if BitMove::is_prom(m) {
        let flag = BitMove::flag(m);
        score = score + PROMOTE_BONUS + BitMove::prom_type(flag).mg_value();
    }
    score
}

/// The index of the highest score above `best_score` among `scores[i..]`, the first such
/// in case of ties, or `best_index` when none is higher.
pub open spec fn pick_from(scores: Seq<i32>, i: int, best_score: int, best_index: int) -> int
    decreases scores.len() - i,
{
    if i >= scores.len() {
        best_index
    } else if scores[i] > best_score {
        pick_from(scores, i + 1, scores[i] as int, i)
    } else {
        pick_from(scores, i + 1, best_score, best_index)
    }
}

/// Moves the best-scored move from `move_num` on (the first with the highest positive
/// score, else the one at `move_num`) to `move_num`, swapping it with the move there.
pub fn pick_next_move(move_list: &mut MoveList, move_num: usize)
    requires
        old(move_list).wf(),
        move_num < old(move_list).moves().len(),
    ensures
        ({
            let b = pick_from(old(move_list).scores(), move_num as int, 0, move_num as int);
            &&& move_num <= b < old(move_list).moves().len()
            &&& final(move_list).wf()
            &&& final(move_list).moves() == old(move_list).moves().update(move_num as int, old(move_list).moves()[b]).update(
                b,
                old(move_list).moves()[move_num as int],
            )
            &&& final(move_list).scores() == old(move_list).scores().update(move_num as int, old(move_list).scores()[b]).update(
                b,
                old(move_list).scores()[move_num as int],
            )
            &&& final(move_list).cursor() == old(move_list).cursor()
        }),
{
    let mut best_score: i32 = 0;
    let mut best_index = move_num;
    let n = move_list.size();
    proof {
        move_list.lemma_lengths();
    }
    let mut index = move_num;
    while index < n
        invariant
            move_list.wf(),
            n == move_list.moves().len(),
            n == move_list.scores().len(),
            move_num <= index <= n,
            move_num <= best_index < n,
            pick_from(move_list.scores(), move_num as int, 0, move_num as int) == pick_from(
                move_list.scores(),
                index as int,
                best_score as int,
                best_index as int,
            ),
        decreases n - index,
    {
        let sc = move_list.get_score(index);
        if sc > best_score {
            best_score = sc;
            best_index = index;
        }
        index = index + 1;
    }
    move_list.swap(move_num, best_index);
}

} // verus!
