//! Evaluation parameters, each a middlegame and an endgame value.
use vstd::prelude::*;
use crate::defs::Score;

verus! {

/// Piece values by type.
pub const PIECE_VALUE: [[Score; 2]; 6] = [[126, 208], [781, 854], [825, 915], [1276, 1380], [2538, 2682], [0, 0]];

/// Passed pawn bonus score, indexed by rank
pub const PASSED_PAWN_SCORE: [[Score; 2]; 8] = [[0, 0], [-15, 20], [-25, 35], [-35, 50], [5, 65], [45, 90], [100, 140], [0, 0]];
pub const PAWN_DEFENDED: [Score; 2] = [5, 9];
pub const PAWN_BEHIND_CENTER: [Score; 2] = [-20, -4];
pub const BACKWARD_PAWN: [Score; 2] = [-6, -11];
pub const ISOLATED_PAWN: [Score; 2] = [-8, -15];
pub const DOUBLED_PAWN: [Score; 2] = [-11, -19];
pub const PAWN_ATTACK: [Score; 2] = [7, 0];
pub const PAWN_PUSH: [Score; 2] = [4, 0];
pub const PAWN_DOUBLE_PUSH: [Score; 2] = [3, 0];
pub const ROOK_BEHIND_PASSER: [Score; 2] = [9, 21];
pub const OPP_ROOK_BEHIND_PASSER: [Score; 2] = [-6, -19];

// Knight params
pub const KNIGHT_PAIR_PENALTY: [Score; 2] = [-8, -15];
pub const KNIGHT_PAWN_ADJUSTMENT: [[Score; 2]; 9] = [[-20, 8], [-16, 16], [-12, 32], [-8, 35], [-4, 38], [2, 33], [4, 30], [-11, 27], [-8, 24]];
pub const SUPPORTED_KNIGHT: [Score; 2] = [10, 0];
pub const OUTPOST_KNIGHT: [Score; 2] = [25, 0];
pub const CONNECTED_KNIGHT: [Score; 2] = [8, 4];

// Bishop params
pub const BISHOP_PAIR_BONUS: [Score; 2] = [33, 85];
pub const BISHOP_PAWN_COLOR: [Score; 2] = [-6, -2];
pub const BISHOP_OPP_PAWN_COLOR: [Score; 2] = [-8, -3];

// Rook params
pub const ROOK_PAIR_PENALTY: [Score; 2] = [-8, -22];
pub const ROOK_PAWN_ADJUSTMENT: [[Score; 2]; 9] = [[15, 23], [-9, 41], [5, 60], [5, 45], [0, 38], [0, 21], [-5, 6], [-25, 6], [-31, -13]];
pub const CONNECTED_ROOK: [Score; 2] = [17, 13];
pub const ROOK_ON_SEVENTH: [Score; 2] = [11, 16];
pub const ROOK_KING_ALIGNED: [Score; 2] = [11, 7];

// King params
pub const SHIELD_MISSING: [[Score; 2]; 4] = [[-2, -1], [-23, -14], [-38, -21], [-55, -29]];
pub const SHIELD_MISSING_ON_OPEN_FILE: [[Score; 2]; 4] = [[-8, -4], [-10, -6], [-37, -9], [-66, -13]];
pub const KING_OPEN: [Score; 2] = [-13, -4];
pub const KING_SEMI_OPEN: [Score; 2] = [-5, -1];

/// King safety bonus by the weight of the attack on the enemy king.
pub const SAFETY_TABLE: [Score; 100] = [
    0, 0, 1, 2, 3, 5, 7, 9, 12, 15,
    18, 22, 26, 30, 35, 39, 44, 50, 56, 62,
    68, 75, 82, 85, 89, 97, 105, 113, 122, 131,
    140, 150, 169, 180, 191, 202, 213, 225, 237, 248,
    260, 272, 283, 295, 307, 319, 330, 342, 354, 366,
    377, 389, 401, 412, 424, 436, 448, 459, 471, 483,
    494, 500, 500, 500, 500, 500, 500, 500, 500, 500,
    500, 500, 500, 500, 500, 500, 500, 500, 500, 500,
    500, 500, 500, 500, 500, 500, 500, 500, 500, 500,
    500, 500, 500, 500, 500, 500, 500, 500, 500, 500,
];

} // verus!
