//! Most valuable victim / least valuable attacker capture ordering table.
use vstd::prelude::*;
use crate::defs::NUM_PIECES;

verus! {

/// Victim values by piece type.
pub const VICTIM_VALUE: [i32; 6] = [100, 200, 300, 400, 500, 600];

/// Ordering value of `attacker` (type index) capturing `victim` (type index).
pub open spec fn mvv_lva_spec(attacker: int, victim: int) -> int {
    VICTIM_VALUE[victim] + 6 - VICTIM_VALUE[attacker] / 100
}

/// The ordering table, indexed by attacker and victim.
pub fn gen_mvvlva() -> (r: [[i32; NUM_PIECES]; NUM_PIECES])
    ensures
        forall|i: int, j: int| 0 <= i < 6 && 0 <= j < 6 ==> r[i][j] == mvv_lva_spec(i, j),
{
    let mut table = [[0i32; 6]; 6];
    let mut i: usize = 0;
    while i < NUM_PIECES
        invariant
            i <= 6,
            forall|a: int, b: int| 0 <= a < i && 0 <= b < 6 ==> table[a][b] == mvv_lva_spec(a, b),
        decreases 6 - i,
    {
        let mut row = [0i32; 6];
        let mut j: usize = 0;
        while j < NUM_PIECES
            invariant
                i < 6,
                j <= 6,
                forall|b: int| 0 <= b < j ==> row[b] == mvv_lva_spec(i as int, b),
            decreases 6 - j,
        {
            row[j] = VICTIM_VALUE[j] + 6 - VICTIM_VALUE[i] / 100;
            j = j + 1;
        }
        table[i] = row;
        i = i + 1;
    }
    table
}

/// One entry of the ordering table.
pub fn mvv_lva(attacker: usize, victim: usize) -> (r: i32)
    requires
        attacker < 6,
        victim < 6,
    ensures
        r == mvv_lva_spec(attacker as int, victim as int),
{
    VICTIM_VALUE[victim] + 6 - VICTIM_VALUE[attacker] / 100
}

} // verus!
