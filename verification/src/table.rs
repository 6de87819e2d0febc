//! The transposition table: search results stored by Zobrist key, one entry per slot.
use vstd::prelude::*;
use crate::defs::{Score, INFINITY};

verus! {

/// Size of the table used when none is asked for.
pub const TABLE_SIZE_MB: usize = 128;

/// Scores beyond this are mates, counted in plies from the root.
pub const IMMEDIATE_MATE_SCORE: Score = 31_000;
pub const IS_MATE: Score = 30_000;

/// How a stored score bounds the true score.
#[derive(Clone, Copy, PartialEq, Eq, Structural, Debug)]
pub enum Bound {
    /// The score is exact
    Exact,
    /// The search failed low: the true score is at most the stored one
    Upper,
    /// The search failed high: the true score is at least the stored one
    Lower,
    /// Only the static evaluation is known
    NoBound,
}

/// A stored search result.
#[derive(Clone, Copy, PartialEq, Eq, Structural, Debug)]
pub struct HashEntry {
    pub key: u64,
    pub depth: u8,
    pub m: u16,
    pub score: Score,
    pub static_eval: Score,
    pub bound: Bound,
}

/// The empty entry.
pub open spec fn empty_entry() -> HashEntry {
    HashEntry { key: 0, depth: 0, m: 0, score: 0, static_eval: 0, bound: Bound::Exact }
}

impl HashEntry {
    /// An entry; the depth is stored modulo 256.
    pub fn new(key: u64, depth: i32, m: u16, score: Score, static_eval: Score, hash_flag: Bound) -> (r: Self)
        ensures
            r == (HashEntry { key, depth: depth as u8, m, score, static_eval, bound: hash_flag }),
    {
        HashEntry { key, depth: depth as u8, m, score, static_eval, bound: hash_flag }
    }

    /// The empty entry.
    pub fn empty() -> (r: Self)
        ensures
            r == empty_entry(),
    {
        HashEntry { key: 0, depth: 0, m: 0, score: 0, static_eval: 0, bound: Bound::Exact }
    }

    /// Does the entry hold a position?
    pub fn valid(&self) -> (r: bool)
        ensures
            r == (self.key != 0),
    {
        self.key != 0
    }

    /// Does the entry hold a move?
    pub fn has_move(&self) -> (r: bool)
        ensures
            r == (self.m != 0),
    {
        self.m != 0
    }
}

/// Scores stored in the table stay within this bound.
pub const SCORE_LIMIT: Score = 1_000_000_000;

/// A mate score seen `ply` plies from the root, as stored: counted from this position.
/// Scores too large to be mates are stored as they are.
pub open spec fn score_to_table(score: Score, ply: int) -> int {
    if score > IS_MATE && score <= SCORE_LIMIT - 1000 {
        score + ply
    } else if score < -IS_MATE && score >= 1000 - SCORE_LIMIT {
        score - ply
    } else {
        score as int
    }
}

/// Every stored score within the limit, every static evaluation within ten million.
pub open spec fn entries_ok(t: &HashTable) -> bool {
    forall|i: int| 0 <= i < t.entries@.len() ==> -SCORE_LIMIT <= (#[trigger] t.entries@[i]).score <= SCORE_LIMIT
        && -10_000_000 <= t.entries@[i].static_eval <= 10_000_000
}

/// A stored mate score as seen `ply` plies from the root.
pub open spec fn score_from_table(score: Score, ply: int) -> int {
    if score > IS_MATE {
        score - ply
    } else if score < -IS_MATE {
        score + ply
    } else {
        score as int
    }
}

/// Number of slots in use among the first `n`.
pub open spec fn used_upto(es: Seq<HashEntry>, n: int) -> nat
    decreases n,
{
    if n <= 0 {
        0
    } else {
        used_upto(es, n - 1) + (if es[n - 1].key != 0 { 1nat } else { 0nat })
    }
}

/// Where the sample from the bottom of the table stops, looking from slot `i` on: at the
/// end of the table, or once 500 slots in use were seen.
pub open spec fn forward_end(es: Seq<HashEntry>, i: int) -> int
    decreases es.len() - i,
{
    if i >= es.len() || used_upto(es, i) >= 500 {
        i
    } else {
        forward_end(es, i + 1)
    }
}

/// Number of slots in use among the `k` top slots of the table.
pub open spec fn used_from_top(es: Seq<HashEntry>, k: int) -> nat
    decreases k,
{
    if k <= 0 {
        0
    } else {
        used_from_top(es, k - 1) + (if es[es.len() - k].key != 0 { 1nat } else { 0nat })
    }
}

/// How many top slots the sample from the top examines, looking from the `k`-th on,
/// after a sample of `f` bottom slots with `u` in use: it stops at a thousand slots in
/// use, above the bottom slot, or when the count of slots would overflow.
pub open spec fn backward_len(es: Seq<HashEntry>, u: int, f: int, k: int) -> int
    decreases es.len() - k,
{
    if k >= es.len() || u + used_from_top(es, k) >= 1000 || es.len() - 1 - k <= 0 || f + k
        >= usize::MAX {
        k
    } else {
        backward_len(es, u, f, k + 1)
    }
}

/// Permille of slots in use among those sampled from the bottom and then the top.
pub open spec fn hash_full_spec(es: Seq<HashEntry>) -> int {
    let f = forward_end(es, 0);
    let u = used_upto(es, f);
    let k = backward_len(es, u as int, f, 0);
    let filled: int = (u + used_from_top(es, k)) as int;
    let total: int = f + k;
    if total == 0 {
        0
    } else {
        filled * 1000 / total
    }
}

/// The entries of a transposition table, one slot per key modulo the size.
pub struct HashTable {
    pub entries: Vec<HashEntry>,
    pub size: usize,
}

impl HashTable {
    /// There is a slot for every key.
    pub open spec fn wf(&self) -> bool {
        self.size == self.entries@.len() && self.size > 0
    }

    /// The slot of `key`.
    pub open spec fn slot(&self, key: u64) -> int {
        key as int % self.size as int
    }

    /// A table of `num_entries` empty slots.
    pub fn new(num_entries: usize) -> (r: Self)
        requires
            num_entries > 0,
        ensures
            r.wf(),
            r.size == num_entries,
            forall|i: int| 0 <= i < num_entries ==> #[trigger] r.entries@[i] == empty_entry(),
    {
        let mut entries: Vec<HashEntry> = Vec::new();
        let mut i: usize = 0;
        while i < num_entries
            invariant
                i <= num_entries,
                entries@.len() == i,
                forall|j: int| 0 <= j < i ==> #[trigger] entries@[j] == empty_entry(),
            decreases num_entries - i,
        {
            entries.push(HashEntry::empty());
            i = i + 1;
        }
        HashTable { entries, size: num_entries }
    }

    /// A table filling `mb` megabytes, of at least one slot.
    pub fn with_size(mb: usize) -> (r: Self)
        requires
            mb as int <= (usize::MAX as int) / 1048576int,
        ensures
            r.wf(),
            (vstd::layout::size_of::<HashEntry>() as int) > 0 && mb * 1024 * 1024 / (vstd::layout::size_of::<HashEntry>() as int) > 0
                ==> r.size == mb * 1024 * 1024 / (vstd::layout::size_of::<HashEntry>() as int),
            forall|i: int| 0 <= i < r.size ==> #[trigger] r.entries@[i] == empty_entry(),
    {
        let sz = core::mem::size_of::<HashEntry>();
        let n = if sz == 0 { 1 } else { mb * 1024 * 1024 / sz };
        let n = if n == 0 { 1 } else { n };
        HashTable::new(n)
    }

    /// Empties every slot.
    pub fn clear(&mut self)
        requires
            old(self).wf(),
        ensures
            final(self).wf(),
            final(self).size == old(self).size,
            forall|i: int| 0 <= i < final(self).size ==> #[trigger] final(self).entries@[i] == empty_entry(),
    {
        *self = HashTable::new(self.size);
    }

    /// The entry in the slot of `key`, whatever position it belongs to.
    pub fn get(&self, key: u64) -> (r: HashEntry)
        requires
            self.wf(),
        ensures
            r == self.entries@[self.slot(key)],
    {
        self.entries[(key % self.size as u64) as usize]
    }

    /// Overwrites the slot of the entry's key.
    pub fn store_raw(&mut self, entry: HashEntry)
        requires
            old(self).wf(),
        ensures
            final(self).wf(),
            final(self).size == old(self).size,
            final(self).entries@ == old(self).entries@.update(old(self).slot(entry.key), entry),
    {
        let i = (entry.key % self.size as u64) as usize;
        self.entries.set(i, entry);
    }

    /// The entry stored for `key`, with a mate score counted from the root `ply` plies
    /// up; `None` when the slot holds another position.
    pub fn probe(&self, key: u64, ply: usize) -> (r: Option<HashEntry>)
        requires
            self.wf(),
            ply <= 1000,
        ensures
            entries_ok(self) ==> (r matches Some(e) ==> -SCORE_LIMIT <= e.score <= SCORE_LIMIT
                && -10_000_000 <= e.static_eval <= 10_000_000),
            ({
                let e = self.entries@[self.slot(key)];
                if e.key == key {
                    r == Some(HashEntry { score: score_from_table(e.score, ply as int) as i32, ..e })
                } else {
                    r.is_none()
                }
            }),
    {
        let mut entry = self.get(key);
        if entry.key == key {
            if entry.score > IS_MATE {
                entry.score = entry.score - ply as Score;
            } else if entry.score < -IS_MATE {
                entry.score = entry.score + ply as Score;
            }
            Some(entry)
        } else {
            None
        }
    }

    /// Stores `entry`, with a mate score counted from this position rather than from the
    /// root `ply` plies up.
    pub fn store(&mut self, entry: HashEntry, ply: usize)
        requires
            old(self).wf(),
            ply <= 1000,
            -SCORE_LIMIT <= entry.score <= SCORE_LIMIT,
        ensures
            final(self).wf(),
            final(self).size == old(self).size,
            final(self).entries@ == old(self).entries@.update(
                old(self).slot(entry.key),
                HashEntry { score: score_to_table(entry.score, ply as int) as i32, ..entry },
            ),
            entries_ok(old(self)) && -10_000_000 <= entry.static_eval <= 10_000_000 ==> entries_ok(final(self)),
    {
        let mut e = entry;
        if e.score > IS_MATE && e.score <= SCORE_LIMIT - 1000 {
            e.score = e.score + ply as Score;
        } else if e.score < -IS_MATE && e.score >= 1000 - SCORE_LIMIT {
            e.score = e.score - ply as Score;
        }
        self.store_raw(e);
    }

    /// Stores only the static evaluation of the position of `key`.
    pub fn store_eval(&mut self, key: u64, eval: Score)
        requires
            old(self).wf(),
        ensures
            final(self).wf(),
            final(self).size == old(self).size,
            final(self).entries@ == old(self).entries@.update(
                old(self).slot(key),
                HashEntry { key, depth: 0, m: 0, score: (0 - INFINITY) as i32, static_eval: eval, bound: Bound::NoBound },
            ),
    {
        self.store_raw(HashEntry::new(key, 0, 0, -INFINITY, eval, Bound::NoBound));
    }

    /// Empties the slot of `key`.
    pub fn delete(&mut self, key: u64)
        requires
            old(self).wf(),
        ensures
            final(self).wf(),
            final(self).size == old(self).size,
            final(self).entries@ == old(self).entries@.update(old(self).slot(key), empty_entry()),
            entries_ok(old(self)) ==> entries_ok(final(self)),
    {
        let i = (key % self.size as u64) as usize;
        self.entries.set(i, HashEntry::empty());
    }

    /// The move stored for the position of `key`, if any.
    pub fn best_move(&self, key: u64) -> (r: Option<u16>)
        requires
            self.wf(),
        ensures
            ({
                let e = self.entries@[self.slot(key)];
                r == if e.key != 0 && e.key == key && e.m != 0 { Some(e.m) } else { None }
            }),
    {
        let entry = self.get(key);
        if entry.valid() && entry.key == key && entry.has_move() {
            Some(entry.m)
        } else {
            None
        }
    }

    /// Permille of the slots in use, sampled from both ends of the table until a
    /// thousand used slots are seen.
    pub fn hash_full(&self) -> (r: usize)
        requires
            self.wf(),
        ensures
            r <= 1000,
            r == hash_full_spec(self.entries@),
    {
        let ghost es = self.entries@;
        let mut filled: usize = 0;
        let mut total: usize = 0;
        let mut index: usize = 0;
        while index < self.size && filled < 500
            invariant
                self.wf(),
                es == self.entries@,
                filled <= total,
                filled <= 500,
                total == index,
                index <= self.size,
                filled == used_upto(es, index as int),
                forward_end(es, 0) == forward_end(es, index as int),
            decreases self.size - index,
        {
            if self.entries[index].valid() {
                filled = filled + 1;
            }
            total = total + 1;
            index = index + 1;
        }
        let ghost f = index as int;
        let ghost u = filled as int;
        assert(forward_end(es, f) == f);
        let mut back = self.size - 1;
        let ghost mut k: int = 0;
        while filled < 1000 && back > 0 && total < usize::MAX
            invariant
                self.wf(),
                es == self.entries@,
                filled <= total,
                filled <= 1000,
                back < self.size,
                back == self.size - 1 - k,
                0 <= k,
                total == f + k,
                filled == u + used_from_top(es, k),
                backward_len(es, u, f, 0) == backward_len(es, u, f, k),
                f == forward_end(es, 0),
                u == used_upto(es, f),
            decreases back,
        {
            assert(es.len() - (k + 1) == back);
            if self.entries[back].valid() {
                filled = filled + 1;
            }
            total = total + 1;
            back = back - 1;
            proof {
                k = k + 1;
            }
        }
        assert(backward_len(es, u, f, k) == k);
        if total == 0 {
            0
        } else {
            proof {
                assert(filled * 1000 <= total * 1000) by (nonlinear_arith)
                    requires
                        filled <= total,
                ;
                assert(filled * 1000 / (total as int) <= 1000) by (nonlinear_arith)
                    requires
                        filled <= total,
                        total > 0,
                ;
            }
            filled * 1000 / total
        }
    }

    /// The size of the table in megabytes.
    pub fn size_mb(&self) -> (r: usize)
        requires
            self.wf(),
        ensures
            (self.size as int) * (vstd::layout::size_of::<HashEntry>() as int) <= (usize::MAX as int) ==> r as int
                == (self.size as int) * (vstd::layout::size_of::<HashEntry>() as int) / 1048576int,
    {
        let sz = core::mem::size_of::<HashEntry>();
        if sz == 0 || self.size <= usize::MAX / sz {
            proof {
                if sz > 0 {
                    assert(self.size * sz <= usize::MAX) by (nonlinear_arith)
                        requires
                            self.size <= usize::MAX / sz,
                            sz > 0,
                    ;
                }
            }
            self.size * sz / (1024 * 1024)
        } else {
            proof {
                assert(self.size * sz > usize::MAX) by (nonlinear_arith)
                    requires
                        self.size > usize::MAX / sz,
                        sz > 0,
                ;
            }
            usize::MAX / (1024 * 1024)
        }
    }
}


/// A table of entries found again by key, one slot per key modulo the number of slots.
pub trait Table<T: Copy>: Sized {
    /// The table has a slot for every key.
    spec fn ready(&self) -> bool;

    /// The entry in the slot of `key`.
    spec fn slot_entry(&self, key: u64) -> T;

    /// The entry stored for `key`: that of its slot if the slot holds that key.
    spec fn stored(&self, key: u64) -> Option<T>;

    /// A table of `num_entries` empty slots.
    fn new(num_entries: usize) -> (r: Self)
        requires
            num_entries > 0,
        ensures
            r.ready(),
    ;

    /// A table filling `mb` megabytes.
    fn with_size(mb: usize) -> (r: Self)
        requires
            mb as int <= (usize::MAX as int) / 1048576int,
        ensures
            r.ready(),
    ;

    /// Empties every slot.
    fn clear(&mut self)
        requires
            old(self).ready(),
        ensures
            final(self).ready(),
    ;

    /// The entry stored for `key`, if its slot holds that key.
    fn probe(&self, key: u64) -> (r: Option<T>)
        requires
            self.ready(),
        ensures
            r == self.stored(key),
    ;

    /// Overwrites the slot of the entry's key.
    fn store(&mut self, entry: T)
        requires
            old(self).ready(),
        ensures
            final(self).ready(),
    ;

    /// The entry in the slot of `key`.
    fn get(&self, key: u64) -> (r: T)
        requires
            self.ready(),
        ensures
            r == self.slot_entry(key),
    ;
}

impl Table<HashEntry> for HashTable {
    open spec fn ready(&self) -> bool {
        self.wf()
    }

    open spec fn slot_entry(&self, key: u64) -> HashEntry {
        self.entries@[self.slot(key)]
    }

    open spec fn stored(&self, key: u64) -> Option<HashEntry> {
        let e = self.entries@[self.slot(key)];
        if e.key != 0 && e.key == key {
            Some(e)
        } else {
            None
        }
    }

    fn new(num_entries: usize) -> (r: Self)
        ensures
            r.size == num_entries,
            forall|i: int| 0 <= i < num_entries ==> #[trigger] r.entries@[i] == empty_entry(),
    {
        HashTable::new(num_entries)
    }

    fn with_size(mb: usize) -> (r: Self)
        ensures
            forall|i: int| 0 <= i < r.size ==> #[trigger] r.entries@[i] == empty_entry(),
    {
        HashTable::with_size(mb)
    }

    fn clear(&mut self)
        ensures
            final(self).size == old(self).size,
            forall|i: int| 0 <= i < final(self).size ==> #[trigger] final(self).entries@[i] == empty_entry(),
    {
        HashTable::clear(self)
    }

    fn probe(&self, key: u64) -> (r: Option<HashEntry>) {
        let entry = HashTable::get(self, key);
        if entry.valid() && entry.key == key {
            Some(entry)
        } else {
            None
        }
    }

    fn store(&mut self, entry: HashEntry)
        ensures
            final(self).size == old(self).size,
            final(self).entries@ == old(self).entries@.update(old(self).slot(entry.key), entry),
    {
        self.store_raw(entry);
    }

    fn get(&self, key: u64) -> (r: HashEntry) {
        HashTable::get(self, key)
    }
}

} // verus!
