//! A list of moves with ordering scores.
use vstd::prelude::*;

verus! {

/// Moves with their ordering scores, and an iteration cursor.
pub struct MoveList {
    moves: Vec<u16>,
    scores: Vec<i32>,
    /// Should only be used by the iteration methods
    current: usize,
}

impl MoveList {
    /// The moves, in insertion order.
    pub closed spec fn moves(&self) -> Seq<u16> {
        self.moves@
    }

    /// The scores, one per move.
    pub closed spec fn scores(&self) -> Seq<i32> {
        self.scores@
    }

    /// The entries of the list: each move with its score, in insertion order.
    pub open spec fn entries(&self) -> Seq<(u16, i32)> {
        Seq::new(self.moves().len(), |i: int| (self.moves()[i], self.scores()[i]))
    }

    /// Number of moves already handed out by [`MoveList::next`].
    pub closed spec fn cursor(&self) -> nat {
        self.current as nat
    }

    /// One score per move.
    pub closed spec fn wf(&self) -> bool {
        self.moves@.len() == self.scores@.len()
    }

    /// A well-formed list has one score per move.
    pub proof fn lemma_lengths(&self)
        requires
            self.wf(),
        ensures
            self.moves().len() == self.scores().len(),
    {
    }

    pub fn new() -> (r: Self)
        ensures
            r.wf(),
            r.moves() == Seq::<u16>::empty(),
            r.scores() == Seq::<i32>::empty(),
            r.cursor() == 0,
    {
        MoveList { moves: Vec::new(), scores: Vec::new(), current: 0 }
    }

    /// Appends a move with its score.
    pub fn push(&mut self, m: u16, score: i32)
        requires
            old(self).wf(),
        ensures
            final(self).wf(),
            final(self).moves() == old(self).moves().push(m),
            final(self).scores() == old(self).scores().push(score),
            final(self).cursor() == old(self).cursor(),
    {
        self.moves.push(m);
        self.scores.push(score);
    }

    /// The move and score at `index`, `(0, 0)` past the end.
    pub fn get_all(&self, index: usize) -> (r: (u16, i32))
        requires
            self.wf(),
        ensures
            index < self.moves().len() ==> r == (self.moves()[index as int], self.scores()[index as int]),
            index >= self.moves().len() ==> r == (0u16, 0i32),
    {
        if index < self.moves.len() {
            (self.moves[index], self.scores[index])
        } else {
            (0, 0)
        }
    }

    /// The move at `index`, 0 past the end.
    pub fn get(&self, index: usize) -> (r: u16)
        requires
            self.wf(),
        ensures
            index < self.moves().len() ==> r == self.moves()[index as int],
            index >= self.moves().len() ==> r == 0,
    {
        if index < self.moves.len() {
            self.moves[index]
        } else {
            0
        }
    }

    /// The score at `index`, 0 past the end.
    pub fn get_score(&self, index: usize) -> (r: i32)
        requires
            self.wf(),
        ensures
            index < self.scores().len() ==> r == self.scores()[index as int],
            index >= self.scores().len() ==> r == 0,
    {
        if index < self.scores.len() {
            self.scores[index]
        } else {
            0
        }
    }

    /// Replaces the score at `index`.
    pub fn set_score(&mut self, index: usize, score: i32)
        requires
            old(self).wf(),
            index < old(self).scores().len(),
        ensures
            final(self).wf(),
            final(self).moves() == old(self).moves(),
            final(self).scores() == old(self).scores().update(index as int, score),
            final(self).cursor() == old(self).cursor(),
    {
        self.scores.set(index, score);
    }

    /// Exchanges the moves, and the scores, at `a` and `b`.
    pub fn swap(&mut self, a: usize, b: usize)
        requires
            old(self).wf(),
            a < old(self).moves().len(),
            b < old(self).moves().len(),
        ensures
            final(self).wf(),
            final(self).moves() == old(self).moves().update(a as int, old(self).moves()[b as int]).update(
                b as int,
                old(self).moves()[a as int],
            ),
            final(self).scores() == old(self).scores().update(a as int, old(self).scores()[b as int]).update(
                b as int,
                old(self).scores()[a as int],
            ),
            final(self).cursor() == old(self).cursor(),
    {
        let ma = self.moves[a];
        let mb = self.moves[b];
        self.moves.set(a, mb);
        self.moves.set(b, ma);
        let sa = self.scores[a];
        let sb = self.scores[b];
        self.scores.set(a, sb);
        self.scores.set(b, sa);
    }

    pub fn size(&self) -> (r: usize)
        ensures
            r == self.moves().len(),
    {
        self.moves.len()
    }

    pub fn is_empty(&self) -> (r: bool)
        ensures
            r == (self.moves().len() == 0),
    {
        self.moves.len() == 0
    }

    /// Does the list hold `m`?
    pub fn contains(&self, m: u16) -> (r: bool)
        ensures
            r == self.moves().contains(m),
    {
        let mut i: usize = 0;
        while i < self.moves.len()
            invariant
                i <= self.moves@.len(),
                forall|j: int| 0 <= j < i ==> self.moves@[j] != m,
            decreases self.moves@.len() - i,
        {
            if self.moves[i] == m {
                return true;
            }
            i = i + 1;
        }
        false
    }

    /// The next move in insertion order, `None` once all were handed out.
    pub fn next(&mut self) -> (r: Option<u16>)
        requires
            old(self).wf(),
            old(self).cursor() < usize::MAX,
        ensures
            final(self).wf(),
            final(self).moves() == old(self).moves(),
            final(self).scores() == old(self).scores(),
            final(self).cursor() == old(self).cursor() + 1,
            old(self).cursor() < old(self).moves().len() ==> r == Some(old(self).moves()[old(self).cursor() as int]),
            old(self).cursor() >= old(self).moves().len() ==> r.is_none(),
    {
        self.current = self.current + 1;
        if self.current <= self.moves.len() {
            Some(self.moves[self.current - 1])
        } else {
            None
        }
    }
}

} // verus!
