//! Irreversible per-ply state of a position, and the stack of earlier states.
use vstd::prelude::*;
use vstd::std_specs::iter::IteratorSpec;
use crate::defs::{Castling, Piece, PieceType, Player, Square, MAX_GAME_LENGTH};

verus! {

/// The state of a position that cannot be recomputed when a move is taken back.
#[derive(Clone, Copy, Debug, PartialEq, Eq)]
pub struct Position {
    /// Castling state.
    ///
    /// Bit 0 is white castle queen side,
    /// bit 1 is white castle king side,
    /// bit 2 is black castle queen side,
    /// bit 3 is black castle king side
    pub castling: u8,
    /// 50 move rule counter
    pub rule_fifty: u8,
    /// Ply at this position, starting from zero
    pub ply: usize,
    /// Square behind the pawn, 64 if none
    pub ep_square: Square,
    /// Zobrist key
    pub key: u64,
    /// Bitboard of all the pieces giving check
    pub checkers_bb: u64,
    /// Per player, bitboard of all the pieces blocking check on that player's king
    pub king_blockers: [u64; 2],
    /// Per player, bitboard of that player's sliders pinning a piece to the opponent's king
    pub pinners: [u64; 2],
    /// Per piece type, bitboard containing all the squares on which a piece of that
    /// type gives check to the opponent
    pub check_squares: [u64; 6],
    /// Pieces of the side to move pinned to its king along a diagonal
    pub pinned_diag: u64,
    /// Pieces of the side to move pinned to its king along a rank or file
    pub pinned_ortho: u64,
    /// `NoPiece` if none
    pub captured_piece: PieceType,
    /// The move that led to this position, `None` at the root or after a null move
    pub last_move: Option<u16>,
    /// The piece that made `last_move`, an empty piece if there is none
    pub moved_piece: Piece,
}

impl Position {
    /// The empty state, as a value.
    pub open spec fn new_spec() -> Position {
        Position {
            castling: Castling::NONE,
            rule_fifty: 0,
            ply: 0,
            ep_square: 64,
            key: 0,
            checkers_bb: 0,
            king_blockers: [0, 0],
            pinners: [0, 0],
            check_squares: [0, 0, 0, 0, 0, 0],
            pinned_diag: 0,
            pinned_ortho: 0,
            captured_piece: PieceType::NoPiece,
            last_move: None,
            moved_piece: Piece { t: PieceType::NoPiece, c: Player::White },
        }
    }

    /// The empty state: no castling rights, no en passant square, zero key.
    pub fn new() -> (r: Self)
        ensures
            r == Position::new_spec(),
    {
        Position {
            castling: Castling::NONE,
            rule_fifty: 0,
            ply: 0,
            ep_square: 64,
            key: 0,
            checkers_bb: 0,
            king_blockers: [0, 0],
            pinners: [0, 0],
            check_squares: [0, 0, 0, 0, 0, 0],
            pinned_diag: 0,
            pinned_ortho: 0,
            captured_piece: PieceType::NoPiece,
            last_move: None,
            moved_piece: Piece { t: PieceType::NoPiece, c: Player::White },
        }
    }
}

/// The states of the positions before the current one, oldest first.
#[derive(Clone, Debug)]
pub struct History {
    pub positions: Vec<Position>,
}

impl History {
    pub open spec fn view(&self) -> Seq<Position> {
        self.positions@
    }

    /// Number of stored states.
    pub open spec fn count(&self) -> nat {
        self.positions@.len()
    }

    pub fn new() -> (r: Self)
        ensures
            r@ == Seq::<Position>::empty(),
    {
        History { positions: Vec::new() }
    }

    pub fn clear(&mut self)
        ensures
            final(self)@ == Seq::<Position>::empty(),
    {
        self.positions.clear();
    }

    pub fn push(&mut self, pos: Position)
        requires
            old(self)@.len() < MAX_GAME_LENGTH,
        ensures
            final(self)@ == old(self)@.push(pos),
    {
        self.positions.push(pos);
    }

    pub fn pop(&mut self) -> (r: Position)
        requires
            old(self)@.len() >= 1,
        ensures
            r == old(self)@.last(),
            final(self)@ == old(self)@.drop_last(),
    {
        self.positions.pop().unwrap()
    }

    pub fn empty(&self) -> (r: bool)
        ensures
            r == (self@.len() == 0),
    {
        self.positions.len() == 0
    }

    /// Number of stored states.
    pub fn len(&self) -> (r: usize)
        ensures
            r == self@.len(),
    {
        self.positions.len()
    }

    pub fn get_key(&self, index: usize) -> (r: u64)
        requires
            index < self@.len(),
        ensures
            r == self@[index as int].key,
    {
        self.positions[index].key
    }

    /// The move that led to the stored state at `index`, with the piece that made it.
    pub fn get_move(&self, index: usize) -> (r: Option<(u16, Piece)>)
        requires
            index < self@.len(),
        ensures
            r == (match self@[index as int].last_move {
                Some(m) => Some((m, self@[index as int].moved_piece)),
                None => None,
            }),
    {
        let pos = &self.positions[index];
        match pos.last_move {
            Some(m) => Some((m, pos.moved_piece)),
            None => None,
        }
    }

    /// Iterates over the stored states, oldest first.
    pub fn iter(&self) -> (r: std::slice::Iter<'_, Position>)
        ensures
            IteratorSpec::remaining(&r) == self.positions@.as_ref(),
    {
        let s = self.positions.as_slice();
        proof {
            vstd::std_specs::slice::axiom_spec_slice_iter(s);
        }
        s.iter()
    }
}

} // verus!
