//! Side colors.
use vstd::prelude::*;
use crate::bitboard::BitBoard;
use crate::defs::{Player, Square};

verus! {

/// The color of a side.
#[derive(Clone, Copy, PartialEq, Eq, Structural, Debug)]
pub enum Color {
    White,
    Black,
}

/// The player of a color.
pub open spec fn player_of(c: Color) -> Player {
    match c {
        Color::White => Player::White,
        Color::Black => Player::Black,
    }
}

impl Color {
    /// Color as an index: 0 for white, 1 for black.
    pub fn as_usize(self) -> (r: usize)
        ensures
            r == (if self == Color::White { 0usize } else { 1usize }),
    {
        match self {
            Color::White => 0,
            Color::Black => 1,
        }
    }

    pub fn opp(&self) -> (r: Self)
        ensures
            r == (if *self == Color::White { Color::Black } else { Color::White }),
    {
        match self {
            Color::White => Color::Black,
            _ => Color::White,
        }
    }

    pub fn pawn_dir(&self) -> (r: Square)
        ensures
            r == (if *self == Color::White { 8i8 } else { -8i8 }),
    {
        match self {
            Color::White => 8,
            _ => -8,
        }
    }

    pub fn to_player(&self) -> (r: Player)
        ensures
            r == player_of(*self),
    {
        match self {
            Color::White => Player::White,
            _ => Player::Black,
        }
    }

    /// The pawns' starting rank.
    pub fn rank_2(&self) -> (r: u64)
        ensures
            r == (if *self == Color::White { BitBoard::RANK_2 } else { BitBoard::RANK_7 }),
    {
        match self {
            Color::White => BitBoard::RANK_2,
            _ => BitBoard::RANK_7,
        }
    }

    pub fn rank_3(&self) -> (r: u64)
        ensures
            r == (if *self == Color::White { BitBoard::RANK_3 } else { BitBoard::RANK_6 }),
    {
        match self {
            Color::White => BitBoard::RANK_3,
            _ => BitBoard::RANK_6,
        }
    }

    pub fn rank_7(&self) -> (r: u64)
        ensures
            r == (if *self == Color::White { BitBoard::RANK_7 } else { BitBoard::RANK_2 }),
    {
        match self {
            Color::White => BitBoard::RANK_7,
            _ => BitBoard::RANK_2,
        }
    }

    pub fn rank_8(&self) -> (r: u64)
        ensures
            r == (if *self == Color::White { BitBoard::RANK_8 } else { BitBoard::RANK_1 }),
    {
        match self {
            Color::White => BitBoard::RANK_8,
            _ => BitBoard::RANK_1,
        }
    }
}

} // verus!
