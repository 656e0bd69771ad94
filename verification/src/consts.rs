//! Constants and enumerations used throughout the engine.

use vstd::prelude::*;

verus! {

/// Score of a position in which the opponent's king is gone.
pub const CHECK_MATE_SCORE: i64 = 0x7fff_ffff_ffff_ffff;

/// Number of plies the engine looks ahead by default.
pub const SEARCH_DEPTH: u8 = 5;

/// No piece is worth more than this on any square, in absolute value.
pub const MAX_PIECE_SCORE: i64 = 1000;

/// No single move changes the running score by more than this, unless it
/// captures a king.
pub const MAX_MOVE_DELTA: i64 = 4000;

/// The six kinds of piece.
#[derive(Debug, PartialEq, Eq, Structural, Copy, Clone)]
pub enum PieceType {
    Pawn,
    Knight,
    Rook,
    Bishop,
    Queen,
    King,
}

/// The two sides.
#[derive(Debug, Copy, Clone, PartialEq, Eq, Structural)]
pub enum Color {
    White,
    Black,
}

/// The four kinds of move. The kind of a move is never stored: it follows
/// from the move and the position.
#[derive(Copy, Clone, Debug, PartialEq, Eq, Structural)]
pub enum MoveType {
    Standard,
    Promote,
    Castle,
    EnPassant,
}

/// The three phases of a game, by which the values of the pieces are looked
/// up.
#[derive(Debug, Clone, PartialEq, Eq, Structural, Copy)]
pub enum GamePhase {
    StartGame,
    MidGame,
    EndGame,
}

impl Color {
    /// The other side.
    pub open spec fn spec_opposite(self) -> Color {
        match self {
            Color::White => Color::Black,
            Color::Black => Color::White,
        }
    }

    /// The other side.
    #[verifier::when_used_as_spec(spec_opposite)]
    pub fn opposite(self) -> (r: Color)
        ensures
            r == self.spec_opposite(),
    {
        match self {
            Color::White => Color::Black,
            Color::Black => Color::White,
        }
    }

    /// +1 for White, -1 for Black: the sign with which a value of this side
    /// enters White's score.
    pub open spec fn sign(self) -> int {
        match self {
            Color::White => 1,
            Color::Black => -1,
        }
    }

    /// The rank on which this side's pieces start: 0 for White, 7 for Black.
    pub open spec fn spec_home_rank(self) -> int {
        match self {
            Color::White => 0,
            Color::Black => 7,
        }
    }

    /// The rank on which this side's pieces start: 0 for White, 7 for Black.
    pub fn home_rank(self) -> (r: usize)
        ensures
            r == self.spec_home_rank(),
    {
        match self {
            Color::White => 0,
            Color::Black => 7,
        }
    }
}

impl GamePhase {
    /// Ordinal of the phase, the first index into a piece-square table.
    pub open spec fn spec_index(self) -> int {
        match self {
            GamePhase::StartGame => 0,
            GamePhase::MidGame => 1,
            GamePhase::EndGame => 2,
        }
    }

    /// Ordinal of the phase, the first index into a piece-square table.
    pub fn index(self) -> (r: usize)
        ensures
            r == self.spec_index(),
    {
        match self {
            GamePhase::StartGame => 0,
            GamePhase::MidGame => 1,
            GamePhase::EndGame => 2,
        }
    }
}

} // verus!
