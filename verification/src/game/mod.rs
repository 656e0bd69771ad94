//! The position: board, side to move, castling rights, en-passant target,
//! history, running score, move counter and game phase.

pub mod best_move;
pub mod consistency;
pub mod evaluation;
pub mod moving;
pub mod storage;

use vstd::prelude::*;
use crate::consts::{Color, GamePhase, CHECK_MATE_SCORE, MAX_MOVE_DELTA};
use crate::move_struct::{move_views, sq_opt, Move, MoveView};
use crate::piece::Piece;
use crate::types::{board_view, Board, Cord, Square};

verus! {

/// A position of the game. The board is indexed `[rank][file]`, rank 0 is
/// White's back rank. A king among the castling rights is its colour's right
/// to castle king-side, a queen the right to castle queen-side.
pub struct Game {
    pub board: Board,
    pub on_turn: Color,
    pub castle: Vec<Piece>,
    pub en_passant_target_square: Option<Cord>,
    pub moves: Vec<Move>,
    pub score_white: i64,
    pub fullmove_counter: usize,
    pub game_phase: GamePhase,
}

/// Model of a position.
pub struct GameView {
    /// The 64 squares in row-major order, rank 0 first.
    pub board: Seq<Option<Piece>>,
    pub on_turn: Color,
    /// The castling rights in the order in which they are written out. A king
    /// stands for its colour's king-side right, a queen for the queen-side
    /// right.
    pub castle: Seq<Piece>,
    pub en_passant: Option<Square>,
    pub moves: Seq<MoveView>,
    pub score_white: int,
    pub fullmove_counter: nat,
    pub game_phase: GamePhase,
}

impl View for Game {
    type V = GameView;

    open spec fn view(&self) -> GameView {
        GameView {
            board: board_view(self.board),
            on_turn: self.on_turn,
            castle: self.castle@,
            en_passant: sq_opt(self.en_passant_target_square),
            moves: move_views(self.moves@),
            score_white: self.score_white as int,
            fullmove_counter: self.fullmove_counter as nat,
            game_phase: self.game_phase,
        }
    }
}

impl GameView {
    /// The position can take `n` more moves without its running score or its
    /// move counter leaving the range of their machine types: the score is
    /// at least `n` times the largest change of one move away from the mate
    /// scores, and the counter at least `n` below its largest value.
    pub open spec fn has_room(self, n: nat) -> bool {
        &&& -(CHECK_MATE_SCORE - n * MAX_MOVE_DELTA) <= self.score_white <= CHECK_MATE_SCORE - n
            * MAX_MOVE_DELTA
        &&& self.fullmove_counter + n <= usize::MAX
    }

    /// The score is one of the two mate scores.
    pub open spec fn is_decided(self) -> bool {
        self.score_white == CHECK_MATE_SCORE || self.score_white == -CHECK_MATE_SCORE
    }
}

impl Game {
    /// Whether the position can take `n` more moves without its running
    /// score or its move counter leaving the range of their machine types.
    pub fn has_room(&self, n: u16) -> (r: bool)
        ensures
            r == self@.has_room(n as nat),
    {
        let margin: i64 = (n as i64) * MAX_MOVE_DELTA;
        let limit: i64 = CHECK_MATE_SCORE - margin;
        -limit <= self.score_white && self.score_white <= limit && self.fullmove_counter
            <= usize::MAX - (n as usize)
    }
}

impl Clone for Game {
    /// A copy of the position.
    fn clone(&self) -> (r: Game)
        ensures
            r@ == self@,
    {
        let mut castle: Vec<Piece> = Vec::new();
        let mut i: usize = 0;
        while i < self.castle.len()
            invariant
                i <= self.castle.len(),
                castle@ == self.castle@.take(i as int),
            decreases self.castle.len() - i,
        {
            castle.push(self.castle[i]);
            i += 1;
        }
        let mut moves: Vec<Move> = Vec::new();
        let mut j: usize = 0;
        while j < self.moves.len()
            invariant
                j <= self.moves.len(),
                moves@ == self.moves@.take(j as int),
            decreases self.moves.len() - j,
        {
            moves.push(self.moves[j]);
            j += 1;
        }
        assert(self.castle@.take(i as int) =~= self.castle@);
        assert(self.moves@.take(j as int) =~= self.moves@);
        Game {
            board: self.board,
            on_turn: self.on_turn,
            castle: castle,
            en_passant_target_square: self.en_passant_target_square,
            moves: moves,
            score_white: self.score_white,
            fullmove_counter: self.fullmove_counter,
            game_phase: self.game_phase,
        }
    }
}

} // verus!
