//! Functions that are used to determine if the current game state is any good
//! for a side: the game phase, the score of the board, and the moves that a
//! side can make.

use vstd::prelude::*;
use crate::consts::{Color, GamePhase, PieceType, CHECK_MATE_SCORE, MAX_PIECE_SCORE};
use crate::game::{Game, GameView};
use crate::move_struct::{move_views, Move, MoveView};
use crate::piece::Piece;
use crate::types::{at, board_view, cord, get_square, Board, Square};
use crate::utils::moves_start_on;

verus! {

/// The number of squares of the sequence on which a piece stands.
pub open spec fn occupied(squares: Seq<Option<Piece>>) -> nat
    decreases squares.len(),
{
    if squares.len() == 0 {
        0
    } else {
        occupied(squares.drop_last()) + if squares.last() is Some {
            1nat
        } else {
            0nat
        }
    }
}

/// What square number `i` of the board adds to White's score when `v` stands
/// on it: the value of a white piece, minus the value of a black one.
pub open spec fn value_on(v: Option<Piece>, i: int, phase: GamePhase) -> int {
    match v {
        Some(p) => p.signed_score(Square { x: i % 8, y: i / 8 }, phase),
        None => 0,
    }
}

/// What square number `i` of the board adds to White's score.
pub open spec fn square_value(bv: Seq<Option<Piece>>, i: int, phase: GamePhase) -> int {
    value_on(bv[i], i, phase)
}

/// The values of White's pieces on the first `n` squares, minus those of
/// Black's.
pub open spec fn material_balance(bv: Seq<Option<Piece>>, phase: GamePhase, n: int) -> int
    decreases n,
{
    if n <= 0 {
        0
    } else {
        material_balance(bv, phase, n - 1) + square_value(bv, n - 1, phase)
    }
}

/// The king of a colour.
pub open spec fn king_of(color: Color) -> Piece {
    Piece { piece_type: PieceType::King, color }
}

/// Whether the king of a colour stands on one of the first `n` squares.
pub open spec fn has_king_before(bv: Seq<Option<Piece>>, color: Color, n: int) -> bool {
    exists|i: int| 0 <= i < n && #[trigger] bv[i] == Some(king_of(color))
}

/// Whether the king of a colour stands on the board.
pub open spec fn has_king(bv: Seq<Option<Piece>>, color: Color) -> bool {
    has_king_before(bv, color, 64)
}

/// White's score for a board in a phase, counted from scratch: minus the
/// mate score if White has no king, the mate score if only Black has none,
/// and else the values of White's pieces minus those of Black's.
pub open spec fn full_score(bv: Seq<Option<Piece>>, phase: GamePhase) -> int {
    if !has_king(bv, Color::White) {
        -CHECK_MATE_SCORE
    } else if !has_king(bv, Color::Black) {
        CHECK_MATE_SCORE as int
    } else {
        material_balance(bv, phase, 64)
    }
}

/// The phase of a game in which `pieces` pieces are left, `midfield` of them
/// on the four middle ranks, at the given move number: the endgame with
/// fewer than 12 pieces; else the middle game with more than 8 pieces in
/// midfield or after move 15; else the phase it was in.
pub open spec fn phase_for(pieces: nat, midfield: nat, fullmove: nat, was: GamePhase) -> GamePhase {
    if pieces < 12 {
        GamePhase::EndGame
    } else if midfield > 8 || fullmove > 15 {
        GamePhase::MidGame
    } else {
        was
    }
}

impl GameView {
    /// The moves of `color` from the first `n` squares of the board, in the
    /// order in which the search tries them: the moves of each pawn come
    /// after all moves found before, those of any other piece come before
    /// them, last move first.
    pub open spec fn moves_before(self, color: Color, n: int) -> Seq<MoveView>
        decreases n,
    {
        if n <= 0 {
            Seq::empty()
        } else {
            let earlier = self.moves_before(color, n - 1);
            match self.board[n - 1] {
                Some(p) => if p.color == color {
                    let ms = self.piece_moves(
                        p.piece_type,
                        color,
                        Square { x: (n - 1) % 8, y: (n - 1) / 8 },
                    );
                    if p.piece_type == PieceType::Pawn {
                        earlier + ms
                    } else {
                        ms.reverse() + earlier
                    }
                } else {
                    earlier
                },
                None => earlier,
            }
        }
    }

    /// All the moves that `color` can make, in the order in which the search
    /// tries them.
    pub open spec fn all_moves(self, color: Color) -> Seq<MoveView> {
        self.moves_before(color, 64)
    }

    /// Every move of the sequence starts on a piece and stays on the board.
    pub open spec fn movable(self, ms: Seq<MoveView>) -> bool {
        forall|i: int|
            0 <= i < ms.len() ==> (#[trigger] ms[i]).from.on_board() && ms[i].to.on_board() && at(
                self.board,
                ms[i].from,
            ) is Some
    }

    /// The phase that the position is in by its pieces and its move number.
    pub open spec fn phase_now(self) -> GamePhase {
        phase_for(
            occupied(self.board),
            occupied(self.board.subrange(16, 48)),
            self.fullmove_counter,
            self.game_phase,
        )
    }

    /// The running score is what counting the board from scratch gives.
    pub open spec fn score_is_exact(self) -> bool {
        self.score_white == full_score(self.board, self.game_phase)
    }
}

/// The balance of material on a board is bounded by the number of squares
/// counted times the largest value of a piece.
pub proof fn lemma_balance_bound(bv: Seq<Option<Piece>>, phase: GamePhase, n: int)
    requires
        0 <= n <= 64,
        bv.len() == 64,
    ensures
        -n * MAX_PIECE_SCORE <= material_balance(bv, phase, n) <= n * MAX_PIECE_SCORE,
    decreases n,
{
    if n > 0 {
        lemma_balance_bound(bv, phase, n - 1);
        match bv[n - 1] {
            Some(p) => {
                p.lemma_score_bound(Square { x: (n - 1) % 8, y: (n - 1) / 8 }, phase);
            },
            None => {},
        }
    }
}

/// A missing king decides the score, and the sign tells who is better off:
/// without a white king the score of a board is the negated mate score, and
/// with a white king but no black one it is the mate score. With both kings
/// it stays within 64 times the largest value of a piece.
pub proof fn lemma_full_score_by_kings(bv: Seq<Option<Piece>>, phase: GamePhase)
    requires
        bv.len() == 64,
    ensures
        !has_king(bv, Color::White) ==> full_score(bv, phase) == -CHECK_MATE_SCORE,
        has_king(bv, Color::White) && !has_king(bv, Color::Black) ==> full_score(bv, phase)
            == CHECK_MATE_SCORE,
        has_king(bv, Color::White) && has_king(bv, Color::Black) ==> -64 * MAX_PIECE_SCORE
            <= full_score(bv, phase) <= 64 * MAX_PIECE_SCORE,
{
    lemma_balance_bound(bv, phase, 64);
}

/// The piece of the same kind and the other colour, and nothing for nothing.
pub open spec fn recolored(v: Option<Piece>) -> Option<Piece> {
    match v {
        Some(p) => Some(Piece { piece_type: p.piece_type, color: p.color.spec_opposite() }),
        None => None,
    }
}

/// The board looks the same from both sides: what stands on a square stands
/// in the other colour on the square that mirrors it across the middle of
/// the board.
pub open spec fn mirrored(bv: Seq<Option<Piece>>) -> bool {
    forall|x: int, y: int|
        0 <= x < 8 && 0 <= y < 8 ==> #[trigger] bv[(7 - y) * 8 + x] == recolored(bv[y * 8 + x])
}

/// What the first `x` squares of rank `y` add to White's score.
pub open spec fn rank_balance(bv: Seq<Option<Piece>>, phase: GamePhase, y: int, x: int) -> int {
    material_balance(bv, phase, y * 8 + x) - material_balance(bv, phase, y * 8)
}

/// On a mirrored board a rank adds to White's score what the rank that
/// mirrors it takes away.
pub proof fn lemma_mirrored_ranks(bv: Seq<Option<Piece>>, phase: GamePhase, y: int, x: int)
    requires
        bv.len() == 64,
        mirrored(bv),
        0 <= y < 8,
        0 <= x <= 8,
    ensures
        rank_balance(bv, phase, 7 - y, x) == -rank_balance(bv, phase, y, x),
    decreases x,
{
    if x > 0 {
        lemma_mirrored_ranks(bv, phase, y, x - 1);
        let here = y * 8 + (x - 1);
        let there = (7 - y) * 8 + (x - 1);
        assert(here % 8 == x - 1 && here / 8 == y);
        assert(there % 8 == x - 1 && there / 8 == 7 - y);
        assert(bv[there] == recolored(bv[here]));
        reveal(Piece::spec_score);
        assert(square_value(bv, there, phase) == -square_value(bv, here, phase));
    }
}

/// A position that looks the same from both sides is level: the score of a
/// mirrored board with both kings is zero.
pub proof fn lemma_mirrored_board_is_level(bv: Seq<Option<Piece>>, phase: GamePhase)
    requires
        bv.len() == 64,
        mirrored(bv),
        has_king(bv, Color::White),
        has_king(bv, Color::Black),
    ensures
        full_score(bv, phase) == 0,
{
    lemma_mirrored_ranks(bv, phase, 0, 8);
    lemma_mirrored_ranks(bv, phase, 1, 8);
    lemma_mirrored_ranks(bv, phase, 2, 8);
    lemma_mirrored_ranks(bv, phase, 3, 8);
    assert(material_balance(bv, phase, 0) == 0);
}

/// Counts the pieces on the ranks from `first` up to, not including, `end`.
fn count_pieces(board: &Board, first: usize, end: usize) -> (n: usize)
    requires
        first <= end <= 8,
    ensures
        n == occupied(board_view(*board).subrange(first * 8, end * 8)),
        n <= 64,
{
    let ghost bv = board_view(*board);
    let mut n: usize = 0;
    let mut y: usize = first;
    assert(bv.subrange(first * 8, first * 8) =~= Seq::<Option<Piece>>::empty());
    while y < end
        invariant
            first <= y <= end <= 8,
            bv == board_view(*board),
            n == occupied(bv.subrange(first * 8, y * 8)),
            n <= (y - first) * 8,
        decreases end - y,
    {
        let mut x: usize = 0;
        while x < 8
            invariant
                first <= y < end <= 8,
                x <= 8,
                bv == board_view(*board),
                n == occupied(bv.subrange(first * 8, y * 8 + x)),
                n <= (y - first) * 8 + x,
            decreases 8 - x,
        {
            proof {
                let next = bv.subrange(first * 8, y * 8 + x + 1);
                assert(next.drop_last() =~= bv.subrange(first * 8, y * 8 + x));
                assert(next.last() == bv[y * 8 + x]);
            }
            if get_square(board, x, y).is_some() {
                n += 1;
            }
            x += 1;
        }
        y += 1;
    }
    n
}

impl Game {
    /// Calculates the current game phase.
    pub fn calculate_game_phase(&mut self)
        ensures
            final(self)@ == (GameView { game_phase: old(self)@.phase_now(), ..old(self)@ }),
    {
        let n_pieces = count_pieces(&self.board, 0, 8);
        let n_pieces_midfield = count_pieces(&self.board, 2, 6);
        assert(self@.board.subrange(0, 64) =~= self@.board);
        if n_pieces_midfield > 8 || self.fullmove_counter > 15 {
            self.game_phase = GamePhase::MidGame;
        }
        if n_pieces < 12 {
            self.game_phase = GamePhase::EndGame;
        }
    }

    /// Returns the board score for the specified color: White's score for
    /// White, its negation for Black.
    pub fn get_board_score(&mut self, color: Color) -> (r: i64)
        requires
            old(self).score_white > i64::MIN,
        ensures
            *final(self) == *old(self),
            r == color.sign() * old(self).score_white,
    {
        match color {
            Color::White => self.score_white,
            Color::Black => -self.score_white,
        }
    }

    /// Returns a vector of moves that the specified color can make at this
    /// point in the game. The moves of pawns stand last.
    pub fn get_all_moves(&self, color: Color) -> (all_moves: Vec<Move>)
        ensures
            move_views(all_moves@) == self@.all_moves(color),
            self@.movable(move_views(all_moves@)),
    {
        let mut all_moves: Vec<Move> = Vec::new();
        let mut y: usize = 0;
        while y < 8
            invariant
                y <= 8,
                move_views(all_moves@) == self@.moves_before(color, y * 8),
                self@.movable(move_views(all_moves@)),
            decreases 8 - y,
        {
            let mut x: usize = 0;
            while x < 8
                invariant
                    y < 8,
                    x <= 8,
                    move_views(all_moves@) == self@.moves_before(color, y * 8 + x),
                    self@.movable(move_views(all_moves@)),
                decreases 8 - x,
            {
                let ghost i = y * 8 + x;
                let ghost earlier = move_views(all_moves@);
                assert(i % 8 == x && i / 8 == y);
                match get_square(&self.board, x, y) {
                    Some(p) => {
                        if color == p.color {
                            let mut moves = p.get_all_moves(cord(x, y), self);
                            let ghost ms = move_views(moves@);
                            match p.piece_type {
                                PieceType::Pawn => {
                                    proof {
                                        crate::piece::lemma_move_views_add(all_moves@, moves@);
                                    }
                                    all_moves.append(&mut moves);
                                },
                                _ => {
                                    let mut k: usize = 0;
                                    while k < moves.len()
                                        invariant
                                            k <= moves.len(),
                                            ms == move_views(moves@),
                                            moves_start_on(ms, Square { x: x as int, y: y as int }),
                                            x < 8,
                                            y < 8,
                                            at(self@.board, Square { x: x as int, y: y as int })
                                                is Some,
                                            self@.movable(earlier),
                                            move_views(all_moves@) == ms.take(k as int).reverse()
                                                + earlier,
                                        decreases moves.len() - k,
                                    {
                                        let ghost acc = move_views(all_moves@);
                                        all_moves.insert(0, moves[k]);
                                        assert(move_views(all_moves@) =~= seq![ms[k as int]] + acc);
                                        assert(ms.take(k + 1).reverse() =~= seq![ms[k as int]]
                                            + ms.take(k as int).reverse());
                                        assert(move_views(all_moves@) =~= ms.take(k + 1).reverse()
                                            + earlier);
                                        k += 1;
                                    }
                                    assert(ms.take(k as int) =~= ms);
                                },
                            }
                        }
                    },
                    None => {},
                }
                x += 1;
            }
            y += 1;
        }
        all_moves
    }

    /// Calculates the score for the current board.
    ///
    /// Only used when loading the board. Afterwards the score is simply
    /// updated by only checking the new values for the moved pieces.
    pub fn calculate_board_score(&mut self)
        ensures
            final(self)@ == (GameView {
                score_white: full_score(old(self)@.board, old(self)@.game_phase),
                ..old(self)@
            }),
            final(self)@.score_is_exact(),
            !has_king(old(self)@.board, Color::White) ==> final(self).score_white
                == -CHECK_MATE_SCORE,
            has_king(old(self)@.board, Color::White) && !has_king(old(self)@.board, Color::Black)
                ==> final(self).score_white == CHECK_MATE_SCORE,
            has_king(old(self)@.board, Color::White) && has_king(old(self)@.board, Color::Black)
                ==> -64 * MAX_PIECE_SCORE <= final(self).score_white <= 64 * MAX_PIECE_SCORE,
    {
        let ghost bv = self@.board;
        let ghost phase = self.game_phase;
        let mut board_score: i64 = 0;
        let mut white_king_present = false;
        let mut black_king_present = false;
        let mut y: usize = 0;
        while y < 8
            invariant
                y <= 8,
                *self == *old(self),
                bv == self@.board,
                phase == self.game_phase,
                board_score == material_balance(bv, phase, y * 8),
                -(y * 8) * MAX_PIECE_SCORE <= board_score <= (y * 8) * MAX_PIECE_SCORE,
                white_king_present == has_king_before(bv, Color::White, y * 8),
                black_king_present == has_king_before(bv, Color::Black, y * 8),
            decreases 8 - y,
        {
            let mut x: usize = 0;
            while x < 8
                invariant
                    y < 8,
                    x <= 8,
                    *self == *old(self),
                    bv == self@.board,
                    phase == self.game_phase,
                    board_score == material_balance(bv, phase, y * 8 + x),
                    -(y * 8 + x) * MAX_PIECE_SCORE <= board_score <= (y * 8 + x) * MAX_PIECE_SCORE,
                    white_king_present == has_king_before(bv, Color::White, y * 8 + x),
                    black_king_present == has_king_before(bv, Color::Black, y * 8 + x),
                decreases 8 - x,
            {
                let ghost i = y * 8 + x;
                assert(i % 8 == x && i / 8 == y);
                match get_square(&self.board, x, y) {
                    Some(p) => {
                        let piece_score = p.score(x, y, &self.game_phase);
                        if p.color == Color::White {
                            board_score += piece_score;
                        } else {
                            board_score -= piece_score;
                        }
                        if p.piece_type == PieceType::King {
                            match p.color {
                                Color::White => {
                                    white_king_present = true;
                                },
                                Color::Black => {
                                    black_king_present = true;
                                },
                            }
                        }
                    },
                    None => {},
                }
                assert(has_king_before(bv, Color::White, i + 1) == (has_king_before(
                    bv,
                    Color::White,
                    i,
                ) || bv[i] == Some(king_of(Color::White))));
                assert(has_king_before(bv, Color::Black, i + 1) == (has_king_before(
                    bv,
                    Color::Black,
                    i,
                ) || bv[i] == Some(king_of(Color::Black))));
                x += 1;
            }
            y += 1;
        }
        if !white_king_present || !black_king_present {
            board_score = CHECK_MATE_SCORE;
            if !white_king_present {
                board_score = -CHECK_MATE_SCORE;
            }
        }
        self.score_white = board_score;
    }
}

} // verus!
