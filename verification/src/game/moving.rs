//! Making moves: the one place where the board, the castling rights and the
//! running score change.

use vstd::prelude::*;
use crate::consts::{
    Color,
    GamePhase,
    MoveType,
    PieceType,
    CHECK_MATE_SCORE,
    MAX_MOVE_DELTA,
    MAX_PIECE_SCORE,
};
use crate::game::{Game, GameView};
use crate::move_struct::{classify, move_views, Move, MoveView};
use crate::piece::{piece_of, Piece};
use crate::types::{at, cord, get_square, set_square, square, Square};

verus! {

/// Whether moving or losing `piece` on file `file` takes the castling right
/// `right` away. A king takes both rights of its colour, a rook on the
/// a-file its colour's queen-side right, a rook on the h-file its king-side
/// right.
pub open spec fn revokes(piece: Piece, file: int, right: Piece) -> bool {
    if piece.piece_type == PieceType::King {
        right.color == piece.color
    } else if piece.piece_type == PieceType::Rook {
        right.color == piece.color && ((file == 0 && right.piece_type == PieceType::Queen) || (file
            == 7 && right.piece_type == PieceType::King))
    } else {
        false
    }
}

/// The rights that are left after moving or losing `piece` on file `file`.
pub open spec fn rights_without(rights: Seq<Piece>, piece: Piece, file: int) -> Seq<Piece> {
    rights.filter(|r: Piece| !revokes(piece, file, r))
}

/// The rights that are left after one side has lost all of its own.
pub open spec fn rights_without_color(rights: Seq<Piece>, color: Color) -> Seq<Piece> {
    rights.filter(|r: Piece| r.color != color)
}

/// The change of value when what stands on `from` is put on `to`: nothing for
/// an empty square.
pub open spec fn shift_value(
    p: Option<Piece>,
    from: Square,
    to: Square,
    phase: GamePhase,
) -> int {
    match p {
        Some(p) => p.spec_score(to, phase) - p.spec_score(from, phase),
        None => 0,
    }
}

/// The score that stands for a position in which the king of `color` has
/// been captured.
pub open spec fn king_lost_score(color: Color) -> int {
    if color == Color::White {
        -CHECK_MATE_SCORE
    } else {
        CHECK_MATE_SCORE as int
    }
}

impl GameView {
    /// The move fits the machine: the score after it lies in the range of the
    /// score's type, and so does the move counter where the move adds to it.
    /// A move that captures a king always fits the score.
    pub open spec fn fits(self, m: MoveView) -> bool {
        &&& i64::MIN <= self.score_after(m) <= i64::MAX
        &&& self.on_turn == Color::Black ==> self.fullmove_counter < usize::MAX
    }

    /// The move can be made: both squares lie on the board, a piece stands on
    /// the square it starts from, and the move fits the machine.
    pub open spec fn can_move(self, m: MoveView) -> bool {
        &&& m.from.on_board()
        &&& m.to.on_board()
        &&& at(self.board, m.from) is Some
        &&& self.fits(m)
    }

    /// The move can be made whatever it does to the score: both squares lie
    /// on the board, a piece stands on the square it starts from, and the
    /// position has room for one move.
    pub open spec fn can_surely_move(self, m: MoveView) -> bool {
        &&& m.from.on_board()
        &&& m.to.on_board()
        &&& at(self.board, m.from) is Some
        &&& self.has_room(1)
    }

    /// The piece that the move moves.
    pub open spec fn mover(self, m: MoveView) -> Piece {
        at(self.board, m.from)->0
    }

    /// The kind of the move in this position, and the piece that goes with
    /// it. The en-passant target counts as it stands before the move.
    pub open spec fn move_kind(self, m: MoveView) -> (MoveType, Option<Piece>) {
        classify(m, Some(self.castle), self.en_passant, Some(self.mover(m).piece_type))
    }

    /// The board with the moving piece taken off.
    pub open spec fn lifted(self, m: MoveView) -> Seq<Option<Piece>> {
        self.board.update(m.from.index(), None)
    }

    /// The square on which a piece is captured: the target of a standard
    /// move, and for an en-passant capture the square beside the pawn, on the
    /// file it moves to.
    pub open spec fn capture_square(self, m: MoveView) -> Square {
        if self.move_kind(m).0 == MoveType::EnPassant {
            Square { x: m.to.x, y: m.from.y }
        } else {
            m.to
        }
    }

    /// The piece that the move captures, if any. Only standard moves and
    /// en-passant captures capture.
    pub open spec fn captured(self, m: MoveView) -> Option<Piece> {
        let kind = self.move_kind(m).0;
        if kind == MoveType::Standard || kind == MoveType::EnPassant {
            at(self.lifted(m), self.capture_square(m))
        } else {
            None
        }
    }

    /// The move captures a king.
    pub open spec fn captures_king(self, m: MoveView) -> bool {
        self.captured(m) is Some && self.captured(m)->0.piece_type == PieceType::King
    }

    /// The board after the move.
    pub open spec fn board_after(self, m: MoveView) -> Seq<Option<Piece>> {
        let p = self.mover(m);
        let (kind, with) = self.move_kind(m);
        let lifted = self.lifted(m);
        match kind {
            MoveType::Standard => lifted.update(m.to.index(), Some(p)),
            MoveType::Promote => lifted.update(m.to.index(), with),
            MoveType::Castle => {
                let king = Some(Piece { piece_type: PieceType::King, color: with->0.color });
                let rook = Some(Piece { piece_type: PieceType::Rook, color: with->0.color });
                let row = m.to.y * 8;
                if with->0.piece_type == PieceType::King {
                    lifted.update(row + 6, king).update(row + 5, rook).update(row + 7, None)
                } else {
                    lifted.update(row + 2, king).update(row + 3, rook).update(row + 0, None)
                }
            },
            MoveType::EnPassant => lifted.update(self.capture_square(m).index(), None).update(
                m.to.index(),
                Some(p),
            ),
        }
    }

    /// What the mover gains by the move, in its own eyes: the change in value
    /// of what moves, and the value of what is captured. For a castle, what
    /// stands in the corner moves as the rook does.
    pub open spec fn gain(self, m: MoveView) -> int {
        let p = self.mover(m);
        let (kind, with) = self.move_kind(m);
        let phase = self.game_phase;
        let left = -p.spec_score(m.from, phase);
        let arrived = match kind {
            MoveType::Standard => p.spec_score(m.to, phase),
            MoveType::EnPassant => p.spec_score(m.to, phase),
            MoveType::Promote => with->0.spec_score(m.to, phase),
            MoveType::Castle => {
                let y = m.to.y;
                if with->0.piece_type == PieceType::King {
                    p.spec_score(Square { x: 6, y }, phase) + shift_value(
                        at(self.lifted(m), Square { x: 7, y }),
                        Square { x: 7, y },
                        Square { x: 5, y },
                        phase,
                    )
                } else {
                    p.spec_score(Square { x: 2, y }, phase) + shift_value(
                        at(self.lifted(m), Square { x: 0, y }),
                        Square { x: 0, y },
                        Square { x: 3, y },
                        phase,
                    )
                }
            },
        };
        let taken = match self.captured(m) {
            Some(c) => c.spec_score(self.capture_square(m), phase),
            None => 0,
        };
        left + arrived + taken
    }

    /// White's score after the move: a mate score if a king is captured, else
    /// the old score with the mover's gain added for White and subtracted for
    /// Black.
    pub open spec fn score_after(self, m: MoveView) -> int {
        if self.captures_king(m) {
            king_lost_score(self.captured(m)->0.color)
        } else {
            self.score_white + self.mover(m).color.sign() * self.gain(m)
        }
    }

    /// The castling rights after the move. A standard move takes away what
    /// the moved piece revokes on the file it leaves and what a captured
    /// piece revokes on the file it stood on; a castle takes away both rights
    /// of the side that castles.
    pub open spec fn castle_after(self, m: MoveView) -> Seq<Piece> {
        let (kind, with) = self.move_kind(m);
        match kind {
            MoveType::Standard => {
                let first = rights_without(self.castle, self.mover(m), m.from.x);
                match self.captured(m) {
                    Some(c) => rights_without(first, c, m.to.x),
                    None => first,
                }
            },
            MoveType::Castle => rights_without_color(self.castle, with->0.color),
            _ => self.castle,
        }
    }

    /// The en-passant target after the move: the square that a pawn passed
    /// over in a standard move of two ranks, and nothing after any other
    /// move.
    pub open spec fn en_passant_after(self, m: MoveView) -> Option<Square> {
        if self.move_kind(m).0 == MoveType::Standard && self.mover(m).piece_type == PieceType::Pawn
            && (m.to.y - m.from.y == 2 || m.from.y - m.to.y == 2) {
            Some(Square { x: m.to.x, y: (m.from.y + m.to.y) / 2 })
        } else {
            None
        }
    }

    /// The position after the move.
    pub open spec fn after_move(self, m: MoveView) -> GameView {
        GameView {
            board: self.board_after(m),
            on_turn: self.on_turn.spec_opposite(),
            castle: self.castle_after(m),
            en_passant: self.en_passant_after(m),
            moves: self.moves.push(m),
            score_white: self.score_after(m),
            fullmove_counter: if self.on_turn == Color::Black {
                self.fullmove_counter + 1
            } else {
                self.fullmove_counter
            },
            game_phase: self.game_phase,
        }
    }
}

/// Takes away the rights that moving or losing `piece` on file `file`
/// revokes.
fn drop_rights(castle: &mut Vec<Piece>, piece: Piece, file: usize)
    ensures
        final(castle)@ == rights_without(old(castle)@, piece, file as int),
{
    let ghost pred = |r: Piece| !revokes(piece, file as int, r);
    let mut kept: Vec<Piece> = Vec::new();
    let mut i: usize = 0;
    proof {
        reveal(Seq::filter);
    }
    while i < castle.len()
        invariant
            i <= castle.len(),
            kept@ == castle@.take(i as int).filter(pred),
            pred == (|r: Piece| !revokes(piece, file as int, r)),
        decreases castle.len() - i,
    {
        let r = castle[i];
        let gone = if piece.piece_type == PieceType::King {
            r.color == piece.color
        } else if piece.piece_type == PieceType::Rook {
            r.color == piece.color && ((file == 0 && r.piece_type == PieceType::Queen) || (file
                == 7 && r.piece_type == PieceType::King))
        } else {
            false
        };
        proof {
            assert(castle@.take(i + 1).drop_last() =~= castle@.take(i as int));
            reveal(Seq::filter);
        }
        if !gone {
            kept.push(r);
        }
        i += 1;
    }
    assert(castle@.take(i as int) =~= castle@);
    *castle = kept;
}

impl Game {
    /// Whether the move can be made whatever it does to the score: both
    /// squares lie on the board, a piece stands on the square it starts from,
    /// and the position has room for one move. Such a move can be made.
    pub fn can_move(&self, mve: &Move) -> (r: bool)
        ensures
            r == self@.can_surely_move(mve@),
            r ==> self@.can_move(mve@),
    {
        proof {
            if self@.can_surely_move(mve@) {
                lemma_room_fits(self@, mve@);
            }
        }
        mve.from[0] < 8 && mve.from[1] < 8 && mve.to[0] < 8 && mve.to[1] < 8 && get_square(
            &self.board,
            mve.from[0],
            mve.from[1],
        ).is_some() && self.has_room(1)
    }

    /// When supplied with a vector of moves, this function will apply all
    /// moves in order.
    pub fn apply_moves(&mut self, moves: &Vec<Move>)
        requires
            old(self)@.can_play(move_views(moves@)),
        ensures
            final(self)@ == old(self)@.after_moves(move_views(moves@)),
            forall|r: Piece| final(self)@.castle.contains(r) ==> old(self)@.castle.contains(r),
    {
        let ghost start = self@;
        let ghost all = move_views(moves@);
        let mut i: usize = 0;
        while i < moves.len()
            invariant
                i <= moves.len(),
                all == move_views(moves@),
                start.can_play(all),
                self@ == start.after_moves(all.take(i as int)),
                forall|r: Piece| self@.castle.contains(r) ==> start.castle.contains(r),
            decreases moves.len() - i,
        {
            proof {
                lemma_can_play_step(start, all, i as int);
            }
            self.do_move(&moves[i]);
            i += 1;
        }
        assert(all.take(i as int) =~= all);
    }

    /// Will disable the castling ability (king's and queen's side) for the
    /// specified colour.
    fn disable_castle(&mut self, color: &Color)
        ensures
            final(self)@ == (GameView {
                castle: rights_without_color(old(self)@.castle, *color),
                ..old(self)@
            }),
    {
        let ghost pred = |r: Piece| r.color != *color;
        let mut kept: Vec<Piece> = Vec::new();
        let mut i: usize = 0;
        proof {
            reveal(Seq::filter);
        }
        while i < self.castle.len()
            invariant
                i <= self.castle.len(),
                *self == *old(self),
                kept@ == self.castle@.take(i as int).filter(pred),
                pred == (|r: Piece| r.color != *color),
            decreases self.castle.len() - i,
        {
            let r = self.castle[i];
            proof {
                assert(self.castle@.take(i + 1).drop_last() =~= self.castle@.take(i as int));
                reveal(Seq::filter);
            }
            if r.color != *color {
                kept.push(r);
            }
            i += 1;
        }
        assert(self.castle@.take(i as int) =~= self.castle@);
        self.castle = kept;
    }

    /// Puts the moving piece on the target of a standard move, with the
    /// start square already empty. Returns the value of the piece on its new
    /// square and the piece that was captured.
    fn place_standard(&mut self, mve: &Move, piece: Piece) -> (r: (i64, Option<Piece>))
        requires
            mve.on_board(),
        ensures
            r.0 == piece.spec_score(mve@.to, old(self).game_phase),
            -MAX_PIECE_SCORE <= r.0 <= MAX_PIECE_SCORE,
            r.1 == at(old(self)@.board, mve@.to),
            final(self)@ == (GameView {
                board: old(self)@.board.update(mve@.to.index(), Some(piece)),
                castle: match r.1 {
                    Some(c) => rights_without(
                        rights_without(old(self)@.castle, piece, mve@.from.x),
                        c,
                        mve@.to.x,
                    ),
                    None => rights_without(old(self)@.castle, piece, mve@.from.x),
                },
                en_passant: if piece.piece_type == PieceType::Pawn && (mve@.to.y - mve@.from.y == 2
                    || mve@.from.y - mve@.to.y == 2) {
                    Some(square(mve@.to.x, (mve@.from.y + mve@.to.y) / 2))
                } else {
                    None
                },
                ..old(self)@
            }),
    {
        let fx: usize = mve.from[0];
        let fy: usize = mve.from[1];
        let tx: usize = mve.to[0];
        let ty: usize = mve.to[1];
        let arrived = piece.score(tx, ty, &self.game_phase);
        drop_rights(&mut self.castle, piece, fx);
        let taken = get_square(&self.board, tx, ty);
        match taken {
            Some(p) => {
                drop_rights(&mut self.castle, p, tx);
            },
            None => {},
        }
        set_square(&mut self.board, tx, ty, Some(piece));
        if piece.piece_type == PieceType::Pawn && (ty == fy + 2 || fy == ty + 2) {
            self.en_passant_target_square = Some(cord(tx, (fy + ty) / 2));
        } else {
            self.en_passant_target_square = None;
        }
        (arrived, taken)
    }

    /// Puts king and rook of `side`'s colour on their squares after a castle
    /// on rank `y` and empties the corner: the king's side if `side` is a
    /// king, the queen's side if not. Returns the value of `piece` on the
    /// king's new square plus the change in value of what stood in the
    /// corner, moved as the rook moves.
    fn place_castle(&mut self, y: usize, piece: Piece, side: Piece) -> (r: i64)
        requires
            y < 8,
        ensures
            side.piece_type == PieceType::King ==> r == piece.spec_score(
                square(6, y as int),
                old(self).game_phase,
            ) + shift_value(
                at(old(self)@.board, square(7, y as int)),
                square(7, y as int),
                square(5, y as int),
                old(self).game_phase,
            ),
            side.piece_type != PieceType::King ==> r == piece.spec_score(
                square(2, y as int),
                old(self).game_phase,
            ) + shift_value(
                at(old(self)@.board, square(0, y as int)),
                square(0, y as int),
                square(3, y as int),
                old(self).game_phase,
            ),
            -3 * MAX_PIECE_SCORE <= r <= 3 * MAX_PIECE_SCORE,
            final(self)@ == (GameView {
                board: if side.piece_type == PieceType::King {
                    old(self)@.board.update(
                        y * 8 + 6,
                        Some(piece_of(PieceType::King, side.color)),
                    ).update(
                        y * 8 + 5,
                        Some(piece_of(PieceType::Rook, side.color)),
                    ).update(y * 8 + 7, None)
                } else {
                    old(self)@.board.update(
                        y * 8 + 2,
                        Some(piece_of(PieceType::King, side.color)),
                    ).update(
                        y * 8 + 3,
                        Some(piece_of(PieceType::Rook, side.color)),
                    ).update(y * 8 + 0, None)
                },
                castle: rights_without_color(old(self)@.castle, side.color),
                ..old(self)@
            }),
    {
        let king = Some(Piece { piece_type: PieceType::King, color: side.color });
        let rook = Some(Piece { piece_type: PieceType::Rook, color: side.color });
        let mut gain: i64;
        if side.piece_type == PieceType::King {
            gain = piece.score(6, y, &self.game_phase);
            set_square(&mut self.board, 6, y, king);
            set_square(&mut self.board, 5, y, rook);
            match get_square(&self.board, 7, y) {
                Some(p) => {
                    gain -= p.score(7, y, &self.game_phase);
                    gain += p.score(5, y, &self.game_phase);
                },
                None => {},
            }
            set_square(&mut self.board, 7, y, None);
        } else {
            gain = piece.score(2, y, &self.game_phase);
            set_square(&mut self.board, 2, y, king);
            set_square(&mut self.board, 3, y, rook);
            match get_square(&self.board, 0, y) {
                Some(p) => {
                    gain -= p.score(0, y, &self.game_phase);
                    gain += p.score(3, y, &self.game_phase);
                },
                None => {},
            }
            set_square(&mut self.board, 0, y, None);
        }
        self.disable_castle(&side.color);
        gain
    }

    /// Removes what stands beside the start square on the target's file and
    /// puts the moving pawn on the target, with the start square already
    /// empty. Returns the value of the pawn on its new square and the piece
    /// that was captured.
    fn place_en_passant(&mut self, mve: &Move, piece: Piece) -> (r: (i64, Option<Piece>))
        requires
            mve.on_board(),
        ensures
            r.0 == piece.spec_score(mve@.to, old(self).game_phase),
            -MAX_PIECE_SCORE <= r.0 <= MAX_PIECE_SCORE,
            r.1 == at(old(self)@.board, square(mve@.to.x, mve@.from.y)),
            final(self)@ == (GameView {
                board: old(self)@.board.update(
                    square(mve@.to.x, mve@.from.y).index(),
                    None,
                ).update(mve@.to.index(), Some(piece)),
                ..old(self)@
            }),
    {
        let fy: usize = mve.from[1];
        let tx: usize = mve.to[0];
        let ty: usize = mve.to[1];
        let taken = get_square(&self.board, tx, fy);
        let arrived = piece.score(tx, ty, &self.game_phase);
        set_square(&mut self.board, tx, fy, None);
        set_square(&mut self.board, tx, ty, Some(piece));
        (arrived, taken)
    }

    /// Will apply the specified move to the game.
    ///
    /// The piece on the start square is taken off and the kind of the move
    /// decides what happens next: a standard move puts the piece on its
    /// target, a promotion puts the named piece there, a castle puts king and
    /// rook on their new squares and empties the corner, an en-passant
    /// capture removes the pawn beside the start square. The castling rights
    /// only ever shrink, the running score follows the board, and the turn
    /// passes to the other side.
    pub fn do_move(&mut self, mve: &Move)
        requires
            old(self)@.can_move(mve@),
        ensures
            final(self)@ == old(self)@.after_move(mve@),
            forall|r: Piece| final(self)@.castle.contains(r) ==> old(self)@.castle.contains(r),
            old(self)@.captures_king(mve@) ==> final(self).score_white == king_lost_score(
                old(self)@.captured(mve@)->0.color,
            ),
    {
        let ghost g = self@;
        let ghost m = mve@;
        let fx: usize = mve.from[0];
        let fy: usize = mve.from[1];
        let tx: usize = mve.to[0];
        let ty: usize = mve.to[1];
        let target = self.en_passant_target_square;
        self.en_passant_target_square = None;
        let piece = get_square(&self.board, fx, fy).unwrap();
        let mut take_piece: Option<Piece> = None;
        let mut take_x: usize = tx;
        let mut take_y: usize = ty;
        let mut score_delta: i64 = -piece.score(fx, fy, &self.game_phase);
        set_square(&mut self.board, fx, fy, None);

        let (mve_type, mve_piece) = mve.get_move_type(
            Some(&self.castle),
            target,
            Some(piece.piece_type),
        );
        assert((mve_type, mve_piece) == g.move_kind(m));
        match mve_type {
            MoveType::Standard => {
                let (arrived, taken) = self.place_standard(mve, piece);
                score_delta += arrived;
                take_piece = taken;
            },
            MoveType::Promote => {
                score_delta += mve_piece.unwrap().score(tx, ty, &self.game_phase);
                set_square(&mut self.board, tx, ty, mve_piece);
            },
            MoveType::Castle => {
                score_delta += self.place_castle(ty, piece, mve_piece.unwrap());
            },
            MoveType::EnPassant => {
                let (arrived, taken) = self.place_en_passant(mve, piece);
                score_delta += arrived;
                take_piece = taken;
                take_y = fy;
            },
        }
        assert(self@.board == g.board_after(m));
        assert(self@.castle == g.castle_after(m));
        assert(self@.en_passant == g.en_passant_after(m));
        assert(take_piece == g.captured(m));
        assert(g.capture_square(m) == (Square { x: take_x as int, y: take_y as int }));

        match take_piece {
            Some(p) => {
                if p.piece_type == PieceType::King {
                    self.score_white = if p.color == Color::White {
                        -CHECK_MATE_SCORE
                    } else {
                        CHECK_MATE_SCORE
                    };
                    score_delta = 0;
                } else {
                    score_delta += p.score(take_x, take_y, &self.game_phase);
                }
            },
            None => {},
        }
        assert(!g.captures_king(m) ==> score_delta == g.gain(m));
        match piece.color {
            Color::White => {
                self.score_white += score_delta;
            },
            Color::Black => {
                self.score_white -= score_delta;
            },
        }
        assert(self.score_white == g.score_after(m));
        if self.on_turn == Color::Black {
            self.fullmove_counter += 1;
        }
        self.on_turn = self.on_turn.opposite();
        self.moves.push(*mve);
        proof {
            assert(move_views(self.moves@) =~= g.moves.push(m));
            assert forall|r: Piece| self@.castle.contains(r) implies g.castle.contains(r) by {
                lemma_rights_shrink(g, m, r);
            }
        }
    }
}

impl GameView {
    /// The moves can be made one after the other, starting from this
    /// position.
    pub open spec fn can_play(self, ms: Seq<MoveView>) -> bool
        decreases ms.len(),
    {
        ms.len() > 0 ==> self.can_play(ms.drop_last()) && self.after_moves(ms.drop_last()).can_move(
            ms.last(),
        )
    }

    /// The position after the moves, made one after the other.
    pub open spec fn after_moves(self, ms: Seq<MoveView>) -> GameView
        decreases ms.len(),
    {
        if ms.len() == 0 {
            self
        } else {
            self.after_moves(ms.drop_last()).after_move(ms.last())
        }
    }
}

/// Whoever can play a sequence of moves can play each of its beginnings, and
/// then the move that follows.
pub proof fn lemma_can_play_step(g: GameView, ms: Seq<MoveView>, i: int)
    requires
        g.can_play(ms),
        0 <= i < ms.len(),
    ensures
        g.can_play(ms.take(i)),
        g.after_moves(ms.take(i)).can_move(ms[i]),
        g.after_moves(ms.take(i + 1)) == g.after_moves(ms.take(i)).after_move(ms[i]),
    decreases ms.len(),
{
    assert(ms.take(i + 1).drop_last() =~= ms.take(i));
    if i == ms.len() - 1 {
        assert(ms.take(i) =~= ms.drop_last());
    } else {
        lemma_can_play_step(g, ms.drop_last(), i);
        assert(ms.drop_last().take(i) =~= ms.take(i));
        assert(ms.drop_last().take(i + 1) =~= ms.take(i + 1));
    }
}

/// Castling rights are only ever removed: a right that is there after a move
/// was there before it.
pub proof fn lemma_rights_shrink(g: GameView, m: MoveView, r: Piece)
    requires
        g.after_move(m).castle.contains(r),
    ensures
        g.castle.contains(r),
{
    broadcast use Seq::lemma_filter_contains_rev;

}

/// Castling rights are only ever removed: a right that is there after a
/// sequence of moves was there before it.
pub proof fn lemma_rights_shrink_over_moves(g: GameView, ms: Seq<MoveView>, r: Piece)
    requires
        g.after_moves(ms).castle.contains(r),
    ensures
        g.castle.contains(r),
    decreases ms.len(),
{
    if ms.len() > 0 {
        lemma_rights_shrink(g.after_moves(ms.drop_last()), ms.last(), r);
        lemma_rights_shrink_over_moves(g, ms.drop_last(), r);
    }
}

/// A move that captures a king decides the game; any other move changes the
/// score by no more than the largest change of one move. No move adds more
/// than one to the move counter.
pub proof fn lemma_move_changes_little(g: GameView, m: MoveView)
    requires
        m.from.on_board(),
        m.to.on_board(),
    ensures
        g.captures_king(m) ==> g.after_move(m).is_decided(),
        !g.captures_king(m) ==> g.score_white - MAX_MOVE_DELTA <= g.after_move(m).score_white
            <= g.score_white + MAX_MOVE_DELTA,
        g.fullmove_counter <= g.after_move(m).fullmove_counter <= g.fullmove_counter + 1,
{
    let p = g.mover(m);
    let (kind, with) = g.move_kind(m);
    let phase = g.game_phase;
    let y = m.to.y;
    p.lemma_score_bound(m.from, phase);
    p.lemma_score_bound(m.to, phase);
    p.lemma_score_bound(Square { x: 6, y }, phase);
    p.lemma_score_bound(Square { x: 2, y }, phase);
    if with is Some {
        with->0.lemma_score_bound(m.to, phase);
    }
    if g.captured(m) is Some {
        g.captured(m)->0.lemma_score_bound(g.capture_square(m), phase);
    }
    let king_corner = at(g.lifted(m), Square { x: 7, y });
    if king_corner is Some {
        king_corner->0.lemma_score_bound(Square { x: 7, y }, phase);
        king_corner->0.lemma_score_bound(Square { x: 5, y }, phase);
    }
    let queen_corner = at(g.lifted(m), Square { x: 0, y });
    if queen_corner is Some {
        queen_corner->0.lemma_score_bound(Square { x: 0, y }, phase);
        queen_corner->0.lemma_score_bound(Square { x: 3, y }, phase);
    }
    assert(-MAX_MOVE_DELTA <= g.gain(m) <= MAX_MOVE_DELTA);
    assert(p.color.sign() * g.gain(m) == g.gain(m) || p.color.sign() * g.gain(m) == -g.gain(m));
}

/// A right that is left after moving or losing a piece was there before, and
/// is none that the piece revokes.
pub proof fn lemma_right_kept(rights: Seq<Piece>, piece: Piece, file: int, r: Piece)
    requires
        rights_without(rights, piece, file).contains(r),
    ensures
        rights.contains(r),
        !revokes(piece, file, r),
{
    let pred = |x: Piece| !revokes(piece, file, x);
    let kept = rights.filter(pred);
    let i = choose|i: int| 0 <= i < kept.len() && kept[i] == r;
    rights.lemma_filter_pred(pred, i);
    rights.lemma_filter_contains_rev(pred, r);
}

/// A right that is left after a side has lost its own was there before, and
/// is of the other side.
pub proof fn lemma_right_kept_of_color(rights: Seq<Piece>, color: Color, r: Piece)
    requires
        rights_without_color(rights, color).contains(r),
    ensures
        rights.contains(r),
        r.color != color,
{
    let pred = |x: Piece| x.color != color;
    let kept = rights.filter(pred);
    let i = choose|i: int| 0 <= i < kept.len() && kept[i] == r;
    rights.lemma_filter_pred(pred, i);
    rights.lemma_filter_contains_rev(pred, r);
}

/// A position with room for one move fits every move between squares of the
/// board.
pub proof fn lemma_room_fits(g: GameView, m: MoveView)
    requires
        m.from.on_board(),
        m.to.on_board(),
        g.has_room(1),
    ensures
        g.fits(m),
{
    lemma_move_changes_little(g, m);
}

/// A captured king gives the mate score: after a move that captures a king
/// the score is the negated mate score if the king was White's and the mate
/// score if it was Black's, with nothing added.
pub proof fn lemma_king_capture_gives_mate_score(g: GameView, m: MoveView)
    requires
        g.captures_king(m),
    ensures
        g.captured(m)->0.color == Color::White ==> g.after_move(m).score_white
            == -CHECK_MATE_SCORE,
        g.captured(m)->0.color == Color::Black ==> g.after_move(m).score_white
            == CHECK_MATE_SCORE,
        g.fits(m) <==> (g.on_turn == Color::Black ==> g.fullmove_counter < usize::MAX),
{
}

/// A move leaves its start square empty, unless it ends where it starts.
pub proof fn lemma_start_square_is_left(g: GameView, m: MoveView)
    requires
        g.board.len() == 64,
        m.from.on_board(),
        m.to.on_board(),
        m.from != m.to,
    ensures
        at(g.after_move(m).board, m.from) is None,
{
    let f = m.from.index();
    let t = m.to.index();
    assert(f != t);
    assert(g.lifted(m)[f] is None);
}

} // verus!
