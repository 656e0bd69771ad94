//! The running score follows the board: what makes a move fair, and the proof
//! that a fair move leaves the running score equal to the score of the board
//! counted from scratch.

use vstd::prelude::*;
use crate::consts::{Color, GamePhase, MoveType, PieceType};
use crate::game::evaluation::{has_king, king_of, material_balance, value_on};
use crate::game::moving::{
    lemma_right_kept,
    lemma_right_kept_of_color,
    lemma_rights_shrink,
    rights_without,
};
use crate::game::GameView;
use crate::move_struct::MoveView;
use crate::piece::{
    all_directions,
    basic_moves,
    diagonals,
    en_passant_step,
    forward,
    knight_jumps,
    pawn_captures,
    pawn_moves,
    promotes,
    promotion_kinds,
    promotion_rank,
    promotions,
    right_of,
    straights,
    Piece,
};
use crate::utils::{
    lemma_rays_shape,
    lemma_steps_shape,
    ray,
    rays,
    steps,
};
use crate::types::{at, Square};

verus! {

/// The rook of a colour.
pub open spec fn rook_of(color: Color) -> Piece {
    Piece { piece_type: PieceType::Rook, color }
}

/// The king of the colour stands on square number `i` and nowhere else.
pub open spec fn only_king_on(bv: Seq<Option<Piece>>, color: Color, i: int) -> bool {
    &&& 0 <= i < 64
    &&& bv[i] == Some(king_of(color))
    &&& forall|j: int| 0 <= j < 64 && #[trigger] bv[j] == Some(king_of(color)) ==> j == i
}

/// Exactly one king of the colour stands on the board.
pub open spec fn one_king(bv: Seq<Option<Piece>>, color: Color) -> bool {
    exists|i: int| only_king_on(bv, color, i)
}

impl GameView {
    /// The board has its 64 squares and one king of each colour.
    pub open spec fn has_both_kings(self) -> bool {
        self.board.len() == 64 && one_king(self.board, Color::White) && one_king(
            self.board,
            Color::Black,
        )
    }

    /// The move is fair: it treats the board as a move of the game does.
    ///
    /// It goes from a piece to a square of the board. A standard move ends
    /// on an empty square or on a piece of the other colour. A promotion is
    /// made by a pawn, ends on an empty square and names a piece of the
    /// pawn's colour that is no king. A castle is made by the king of the
    /// side whose back rank it starts from, along that rank, with that side's
    /// rook in the corner and the squares that king and rook go to empty. An
    /// en-passant capture ends on an empty square, and what stands beside the
    /// start square on the target's file, if anything, is of the other
    /// colour.
    pub open spec fn fair(self, m: MoveView) -> bool {
        let p = self.mover(m);
        let (kind, with) = self.move_kind(m);
        let lifted = self.lifted(m);
        let y = m.to.y;
        &&& m.from.on_board()
        &&& m.to.on_board()
        &&& at(self.board, m.from) is Some
        &&& match kind {
            MoveType::Standard => at(lifted, m.to) is Some ==> at(lifted, m.to)->0.color != p.color,
            MoveType::Promote => {
                &&& p.piece_type == PieceType::Pawn
                &&& at(lifted, m.to) is None
                &&& with->0.color == p.color
                &&& with->0.piece_type != PieceType::King
            },
            MoveType::Castle => {
                &&& p == king_of(with->0.color)
                &&& m.to.y == m.from.y
                &&& if with->0.piece_type == PieceType::King {
                    &&& at(lifted, Square { x: 7, y }) == Some(rook_of(with->0.color))
                    &&& at(lifted, Square { x: 6, y }) is None
                    &&& at(lifted, Square { x: 5, y }) is None
                } else {
                    &&& at(lifted, Square { x: 0, y }) == Some(rook_of(with->0.color))
                    &&& at(lifted, Square { x: 2, y }) is None
                    &&& at(lifted, Square { x: 3, y }) is None
                }
            },
            MoveType::EnPassant => {
                &&& at(lifted, m.to) is None
                &&& self.captured(m) is Some ==> self.captured(m)->0.color != p.color
            },
        }
    }
}

/// Changing one square changes the balance of material by the difference
/// between what the square adds after and before.
pub proof fn lemma_balance_update(
    bv: Seq<Option<Piece>>,
    phase: GamePhase,
    i: int,
    v: Option<Piece>,
    n: int,
)
    requires
        bv.len() == 64,
        0 <= i < 64,
        0 <= n <= 64,
    ensures
        material_balance(bv.update(i, v), phase, n) == material_balance(bv, phase, n) + (if i < n {
            value_on(v, i, phase) - value_on(bv[i], i, phase)
        } else {
            0
        }),
    decreases n,
{
    if n > 0 {
        lemma_balance_update(bv, phase, i, v, n - 1);
    }
}

/// A value enters White's score as it is for White and negated for Black.
pub proof fn lemma_signed(color: Color, x: int)
    ensures
        color.sign() * x == (if color == Color::White {
            x
        } else {
            -x
        }),
{
}

/// A king that stands on a square of the board is on the board.
pub proof fn lemma_king_found(bv: Seq<Option<Piece>>, color: Color, i: int)
    requires
        0 <= i < 64,
        bv[i] == Some(king_of(color)),
    ensures
        has_king(bv, color),
{
}

/// The square of the one king of a colour.
pub proof fn lemma_king_place(bv: Seq<Option<Piece>>, color: Color) -> (i: int)
    requires
        one_king(bv, color),
    ensures
        only_king_on(bv, color, i),
{
    choose|i: int| only_king_on(bv, color, i)
}

/// A king that no change of the board touches, or that is the piece that
/// moves to square `t`, is on the board afterwards.
proof fn lemma_king_stays(
    before: Seq<Option<Piece>>,
    after: Seq<Option<Piece>>,
    color: Color,
    w: int,
    f: int,
    t: int,
)
    requires
        0 <= w < 64,
        0 <= t < 64,
        before[w] == Some(king_of(color)),
        w != f ==> after[w] == before[w],
        w == f ==> after[t] == Some(king_of(color)),
    ensures
        has_king(after, color),
{
    if w == f {
        lemma_king_found(after, color, t);
    } else {
        lemma_king_found(after, color, w);
    }
}

/// A fair standard move or en-passant capture leaves the running score equal
/// to the score of the board.
proof fn lemma_capture_follows_board(g: GameView, m: MoveView)
    requires
        g.has_both_kings(),
        g.score_is_exact(),
        g.fair(m),
        g.move_kind(m).0 == MoveType::Standard || g.move_kind(m).0 == MoveType::EnPassant,
    ensures
        g.after_move(m).score_is_exact(),
{
    let p = g.mover(m);
    let phase = g.game_phase;
    let b0 = g.board;
    let b1 = g.lifted(m);
    let f = m.from.index();
    let t = m.to.index();
    let cs = g.capture_square(m);
    let c = cs.index();
    let b2 = b1.update(c, None);
    let after = g.board_after(m);
    let wk = lemma_king_place(b0, Color::White);
    let bk = lemma_king_place(b0, Color::Black);
    lemma_king_found(b0, Color::White, wk);
    lemma_king_found(b0, Color::Black, bk);
    assert(f % 8 == m.from.x && f / 8 == m.from.y);
    assert(t % 8 == m.to.x && t / 8 == m.to.y);
    assert(c % 8 == cs.x && c / 8 == cs.y);
    assert(after =~= b2.update(t, Some(p)));
    lemma_balance_update(b0, phase, f, None, 64);
    lemma_balance_update(b1, phase, c, None, 64);
    lemma_balance_update(b2, phase, t, Some(p), 64);
    assert(b2[t] is None);
    assert(b1[c] == g.captured(m));
    assert(material_balance(after, phase, 64) == g.score_white - value_on(Some(p), f, phase)
        - value_on(g.captured(m), c, phase) + value_on(Some(p), t, phase));
    if g.captures_king(m) {
        let lost = g.captured(m)->0.color;
        assert(g.captured(m) == Some(king_of(lost)));
        assert(b0[c] == Some(king_of(lost)));
        assert forall|j: int| 0 <= j < 64 implies #[trigger] after[j] != Some(king_of(lost)) by {
            if j != f && j != t && j != c {
                assert(after[j] == b0[j]);
            }
        }
        assert(!has_king(after, lost));
        if lost == Color::Black {
            assert(wk != c);
            lemma_king_stays(b0, after, Color::White, wk, f, t);
        }
    } else {
        assert(wk != f ==> after[wk] == b0[wk]);
        assert(bk != f ==> after[bk] == b0[bk]);
        lemma_king_stays(b0, after, Color::White, wk, f, t);
        lemma_king_stays(b0, after, Color::Black, bk, f, t);
        let taken = match g.captured(m) {
            Some(x) => x.spec_score(cs, phase),
            None => 0,
        };
        assert(g.gain(m) == p.spec_score(m.to, phase) - p.spec_score(m.from, phase) + taken);
        lemma_signed(p.color, g.gain(m));
        lemma_signed(p.color, p.spec_score(m.to, phase));
        lemma_signed(p.color, p.spec_score(m.from, phase));
        if g.captured(m) is Some {
            lemma_signed(g.captured(m)->0.color, taken);
        }
    }
}

/// A fair promotion leaves the running score equal to the score of the
/// board.
proof fn lemma_promotion_follows_board(g: GameView, m: MoveView)
    requires
        g.has_both_kings(),
        g.score_is_exact(),
        g.fair(m),
        g.move_kind(m).0 == MoveType::Promote,
    ensures
        g.after_move(m).score_is_exact(),
{
    let p = g.mover(m);
    let with = g.move_kind(m).1;
    let phase = g.game_phase;
    let b0 = g.board;
    let b1 = g.lifted(m);
    let f = m.from.index();
    let t = m.to.index();
    let after = g.board_after(m);
    let wk = lemma_king_place(b0, Color::White);
    let bk = lemma_king_place(b0, Color::Black);
    lemma_king_found(b0, Color::White, wk);
    lemma_king_found(b0, Color::Black, bk);
    assert(f % 8 == m.from.x && f / 8 == m.from.y);
    assert(t % 8 == m.to.x && t / 8 == m.to.y);
    lemma_balance_update(b0, phase, f, None, 64);
    lemma_balance_update(b1, phase, t, with, 64);
    assert(wk != f && wk != t);
    assert(bk != f && bk != t);
    lemma_king_found(after, Color::White, wk);
    lemma_king_found(after, Color::Black, bk);
    assert(g.gain(m) == with->0.spec_score(m.to, phase) - p.spec_score(m.from, phase));
    lemma_signed(p.color, g.gain(m));
    lemma_signed(p.color, with->0.spec_score(m.to, phase));
    lemma_signed(p.color, p.spec_score(m.from, phase));
}

/// A fair castle leaves the running score equal to the score of the board.
proof fn lemma_castle_follows_board(g: GameView, m: MoveView)
    requires
        g.has_both_kings(),
        g.score_is_exact(),
        g.fair(m),
        g.move_kind(m).0 == MoveType::Castle,
    ensures
        g.after_move(m).score_is_exact(),
{
    let p = g.mover(m);
    let side = g.move_kind(m).1->0;
    let color = side.color;
    let phase = g.game_phase;
    let b0 = g.board;
    let b1 = g.lifted(m);
    let f = m.from.index();
    let y = m.to.y;
    let row = y * 8;
    let after = g.board_after(m);
    let king_side = side.piece_type == PieceType::King;
    let kx: int = if king_side { 6 } else { 2 };
    let rx: int = if king_side { 5 } else { 3 };
    let cx: int = if king_side { 7 } else { 0 };
    let wk = lemma_king_place(b0, Color::White);
    let bk = lemma_king_place(b0, Color::Black);
    lemma_king_found(b0, Color::White, wk);
    lemma_king_found(b0, Color::Black, bk);
    assert(f % 8 == m.from.x && f / 8 == m.from.y);
    assert((row + kx) % 8 == kx && (row + kx) / 8 == y);
    assert((row + rx) % 8 == rx && (row + rx) / 8 == y);
    assert((row + cx) % 8 == cx && (row + cx) / 8 == y);
    let b2 = b1.update(row + kx, Some(king_of(color)));
    let b3 = b2.update(row + rx, Some(rook_of(color)));
    assert(after == b3.update(row + cx, None));
    lemma_balance_update(b0, phase, f, None, 64);
    lemma_balance_update(b1, phase, row + kx, Some(king_of(color)), 64);
    lemma_balance_update(b2, phase, row + rx, Some(rook_of(color)), 64);
    lemma_balance_update(b3, phase, row + cx, None, 64);
    assert(b1[row + kx] is None);
    assert(b2[row + rx] is None);
    assert(b3[row + cx] == Some(rook_of(color)));
    assert(!g.captures_king(m));
    lemma_signed(color, g.gain(m));
    lemma_signed(color, p.spec_score(m.from, phase));
    lemma_signed(color, p.spec_score(Square { x: kx, y }, phase));
    lemma_signed(color, rook_of(color).spec_score(Square { x: rx, y }, phase));
    lemma_signed(color, rook_of(color).spec_score(Square { x: cx, y }, phase));
    if color == Color::White {
        assert(wk == f);
        assert(after[row + kx] == Some(king_of(Color::White)));
        lemma_king_found(after, Color::White, row + kx);
        assert(bk != f && bk != row + kx && bk != row + rx && bk != row + cx);
        lemma_king_found(after, Color::Black, bk);
    } else {
        assert(bk == f);
        assert(after[row + kx] == Some(king_of(Color::Black)));
        lemma_king_found(after, Color::Black, row + kx);
        assert(wk != f && wk != row + kx && wk != row + rx && wk != row + cx);
        lemma_king_found(after, Color::White, wk);
    }
}

/// The running score follows the board: a fair move on a position with one
/// king of each colour, whose running score is the score of its board counted
/// from scratch, leaves a position whose running score is again the score of
/// its board counted from scratch.
pub proof fn lemma_score_follows_board(g: GameView, m: MoveView)
    requires
        g.has_both_kings(),
        g.score_is_exact(),
        g.fair(m),
    ensures
        g.after_move(m).score_is_exact(),
{
    match g.move_kind(m).0 {
        MoveType::Standard => lemma_capture_follows_board(g, m),
        MoveType::EnPassant => lemma_capture_follows_board(g, m),
        MoveType::Promote => lemma_promotion_follows_board(g, m),
        MoveType::Castle => lemma_castle_follows_board(g, m),
    }
}

/// The pawn of a colour.
pub open spec fn pawn_of(color: Color) -> Piece {
    Piece { piece_type: PieceType::Pawn, color }
}

impl GameView {
    /// A castling right is backed by the board: it is a king or a queen, the
    /// king of its colour stands on its home square, and the rook of its
    /// colour stands in the corner of its side.
    pub open spec fn backs(self, right: Piece) -> bool {
        let y = right.color.spec_home_rank();
        &&& right.piece_type == PieceType::King || right.piece_type == PieceType::Queen
        &&& at(self.board, Square { x: 4, y }) == Some(king_of(right.color))
        &&& at(
            self.board,
            Square {
                x: if right.piece_type == PieceType::King {
                    7
                } else {
                    0
                },
                y,
            },
        ) == Some(rook_of(right.color))
    }

    /// The position is sound: it has one king of each colour, every castling
    /// right is backed by the board, and an en-passant target is an empty
    /// square of the board behind a pawn of the side that has just moved.
    pub open spec fn sound(self) -> bool {
        &&& self.has_both_kings()
        &&& forall|i: int| 0 <= i < self.castle.len() ==> self.backs(#[trigger] self.castle[i])
        &&& self.en_passant is Some ==> {
            let t = self.en_passant->0;
            &&& t.on_board()
            &&& t.shift(0, -forward(self.on_turn)).on_board()
            &&& at(self.board, t) is None
            &&& at(self.board, t.shift(0, -forward(self.on_turn))) == Some(
                pawn_of(self.on_turn.spec_opposite()),
            )
        }
    }

    /// What every move that is generated for the piece `p` on `from` looks
    /// like.
    ///
    /// It starts on `from` and ends on the board. A move that names no piece
    /// never ends on a piece of its own colour, unless it is a pawn's move
    /// onto the en-passant target; made by a king it stays
    /// within one file; made by a pawn it is a step ahead onto an empty
    /// square, two steps ahead from the pawn's first rank over empty squares,
    /// or a step aside and ahead onto a piece or onto the en-passant target.
    /// A move that names a piece is the promotion of a pawn to a queen, rook,
    /// bishop or knight of its colour on the empty square ahead, or the
    /// castle of a king on its home square, onto the corner of the side whose
    /// right it names, with the squares that king and rook go to empty.
    pub open spec fn shaped(self, p: Piece, from: Square, m: MoveView) -> bool {
        let bv = self.board;
        let f = forward(p.color);
        let y = p.color.spec_home_rank();
        &&& m.from == from
        &&& m.to.on_board()
        &&& match m.piece {
            None => {
                &&& at(bv, m.to) is Some ==> at(bv, m.to)->0.color != p.color || (p.piece_type
                    == PieceType::Pawn && self.en_passant == Some(m.to))
                &&& p.piece_type == PieceType::King ==> -1 <= m.to.x - from.x <= 1
                &&& p.piece_type == PieceType::Pawn ==> {
                    ||| m.to == from.shift(0, f) && at(bv, m.to) is None
                    ||| m.to == from.shift(0, 2 * f) && from.y == 7 - promotion_rank(p.color) && at(
                        bv,
                        from.shift(0, f),
                    ) is None && at(bv, m.to) is None
                    ||| (m.to == from.shift(1, f) || m.to == from.shift(-1, f)) && (at(bv, m.to)
                        is Some || self.en_passant == Some(m.to))
                }
            },
            Some(w) => {
                ||| {
                    &&& p.piece_type == PieceType::Pawn
                    &&& from.y == promotion_rank(p.color)
                    &&& m.to == from.shift(0, f)
                    &&& at(bv, m.to) is None
                    &&& w.color == p.color
                    &&& w.piece_type != PieceType::King
                    &&& w.piece_type != PieceType::Pawn
                }
                ||| {
                    &&& p.piece_type == PieceType::King
                    &&& from == (Square { x: 4, y })
                    &&& self.castle.contains(w)
                    &&& w.color == p.color
                    &&& {
                        ||| {
                            &&& w.piece_type == PieceType::King
                            &&& m.to == (Square { x: 7, y })
                            &&& at(bv, Square { x: 5, y }) is None
                            &&& at(bv, Square { x: 6, y }) is None
                        }
                        ||| {
                            &&& w.piece_type == PieceType::Queen
                            &&& m.to == (Square { x: 0, y })
                            &&& at(bv, Square { x: 2, y }) is None
                            &&& at(bv, Square { x: 3, y }) is None
                        }
                    }
                }
            },
        }
    }
}

/// Every step ahead of a pawn is one step onto an empty square, or two steps
/// over empty squares where the limit is two.
pub proof fn lemma_pawn_push_shape(
    color: Color,
    from: Square,
    bv: Seq<Option<Piece>>,
    limit: int,
    k: int,
)
    requires
        limit == 1 || limit == 2,
        0 <= k < rays(color, from, bv, seq![(0int, forward(color))], Some(limit), false).len(),
    ensures
        ({
            let m = rays(color, from, bv, seq![(0int, forward(color))], Some(limit), false)[k];
            let f = forward(color);
            &&& m.from == from
            &&& m.piece is None
            &&& m.to.on_board()
            &&& at(bv, m.to) is None
            &&& m.to == from.shift(0, f) || (limit == 2 && m.to == from.shift(0, 2 * f) && at(
                bv,
                from.shift(0, f),
            ) is None)
        }),
{
    let f = forward(color);
    let ds = seq![(0int, f)];
    assert(ds.drop_last() =~= Seq::<(int, int)>::empty());
    assert(ds.last() == (0int, f));
    let none = rays(color, from, bv, ds.drop_last(), Some(limit), false);
    assert(none.len() == 0);
    let one = from.shift(0, f);
    let two = one.shift(0, f);
    assert(two == from.shift(0, 2 * f));
    reveal_with_fuel(ray, 3);
    let whole = ray(color, from, bv, (0int, f), Some(limit), false, from, 0);
    assert(rays(color, from, bv, ds, Some(limit), false) =~= whole);
    if k == 1 {
        let rest = ray(color, from, bv, (0int, f), Some(limit), false, one, 1);
        assert(whole[1] == rest[0]);
    }
    if k >= 2 {
        let rest = ray(color, from, bv, (0int, f), Some(limit), false, one, 1);
        let last = ray(color, from, bv, (0int, f), Some(limit), false, two, 2);
        assert(rest.len() <= 1);
    }
}

/// Every move that is generated for a piece on a square of the board has the
/// shape of a generated move.
pub proof fn lemma_piece_moves_shape(g: GameView, p: Piece, from: Square, k: int)
    requires
        from.on_board(),
        0 <= k < g.piece_moves(p.piece_type, p.color, from).len(),
    ensures
        g.shaped(p, from, g.piece_moves(p.piece_type, p.color, from)[k]),
{
    let color = p.color;
    let bv = g.board;
    let basic = basic_moves(p.piece_type, color, from, bv, g.en_passant);
    let all = g.piece_moves(p.piece_type, color, from);
    let m = all[k];
    if k < basic.len() {
        assert(m == basic[k]);
        match p.piece_type {
            PieceType::King => {
                let j = lemma_steps_shape(color, from, bv, all_directions(), false, k);
            },
            PieceType::Knight => {
                let j = lemma_steps_shape(color, from, bv, knight_jumps(), false, k);
            },
            PieceType::Queen => {
                lemma_rays_shape(color, from, bv, all_directions(), None, true, k);
            },
            PieceType::Bishop => {
                lemma_rays_shape(color, from, bv, diagonals(), None, true, k);
            },
            PieceType::Rook => {
                lemma_rays_shape(color, from, bv, straights(), None, true, k);
            },
            PieceType::Pawn => {
                lemma_pawn_moves_shape(g, color, from, k);
            },
        }
    } else {
        assert(p.piece_type == PieceType::King);
        let castles = g.castle_moves(color, from);
        assert(m == castles[k - basic.len()]);
    }
}

/// Every move that is generated for a pawn has the shape of a generated
/// move.
proof fn lemma_pawn_moves_shape(g: GameView, color: Color, from: Square, k: int)
    requires
        from.on_board(),
        0 <= k < pawn_moves(color, from, g.board, g.en_passant).len(),
    ensures
        g.shaped(pawn_of(color), from, pawn_moves(color, from, g.board, g.en_passant)[k]),
{
    let bv = g.board;
    let f = forward(color);
    let target = g.en_passant;
    let takes = steps(color, from, bv, pawn_captures(color), true);
    let limit: int = if from.y == 7 - promotion_rank(color) {
        2
    } else {
        1
    };
    let ahead = if promotes(color, from, bv) {
        promotions(color, from)
    } else {
        rays(color, from, bv, seq![(0int, f)], Some(limit), false)
    };
    let first = en_passant_step(from, target, pawn_captures(color)[0]);
    let second = en_passant_step(from, target, pawn_captures(color)[1]);
    let all = pawn_moves(color, from, bv, target);
    assert(all == takes + ahead + first + second);
    let m = all[k];
    if k < takes.len() {
        let j = lemma_steps_shape(color, from, bv, pawn_captures(color), true, k);
        assert(m == takes[k]);
    } else if k < takes.len() + ahead.len() {
        assert(m == ahead[k - takes.len()]);
        if promotes(color, from, bv) {
            assert(promotion_kinds()[k - takes.len()] != PieceType::King);
            assert(promotion_kinds()[k - takes.len()] != PieceType::Pawn);
        } else {
            lemma_pawn_push_shape(color, from, bv, limit, k - takes.len());
        }
    } else if k < takes.len() + ahead.len() + first.len() {
        assert(m == first[k - takes.len() - ahead.len()]);
    } else {
        assert(m == second[k - takes.len() - ahead.len() - first.len()]);
    }
}

/// Every move that is generated for a side starts on a piece of that side
/// and has the shape of a generated move.
pub proof fn lemma_moves_before_shape(g: GameView, color: Color, n: int, k: int) -> (from: Square)
    requires
        0 <= n <= 64,
        0 <= k < g.moves_before(color, n).len(),
    ensures
        from.on_board(),
        at(g.board, from) is Some,
        at(g.board, from)->0.color == color,
        g.shaped(at(g.board, from)->0, from, g.moves_before(color, n)[k]),
    decreases n,
{
    let earlier = g.moves_before(color, n - 1);
    let here = Square { x: (n - 1) % 8, y: (n - 1) / 8 };
    assert(here.index() == n - 1);
    match g.board[n - 1] {
        Some(p) => {
            if p.color == color {
                let ms = g.piece_moves(p.piece_type, color, here);
                if p.piece_type == PieceType::Pawn {
                    if k < earlier.len() {
                        lemma_moves_before_shape(g, color, n - 1, k)
                    } else {
                        lemma_piece_moves_shape(g, p, here, k - earlier.len());
                        here
                    }
                } else {
                    if k < ms.len() {
                        lemma_piece_moves_shape(g, p, here, ms.len() - 1 - k);
                        assert(g.moves_before(color, n)[k] == ms[ms.len() - 1 - k]);
                        here
                    } else {
                        assert(g.moves_before(color, n)[k] == earlier[k - ms.len()]);
                        lemma_moves_before_shape(g, color, n - 1, k - ms.len())
                    }
                }
            } else {
                lemma_moves_before_shape(g, color, n - 1, k)
            }
        },
        None => lemma_moves_before_shape(g, color, n - 1, k),
    }
}

/// In a sound position every move with the shape of a generated move, made
/// by a piece of the side to move, is fair.
pub proof fn lemma_shaped_is_fair(g: GameView, from: Square, m: MoveView)
    requires
        g.sound(),
        from.on_board(),
        at(g.board, from) is Some,
        at(g.board, from)->0.color == g.on_turn,
        g.shaped(at(g.board, from)->0, from, m),
    ensures
        g.fair(m),
{
    let p = at(g.board, from)->0;
    let y = p.color.spec_home_rank();
    let f = forward(p.color);
    let by_rank = if m.from.y == 0 {
        Color::White
    } else {
        Color::Black
    };
    assert(g.mover(m) == p);
    match m.piece {
        None => {
            let from_home = m.from.x == 4 && (m.from.y == 0 || m.from.y == 7);
            if from_home && (g.castle.contains(king_of(by_rank)) || g.castle.contains(
                right_of(PieceType::Queen, by_rank),
            )) {
                let r = if g.castle.contains(king_of(by_rank)) {
                    king_of(by_rank)
                } else {
                    right_of(PieceType::Queen, by_rank)
                };
                let i = choose|i: int| 0 <= i < g.castle.len() && g.castle[i] == r;
                assert(g.backs(g.castle[i]));
                assert(p == king_of(by_rank));
            }
            assert(g.move_kind(m).0 != MoveType::Castle);
            assert(g.move_kind(m).0 != MoveType::Promote);
        },
        Some(w) => {
            if p.piece_type == PieceType::King {
                let i = choose|i: int| 0 <= i < g.castle.len() && g.castle[i] == w;
                assert(g.backs(g.castle[i]));
                assert(by_rank == p.color);
                if w.piece_type == PieceType::King {
                    assert(w == king_of(by_rank));
                } else {
                    assert(w == right_of(PieceType::Queen, by_rank));
                }
                assert(g.move_kind(m) == (MoveType::Castle, Some(w)));
            } else {
                assert(g.move_kind(m) == (MoveType::Promote, Some(w)));
            }
        },
    }
}

/// Every move that is generated for the side to move of a sound position is
/// fair.
pub proof fn lemma_generated_move_is_fair(g: GameView, k: int)
    requires
        g.sound(),
        0 <= k < g.all_moves(g.on_turn).len(),
    ensures
        g.fair(g.all_moves(g.on_turn)[k]),
{
    let from = lemma_moves_before_shape(g, g.on_turn, 64, k);
    lemma_shaped_is_fair(g, from, g.all_moves(g.on_turn)[k]);
}

/// The running score follows the board through the search: a move that is
/// generated for the side to move of a sound position whose running score
/// is the score of its board counted from scratch leaves a position whose
/// running score is again the score of its board counted from scratch.
pub proof fn lemma_score_follows_generated_move(g: GameView, k: int)
    requires
        g.sound(),
        g.score_is_exact(),
        0 <= k < g.all_moves(g.on_turn).len(),
    ensures
        g.after_move(g.all_moves(g.on_turn)[k]).score_is_exact(),
{
    lemma_generated_move_is_fair(g, k);
    lemma_score_follows_board(g, g.all_moves(g.on_turn)[k]);
}

/// After a move that captures no king, made in a sound position by a piece
/// of the side to move with the shape of a generated move, one king of the
/// given colour stands on the board.
proof fn lemma_one_king_after(g: GameView, from: Square, m: MoveView, color: Color)
    requires
        g.sound(),
        from.on_board(),
        at(g.board, from) is Some,
        at(g.board, from)->0.color == g.on_turn,
        g.shaped(at(g.board, from)->0, from, m),
        g.fair(m),
        !g.captures_king(m),
    ensures
        one_king(g.after_move(m).board, color),
{
    let p = g.mover(m);
    let b0 = g.board;
    let after = g.after_move(m).board;
    let f = m.from.index();
    let t = m.to.index();
    let kind = g.move_kind(m).0;
    let side = g.move_kind(m).1;
    let row = m.to.y * 8;
    let w = lemma_king_place(b0, color);
    let c = g.capture_square(m).index();
    let landing = if kind == MoveType::Castle {
        if side->0.piece_type == PieceType::King {
            row + 6
        } else {
            row + 2
        }
    } else {
        t
    };
    let place = if w == f {
        landing
    } else {
        w
    };
    assert(f % 8 == m.from.x && f / 8 == m.from.y);
    assert(t % 8 == m.to.x && t / 8 == m.to.y);
    assert(after[place] == Some(king_of(color)));
    assert forall|j: int| 0 <= j < 64 && #[trigger] after[j] == Some(king_of(color)) implies j
        == place by {
        if j != f && j != t && j != c && j != row + 6 && j != row + 5 && j != row + 7 && j != row
            + 2 && j != row + 3 && j != row + 0 {
            assert(after[j] == b0[j]);
        }
    }
    assert(only_king_on(after, color, place));
}

/// After a move that captures no king, made in a sound position by a piece
/// of the side to move with the shape of a generated move, every castling
/// right that is left is backed by the board.
proof fn lemma_rights_backed_after(g: GameView, from: Square, m: MoveView, r: Piece)
    requires
        g.sound(),
        from.on_board(),
        at(g.board, from) is Some,
        at(g.board, from)->0.color == g.on_turn,
        g.shaped(at(g.board, from)->0, from, m),
        g.fair(m),
        !g.captures_king(m),
        g.after_move(m).castle.contains(r),
    ensures
        g.after_move(m).backs(r),
{
    let p = g.mover(m);
    let b0 = g.board;
    let after = g.after_move(m).board;
    let f = m.from.index();
    let t = m.to.index();
    let kind = g.move_kind(m).0;
    let side = g.move_kind(m).1;
    let y = r.color.spec_home_rank();
    let king_at = (Square { x: 4, y }).index();
    let rook_at = (Square {
        x: if r.piece_type == PieceType::King {
            7
        } else {
            0
        },
        y,
    }).index();
    assert(f % 8 == m.from.x && f / 8 == m.from.y);
    assert(t % 8 == m.to.x && t / 8 == m.to.y);
    lemma_rights_shrink(g, m, r);
    let i = choose|i: int| 0 <= i < g.castle.len() && g.castle[i] == r;
    assert(g.backs(g.castle[i]));
    match kind {
        MoveType::Standard => {
            let first = rights_without(g.castle, p, m.from.x);
            match g.captured(m) {
                Some(c) => {
                    lemma_right_kept(first, c, m.to.x, r);
                    lemma_right_kept(g.castle, p, m.from.x, r);
                },
                None => {
                    lemma_right_kept(g.castle, p, m.from.x, r);
                },
            }
            assert(king_at != f);
            assert(rook_at != f);
            assert(king_at != t);
            assert(rook_at != t);
        },
        MoveType::Promote => {},
        MoveType::EnPassant => {
            let c = g.capture_square(m).index();
            assert(c % 8 == m.to.x && c / 8 == m.from.y);
            assert(c == f || b0[c] == Some(pawn_of(g.on_turn.spec_opposite())));
        },
        MoveType::Castle => {
            lemma_right_kept_of_color(g.castle, side->0.color, r);
        },
    }
    assert(after[king_at] == b0[king_at]);
    assert(after[rook_at] == b0[rook_at]);
}

/// A sound position stays sound: after a move that captures no king, made in
/// a sound position by a piece of the side to move with the shape of a
/// generated move, the position is sound again.
pub proof fn lemma_shaped_keeps_sound(g: GameView, from: Square, m: MoveView)
    requires
        g.sound(),
        from.on_board(),
        at(g.board, from) is Some,
        at(g.board, from)->0.color == g.on_turn,
        g.shaped(at(g.board, from)->0, from, m),
        !g.captures_king(m),
    ensures
        g.after_move(m).sound(),
{
    let h = g.after_move(m);
    let p = g.mover(m);
    let f = m.from.index();
    let t = m.to.index();
    lemma_shaped_is_fair(g, from, m);
    lemma_one_king_after(g, from, m, Color::White);
    lemma_one_king_after(g, from, m, Color::Black);
    assert forall|i: int| 0 <= i < h.castle.len() implies h.backs(#[trigger] h.castle[i]) by {
        lemma_rights_backed_after(g, from, m, h.castle[i]);
    }
    assert(f % 8 == m.from.x && f / 8 == m.from.y);
    assert(t % 8 == m.to.x && t / 8 == m.to.y);
    if h.en_passant is Some {
        let target = h.en_passant->0;
        let step = forward(p.color);
        assert(m.to == from.shift(0, 2 * step));
        assert(target == from.shift(0, step));
        assert(target.shift(0, -forward(h.on_turn)) == m.to);
        assert(h.board[target.index()] == g.board[target.index()]);
        assert(h.board[t] == Some(p));
    }
}

/// A sound position stays sound through the search: a move that is generated
/// for the side to move of a sound position and captures no king leaves a
/// sound position.
pub proof fn lemma_generated_move_keeps_sound(g: GameView, k: int)
    requires
        g.sound(),
        0 <= k < g.all_moves(g.on_turn).len(),
        !g.captures_king(g.all_moves(g.on_turn)[k]),
    ensures
        g.after_move(g.all_moves(g.on_turn)[k]).sound(),
{
    let from = lemma_moves_before_shape(g, g.on_turn, 64, k);
    lemma_shaped_keeps_sound(g, from, g.all_moves(g.on_turn)[k]);
}

} // verus!
