//! A chess piece: its kind and colour, its letter, and its value on a square.

use vstd::prelude::*;
use vstd::string::*;
use crate::consts::{Color, GamePhase, PieceType, MAX_PIECE_SCORE};
use crate::piece_scores::{SCORE_BISHOP, SCORE_KING, SCORE_KNIGHT, SCORE_PAWN, SCORE_QUEEN, SCORE_ROOK};
use crate::game::{Game, GameView};
use crate::move_struct::{contains_piece, move_views, Move, MoveView};
use crate::types::{at, cord, get_square, sq, square, Cord, Square};
use crate::utils::{moves_start_on, offset_views, plain_move, rays, shifted, steps, walk_offsets, with_offsets};

verus! {

/// A piece: its kind and its colour.
#[derive(Clone, Copy, Debug, PartialEq, Eq, Structural)]
pub struct Piece {
    pub piece_type: PieceType,
    pub color: Color,
}

/// The lower-case letter of a piece kind.
pub open spec fn kind_letter(kind: PieceType) -> char {
    match kind {
        PieceType::King => 'k',
        PieceType::Queen => 'q',
        PieceType::Pawn => 'p',
        PieceType::Knight => 'n',
        PieceType::Rook => 'r',
        PieceType::Bishop => 'b',
    }
}

/// The piece that a letter stands for: upper case for White, lower case for
/// Black; `None` for any other character.
pub open spec fn piece_of_letter(c: char) -> Option<Piece> {
    if c == 'K' {
        Some(Piece { piece_type: PieceType::King, color: Color::White })
    } else if c == 'Q' {
        Some(Piece { piece_type: PieceType::Queen, color: Color::White })
    } else if c == 'P' {
        Some(Piece { piece_type: PieceType::Pawn, color: Color::White })
    } else if c == 'N' {
        Some(Piece { piece_type: PieceType::Knight, color: Color::White })
    } else if c == 'R' {
        Some(Piece { piece_type: PieceType::Rook, color: Color::White })
    } else if c == 'B' {
        Some(Piece { piece_type: PieceType::Bishop, color: Color::White })
    } else if c == 'k' {
        Some(Piece { piece_type: PieceType::King, color: Color::Black })
    } else if c == 'q' {
        Some(Piece { piece_type: PieceType::Queen, color: Color::Black })
    } else if c == 'p' {
        Some(Piece { piece_type: PieceType::Pawn, color: Color::Black })
    } else if c == 'n' {
        Some(Piece { piece_type: PieceType::Knight, color: Color::Black })
    } else if c == 'r' {
        Some(Piece { piece_type: PieceType::Rook, color: Color::Black })
    } else if c == 'b' {
        Some(Piece { piece_type: PieceType::Bishop, color: Color::Black })
    } else {
        None
    }
}

/// The chess symbol of a piece kind.
pub open spec fn kind_symbol(kind: PieceType) -> char {
    match kind {
        PieceType::King => '\u{265A}',
        PieceType::Queen => '\u{265B}',
        PieceType::Bishop => '\u{265D}',
        PieceType::Knight => '\u{265E}',
        PieceType::Rook => '\u{265C}',
        PieceType::Pawn => '\u{265F}',
    }
}

/// The name of a piece kind.
pub open spec fn kind_name(kind: PieceType) -> Seq<char> {
    match kind {
        PieceType::King => "King"@,
        PieceType::Queen => "Queen"@,
        PieceType::Bishop => "Bishop"@,
        PieceType::Knight => "Knight"@,
        PieceType::Rook => "Rook"@,
        PieceType::Pawn => "Pawn"@,
    }
}

/// The name of a colour.
pub open spec fn color_name(color: Color) -> Seq<char> {
    match color {
        Color::White => "White"@,
        Color::Black => "Black"@,
    }
}

/// Material worth that is added to the table value of a piece kind.
pub open spec fn material(kind: PieceType) -> int {
    match kind {
        PieceType::King => 0,
        PieceType::Queen => 900,
        PieceType::Rook => 500,
        PieceType::Bishop => 300,
        PieceType::Knight => 300,
        PieceType::Pawn => 0,
    }
}

/// Entry of the piece-square table of `kind` for a phase ordinal, a rank and a
/// file, all seen from White's side.
pub open spec fn table_value(kind: PieceType, phase: int, rank: int, file: int) -> int {
    match kind {
        PieceType::King => SCORE_KING[phase][rank][file] as int,
        PieceType::Queen => SCORE_QUEEN[phase][rank][file] as int,
        PieceType::Rook => SCORE_ROOK[phase][rank][file] as int,
        PieceType::Bishop => SCORE_BISHOP[phase][rank][file] as int,
        PieceType::Knight => SCORE_KNIGHT[phase][rank][file] as int,
        PieceType::Pawn => SCORE_PAWN[phase][rank][file] as int,
    }
}

impl Piece {
    /// The letter of the piece: upper case for White, lower case for Black.
    pub open spec fn letter(self) -> char {
        match self.color {
            Color::Black => kind_letter(self.piece_type),
            Color::White => match self.piece_type {
                PieceType::King => 'K',
                PieceType::Queen => 'Q',
                PieceType::Pawn => 'P',
                PieceType::Knight => 'N',
                PieceType::Rook => 'R',
                PieceType::Bishop => 'B',
            },
        }
    }

    /// Value of the piece on square `s` in a game phase, from its owner's
    /// side: the table entry (on the mirrored rank for Black) plus the
    /// material worth of its kind.
    #[verifier::opaque]
    pub open spec fn spec_score(self, s: Square, phase: GamePhase) -> int {
        let rank = if self.color == Color::Black { 7 - s.y } else { s.y };
        table_value(self.piece_type, phase.spec_index(), rank, s.x) + material(self.piece_type)
    }

    /// No piece is worth more than the largest piece value on any square of
    /// the board, in absolute value.
    pub proof fn lemma_score_bound(self, s: Square, phase: GamePhase)
        requires
            s.on_board(),
        ensures
            -MAX_PIECE_SCORE <= self.spec_score(s, phase) <= MAX_PIECE_SCORE,
            -MAX_PIECE_SCORE <= self.signed_score(s, phase) <= MAX_PIECE_SCORE,
    {
        reveal(Piece::spec_score);
    }

    /// Value of the piece on square `s` as it enters White's score.
    pub open spec fn signed_score(self, s: Square, phase: GamePhase) -> int {
        self.color.sign() * self.spec_score(s, phase)
    }

    /// The piece that a letter stands for, or `None` for a character that
    /// names no piece.
    pub fn parse_letter(fen_letter: char) -> (r: Option<Piece>)
        ensures
            r == piece_of_letter(fen_letter),
    {
        if fen_letter == 'K' {
            Some(Piece { piece_type: PieceType::King, color: Color::White })
        } else if fen_letter == 'Q' {
            Some(Piece { piece_type: PieceType::Queen, color: Color::White })
        } else if fen_letter == 'P' {
            Some(Piece { piece_type: PieceType::Pawn, color: Color::White })
        } else if fen_letter == 'N' {
            Some(Piece { piece_type: PieceType::Knight, color: Color::White })
        } else if fen_letter == 'R' {
            Some(Piece { piece_type: PieceType::Rook, color: Color::White })
        } else if fen_letter == 'B' {
            Some(Piece { piece_type: PieceType::Bishop, color: Color::White })
        } else if fen_letter == 'k' {
            Some(Piece { piece_type: PieceType::King, color: Color::Black })
        } else if fen_letter == 'q' {
            Some(Piece { piece_type: PieceType::Queen, color: Color::Black })
        } else if fen_letter == 'p' {
            Some(Piece { piece_type: PieceType::Pawn, color: Color::Black })
        } else if fen_letter == 'n' {
            Some(Piece { piece_type: PieceType::Knight, color: Color::Black })
        } else if fen_letter == 'r' {
            Some(Piece { piece_type: PieceType::Rook, color: Color::Black })
        } else if fen_letter == 'b' {
            Some(Piece { piece_type: PieceType::Bishop, color: Color::Black })
        } else {
            None
        }
    }

    /// Load a piece from its letter: `Q` is a white queen, `k` a black king.
    pub fn from_fen(fen_letter: char) -> (r: Piece)
        requires
            piece_of_letter(fen_letter) is Some,
        ensures
            Some(r) == piece_of_letter(fen_letter),
            r.letter() == fen_letter,
    {
        match Piece::parse_letter(fen_letter) {
            Some(p) => p,
            None => Piece { piece_type: PieceType::Pawn, color: Color::White },
        }
    }

    /// The letter of the piece as a string of one character.
    pub fn to_fen(&self) -> (s: String)
        ensures
            s@ == seq![self.letter()],
            piece_of_letter(self.letter()) == Some(*self),
    {
        proof {
            reveal_strlit("k");
            reveal_strlit("q");
            reveal_strlit("p");
            reveal_strlit("n");
            reveal_strlit("r");
            reveal_strlit("b");
            reveal_strlit("K");
            reveal_strlit("Q");
            reveal_strlit("P");
            reveal_strlit("N");
            reveal_strlit("R");
            reveal_strlit("B");
        }
        let text: &str = match self.color {
            Color::Black => match self.piece_type {
                PieceType::King => "k",
                PieceType::Queen => "q",
                PieceType::Pawn => "p",
                PieceType::Knight => "n",
                PieceType::Rook => "r",
                PieceType::Bishop => "b",
            },
            Color::White => match self.piece_type {
                PieceType::King => "K",
                PieceType::Queen => "Q",
                PieceType::Pawn => "P",
                PieceType::Knight => "N",
                PieceType::Rook => "R",
                PieceType::Bishop => "B",
            },
        };
        let s = String::from_str(text);
        assert(s@ =~= seq![self.letter()]);
        s
    }

    /// The chess symbol of the piece kind, as a string of one character.
    pub fn unicode_piece(&self) -> (s: String)
        ensures
            s@ == seq![kind_symbol(self.piece_type)],
    {
        proof {
            reveal_strlit("\u{265A}");
            reveal_strlit("\u{265B}");
            reveal_strlit("\u{265D}");
            reveal_strlit("\u{265E}");
            reveal_strlit("\u{265C}");
            reveal_strlit("\u{265F}");
        }
        let text: &str = match self.piece_type {
            PieceType::King => "\u{265A}",
            PieceType::Queen => "\u{265B}",
            PieceType::Bishop => "\u{265D}",
            PieceType::Knight => "\u{265E}",
            PieceType::Rook => "\u{265C}",
            PieceType::Pawn => "\u{265F}",
        };
        let s = String::from_str(text);
        assert(s@ =~= seq![kind_symbol(self.piece_type)]);
        s
    }

    /// A short description of the piece for the console, such as
    /// `<Piece Queen White>`.
    pub fn repr(&self) -> (s: String)
        ensures
            s@ == "<Piece "@ + kind_name(self.piece_type) + " "@ + color_name(self.color) + ">"@,
    {
        let mut s = String::from_str("<Piece ");
        let kind: &str = match self.piece_type {
            PieceType::King => "King",
            PieceType::Queen => "Queen",
            PieceType::Bishop => "Bishop",
            PieceType::Knight => "Knight",
            PieceType::Rook => "Rook",
            PieceType::Pawn => "Pawn",
        };
        s.append(kind);
        s.append(" ");
        let color: &str = match self.color {
            Color::White => "White",
            Color::Black => "Black",
        };
        s.append(color);
        s.append(">");
        s
    }

    /// Determine the value of the piece on the square with file `x` and rank
    /// `y`, in the given game phase.
    pub fn score(&self, x: usize, y: usize, game_phase: &GamePhase) -> (r: i64)
        requires
            x < 8,
            y < 8,
        ensures
            r == self.spec_score(square(x as int, y as int), *game_phase),
            -MAX_PIECE_SCORE <= r <= MAX_PIECE_SCORE,
    {
        reveal(Piece::spec_score);
        let rank: usize = if self.color == Color::Black { 7 - y } else { y };
        let phase: usize = game_phase.index();
        match self.piece_type {
            PieceType::King => SCORE_KING[phase][rank][x],
            PieceType::Queen => SCORE_QUEEN[phase][rank][x] + 900,
            PieceType::Bishop => SCORE_BISHOP[phase][rank][x] + 300,
            PieceType::Knight => SCORE_KNIGHT[phase][rank][x] + 300,
            PieceType::Rook => SCORE_ROOK[phase][rank][x] + 500,
            PieceType::Pawn => SCORE_PAWN[phase][rank][x],
        }
    }
}

/// The eight directions of king and queen.
pub open spec fn all_directions() -> Seq<(int, int)> {
    seq![(1, 0), (1, 1), (0, 1), (-1, 1), (-1, 0), (-1, -1), (0, -1), (1, -1)]
}

/// The four diagonal directions.
pub open spec fn diagonals() -> Seq<(int, int)> {
    seq![(1, 1), (-1, 1), (-1, -1), (1, -1)]
}

/// The four directions along files and ranks.
pub open spec fn straights() -> Seq<(int, int)> {
    seq![(1, 0), (0, 1), (-1, 0), (0, -1)]
}

/// The eight jumps of a knight.
pub open spec fn knight_jumps() -> Seq<(int, int)> {
    seq![(-1, 2), (1, 2), (2, 1), (2, -1), (1, -2), (-1, -2), (-2, -1), (-2, 1)]
}

/// The direction in which the pawns of a colour advance: up for White, down
/// for Black.
pub open spec fn forward(color: Color) -> int {
    color.sign()
}

/// The two steps by which a pawn captures.
pub open spec fn pawn_captures(color: Color) -> Seq<(int, int)> {
    seq![(1, forward(color)), (-1, forward(color))]
}

/// The kinds a pawn can promote to, in the order in which the promotions are
/// generated.
pub open spec fn promotion_kinds() -> Seq<PieceType> {
    seq![PieceType::Queen, PieceType::Knight, PieceType::Rook, PieceType::Bishop]
}

/// The rank on which a pawn of the colour stands before its last step.
pub open spec fn promotion_rank(color: Color) -> int {
    if color == Color::White {
        6
    } else {
        1
    }
}

/// Whether a pawn on `from` promotes with its next step: it stands one rank
/// before the last and the square ahead is empty.
pub open spec fn promotes(color: Color, from: Square, bv: Seq<Option<Piece>>) -> bool {
    from.y == promotion_rank(color) && at(bv, from.shift(0, forward(color))) is None
}

/// The four promotions of a pawn on `from`.
pub open spec fn promotions(color: Color, from: Square) -> Seq<MoveView> {
    Seq::new(
        4,
        |i: int|
            MoveView {
                from,
                to: from.shift(0, forward(color)),
                piece: Some(Piece { piece_type: promotion_kinds()[i], color }),
            },
    )
}

/// The en-passant capture by the step `d`, if that step ends on the
/// en-passant target.
pub open spec fn en_passant_step(from: Square, target: Option<Square>, d: (int, int)) -> Seq<
    MoveView,
> {
    let to = from.shift(d.0, d.1);
    if to.on_board() && target == Some(to) {
        seq![plain_move(from, to)]
    } else {
        Seq::empty()
    }
}

/// The moves of a pawn: its captures, then its promotions or, if it does not
/// promote, its steps ahead (two from its starting rank, else one), then its
/// en-passant captures.
pub open spec fn pawn_moves(
    color: Color,
    from: Square,
    bv: Seq<Option<Piece>>,
    target: Option<Square>,
) -> Seq<MoveView> {
    let ahead = if promotes(color, from, bv) {
        promotions(color, from)
    } else {
        rays(
            color,
            from,
            bv,
            seq![(0, forward(color))],
            Some(
                if from.y == 7 - promotion_rank(color) {
                    2
                } else {
                    1
                },
            ),
            false,
        )
    };
    steps(color, from, bv, pawn_captures(color), true) + ahead + en_passant_step(
        from,
        target,
        pawn_captures(color)[0],
    ) + en_passant_step(from, target, pawn_captures(color)[1])
}

/// The moves that a piece of the given kind and colour has from `from` by
/// the way its kind moves, castling left aside.
pub open spec fn basic_moves(
    kind: PieceType,
    color: Color,
    from: Square,
    bv: Seq<Option<Piece>>,
    target: Option<Square>,
) -> Seq<MoveView> {
    match kind {
        PieceType::King => steps(color, from, bv, all_directions(), false),
        PieceType::Queen => rays(color, from, bv, all_directions(), None, true),
        PieceType::Bishop => rays(color, from, bv, diagonals(), None, true),
        PieceType::Knight => steps(color, from, bv, knight_jumps(), false),
        PieceType::Rook => rays(color, from, bv, straights(), None, true),
        PieceType::Pawn => pawn_moves(color, from, bv, target),
    }
}

/// Models of two lists of moves, one after the other.
pub proof fn lemma_move_views_add(a: Seq<Move>, b: Seq<Move>)
    ensures
        move_views(a + b) == move_views(a) + move_views(b),
{
    assert(move_views(a + b) =~= move_views(a) + move_views(b));
}

/// The eight directions of king and queen as a list of offsets.
pub(crate) fn all_direction_offsets() -> (v: Vec<[i8; 2]>)
    ensures
        offset_views(v@) == all_directions(),
        forall|i: int| 0 <= i < v.len() ==> v[i][0] != 0 || v[i][1] != 0,
{
    let v: Vec<[i8; 2]> = vec![[1, 0], [1, 1], [0, 1], [-1, 1], [-1, 0], [-1, -1], [0, -1], [1, -1]];
    assert(offset_views(v@) =~= all_directions());
    v
}

/// The four diagonal directions as a list of offsets.
fn diagonal_offsets() -> (v: Vec<[i8; 2]>)
    ensures
        offset_views(v@) == diagonals(),
        forall|i: int| 0 <= i < v.len() ==> v[i][0] != 0 || v[i][1] != 0,
{
    let v: Vec<[i8; 2]> = vec![[1, 1], [-1, 1], [-1, -1], [1, -1]];
    assert(offset_views(v@) =~= diagonals());
    v
}

/// The four directions along files and ranks as a list of offsets.
fn straight_offsets() -> (v: Vec<[i8; 2]>)
    ensures
        offset_views(v@) == straights(),
        forall|i: int| 0 <= i < v.len() ==> v[i][0] != 0 || v[i][1] != 0,
{
    let v: Vec<[i8; 2]> = vec![[1, 0], [0, 1], [-1, 0], [0, -1]];
    assert(offset_views(v@) =~= straights());
    v
}

/// The eight jumps of a knight as a list of offsets.
fn knight_offsets() -> (v: Vec<[i8; 2]>)
    ensures
        offset_views(v@) == knight_jumps(),
{
    let v: Vec<[i8; 2]> = vec![
        [-1, 2],
        [1, 2],
        [2, 1],
        [2, -1],
        [1, -2],
        [-1, -2],
        [-2, -1],
        [-2, 1],
    ];
    assert(offset_views(v@) =~= knight_jumps());
    v
}

/// The two steps by which a pawn of the colour captures.
fn pawn_capture_offsets(color: Color) -> (v: Vec<[i8; 2]>)
    ensures
        offset_views(v@) == pawn_captures(color),
        v.len() == 2,
{
    let v: Vec<[i8; 2]> = if color == Color::White {
        vec![[1, 1], [-1, 1]]
    } else {
        vec![[1, -1], [-1, -1]]
    };
    assert(offset_views(v@) =~= pawn_captures(color));
    v
}

/// The step ahead of a pawn of the colour.
fn pawn_step_offsets(color: Color) -> (v: Vec<[i8; 2]>)
    ensures
        offset_views(v@) == seq![(0int, forward(color))],
        forall|i: int| 0 <= i < v.len() ==> v[i][0] != 0 || v[i][1] != 0,
{
    let v: Vec<[i8; 2]> = if color == Color::White {
        vec![[0, 1]]
    } else {
        vec![[0, -1]]
    };
    assert(offset_views(v@) =~= seq![(0int, forward(color))]);
    v
}

/// The moves of a pawn of the given colour on `square`.
fn pawn_piece_moves(color: Color, square: Cord, game: &Game) -> (moves: Vec<Move>)
    requires
        sq(square).on_board(),
    ensures
        move_views(moves@) == pawn_moves(color, sq(square), game@.board, game@.en_passant),
        moves_start_on(move_views(moves@), sq(square)),
{
    let x: usize = square[0];
    let y: usize = square[1];
    let ghost from = sq(square);
    let ghost bv = game@.board;
    let mut moves = with_offsets(&color, square, game.board, pawn_capture_offsets(color), true);
    let ghost captures = move_views(moves@);

    let promotes_now = (color == Color::White && y == 6 && get_square(&game.board, x, 7).is_none())
        || (color == Color::Black && y == 1 && get_square(&game.board, x, 0).is_none());
    assert(promotes_now == promotes(color, from, bv));
    if promotes_now {
        let to_y: usize = if color == Color::White {
            7
        } else {
            0
        };
        let kinds: Vec<PieceType> = vec![
            PieceType::Queen,
            PieceType::Knight,
            PieceType::Rook,
            PieceType::Bishop,
        ];
        assert(kinds@ =~= promotion_kinds());
        let mut k: usize = 0;
        while k < 4
            invariant
                k <= 4,
                kinds@ == promotion_kinds(),
                from == sq(square),
                from.on_board(),
                x == square[0],
                from.y == promotion_rank(color),
                to_y == from.y + forward(color),
                move_views(moves@) == captures + promotions(color, from).take(k as int),
                moves_start_on(move_views(moves@), from),
            decreases 4 - k,
        {
            let ghost acc = move_views(moves@);
            let mve = Move {
                from: square,
                to: cord(x, to_y),
                piece: Some(Piece { piece_type: kinds[k], color: color }),
            };
            moves.push(mve);
            assert(move_views(moves@) =~= acc.push(mve@));
            assert(mve@ == promotions(color, from)[k as int]);
            assert(promotions(color, from).take(k + 1) =~= promotions(color, from).take(
                k as int,
            ).push(mve@));
            k += 1;
        }
        assert(promotions(color, from).take(4) =~= promotions(color, from));
    } else {
        let max_distance: Option<u32> = if (color == Color::White && y == 1) || (color
            == Color::Black && y == 6) {
            Some(2)
        } else {
            Some(1)
        };
        let mut steps_ahead = walk_offsets(
            &color,
            square,
            game.board,
            pawn_step_offsets(color),
            max_distance,
            false,
        );
        proof {
            lemma_move_views_add(moves@, steps_ahead@);
        }
        moves.append(&mut steps_ahead);
    }
    let ghost ahead = move_views(moves@);

    match game.en_passant_target_square {
        Some(target) => {
            let offsets = pawn_capture_offsets(color);
            let mut k: usize = 0;
            while k < 2
                invariant
                    k <= 2,
                    offsets.len() == 2,
                    offset_views(offsets@) == pawn_captures(color),
                    from == sq(square),
                    from.on_board(),
                    game@.en_passant == Some(sq(target)),
                    move_views(moves@) == ahead + (if k >= 1 {
                        en_passant_step(from, game@.en_passant, pawn_captures(color)[0])
                    } else {
                        Seq::empty()
                    }) + (if k >= 2 {
                        en_passant_step(from, game@.en_passant, pawn_captures(color)[1])
                    } else {
                        Seq::empty()
                    }),
                    moves_start_on(move_views(moves@), from),
                decreases 2 - k,
            {
                let ghost acc = move_views(moves@);
                assert(offset_views(offsets@)[k as int] == (
                    offsets[k as int][0] as int,
                    offsets[k as int][1] as int,
                ));
                match shifted(square[0], square[1], offsets[k]) {
                    Some((nx, ny)) => {
                        if target[0] == nx && target[1] == ny {
                            let to = cord(nx, ny);
                            moves.push(Move::simple_new(square, to));
                            assert(move_views(moves@) =~= acc + seq![plain_move(from, sq(to))]);
                        } else {
                            assert(acc + Seq::<MoveView>::empty() =~= acc);
                        }
                    },
                    None => {
                        assert(acc + Seq::<MoveView>::empty() =~= acc);
                    },
                }
                k += 1;
            }
        },
        None => {
            assert(ahead + Seq::<MoveView>::empty() + Seq::<MoveView>::empty() =~= ahead);
        },
    }
    moves
}

/// The moves that a piece of the given kind and colour has from `square` by
/// the way its kind moves, castling left aside.
pub fn basic_piece_moves(piece_type: PieceType, color: Color, square: Cord, game: &Game) -> (moves:
    Vec<Move>)
    requires
        sq(square).on_board(),
    ensures
        move_views(moves@) == basic_moves(
            piece_type,
            color,
            sq(square),
            game@.board,
            game@.en_passant,
        ),
        moves_start_on(move_views(moves@), sq(square)),
{
    match piece_type {
        PieceType::King => with_offsets(&color, square, game.board, all_direction_offsets(), false),
        PieceType::Queen => walk_offsets(
            &color,
            square,
            game.board,
            all_direction_offsets(),
            None,
            true,
        ),
        PieceType::Bishop => walk_offsets(
            &color,
            square,
            game.board,
            diagonal_offsets(),
            None,
            true,
        ),
        PieceType::Knight => with_offsets(&color, square, game.board, knight_offsets(), false),
        PieceType::Rook => walk_offsets(
            &color,
            square,
            game.board,
            straight_offsets(),
            None,
            true,
        ),
        PieceType::Pawn => pawn_piece_moves(color, square, game),
    }
}

/// The piece of a kind and a colour.
pub open spec fn piece_of(kind: PieceType, color: Color) -> Piece {
    Piece { piece_type: kind, color }
}

/// The piece that stands for a castling right: the king of a colour for its
/// king-side right, the queen for its queen-side right.
pub open spec fn right_of(kind: PieceType, color: Color) -> Piece {
    Piece { piece_type: kind, color }
}

impl GameView {
    /// The square is empty and not attacked by `attacker`.
    pub open spec fn free_and_safe(self, s: Square, attacker: Color) -> bool {
        at(self.board, s) is None && !self.attacked(s, attacker)
    }

    /// The castling moves of the king of a colour that stands on `from`.
    ///
    /// There are none unless the king stands on its home square, the e-file
    /// square of its back rank, and is not attacked there. Then it may
    /// castle king-side if the king-side right is there and the f- and
    /// g-file squares are empty and not attacked, and queen-side if the
    /// queen-side right is there, the b-, c- and d-file squares are empty and
    /// the c- and d-file squares are not attacked. A castle is written as the
    /// king's move onto the rook's corner and names the king or queen that
    /// stands for the right.
    pub open spec fn castle_moves(self, color: Color, from: Square) -> Seq<MoveView> {
        let y = color.spec_home_rank();
        let other = color.spec_opposite();
        if from == (Square { x: 4, y }) && !self.attacked(from, other) {
            (if self.castle.contains(right_of(PieceType::King, color)) && self.free_and_safe(
                Square { x: 5, y },
                other,
            ) && self.free_and_safe(Square { x: 6, y }, other) {
                seq![
                    MoveView {
                        from,
                        to: Square { x: 7, y },
                        piece: Some(right_of(PieceType::King, color)),
                    },
                ]
            } else {
                Seq::empty()
            }) + (if self.castle.contains(right_of(PieceType::Queen, color)) && at(
                self.board,
                Square { x: 1, y },
            ) is None && self.free_and_safe(Square { x: 2, y }, other) && self.free_and_safe(
                Square { x: 3, y },
                other,
            ) {
                seq![
                    MoveView {
                        from,
                        to: Square { x: 0, y },
                        piece: Some(right_of(PieceType::Queen, color)),
                    },
                ]
            } else {
                Seq::empty()
            })
        } else {
            Seq::empty()
        }
    }

    /// All the moves that a piece of the given kind and colour has from
    /// `from`: those of its kind and, for a king, its castling moves.
    pub open spec fn piece_moves(self, kind: PieceType, color: Color, from: Square) -> Seq<
        MoveView,
    > {
        basic_moves(kind, color, from, self.board, self.en_passant) + (if kind == PieceType::King {
            self.castle_moves(color, from)
        } else {
            Seq::empty()
        })
    }
}

impl Game {
    /// Whether the square is empty and not attacked by `attacker`.
    fn is_free_and_safe(&self, x: usize, y: usize, attacker: Color) -> (r: bool)
        requires
            x < 8,
            y < 8,
        ensures
            r == self@.free_and_safe(square(x as int, y as int), attacker),
    {
        get_square(&self.board, x, y).is_none() && !self.square_is_attacked(cord(x, y), attacker)
    }

    /// The castling moves of the king of a colour that stands on `square`.
    fn castle_piece_moves(&self, color: Color, square: Cord) -> (moves: Vec<Move>)
        requires
            sq(square).on_board(),
        ensures
            move_views(moves@) == self@.castle_moves(color, sq(square)),
            moves_start_on(move_views(moves@), sq(square)),
    {
        let mut moves: Vec<Move> = Vec::new();
        let y: usize = color.home_rank();
        let other_color = color.opposite();
        let ghost from = sq(square);
        if square[0] == 4 && square[1] == y && !self.square_is_attacked(square, other_color) {
            let king = Piece { piece_type: PieceType::King, color: color };
            let queen = Piece { piece_type: PieceType::Queen, color: color };
            if contains_piece(&self.castle, king) && self.is_free_and_safe(5, y, other_color)
                && self.is_free_and_safe(6, y, other_color) {
                moves.push(Move { from: square, to: cord(7, y), piece: Some(king) });
            }
            let ghost king_side = move_views(moves@);
            if contains_piece(&self.castle, queen) && get_square(&self.board, 1, y).is_none()
                && self.is_free_and_safe(2, y, other_color) && self.is_free_and_safe(
                3,
                y,
                other_color,
            ) {
                moves.push(Move { from: square, to: cord(0, y), piece: Some(queen) });
            }
            assert(move_views(moves@) =~= self@.castle_moves(color, from));
        } else {
            assert(move_views(moves@) =~= self@.castle_moves(color, from));
        }
        moves
    }
}

impl Piece {
    /// Return a list of all the moves this piece can do from the given
    /// square.
    pub fn get_all_moves(&self, square: Cord, game: &Game) -> (moves: Vec<Move>)
        requires
            sq(square).on_board(),
        ensures
            move_views(moves@) == game@.piece_moves(self.piece_type, self.color, sq(square)),
            moves_start_on(move_views(moves@), sq(square)),
    {
        get_all_piece_moves(self.piece_type, self.color, square, game)
    }
}

/// Get a list of all the moves a piece of this type and color can do from the
/// specified position in the specified game.
pub fn get_all_piece_moves(piece_type: PieceType, color: Color, square: Cord, game: &Game) -> (moves:
    Vec<Move>)
    requires
        sq(square).on_board(),
    ensures
        move_views(moves@) == game@.piece_moves(piece_type, color, sq(square)),
        moves_start_on(move_views(moves@), sq(square)),
{
    let mut moves = basic_piece_moves(piece_type, color, square, game);
    if piece_type == PieceType::King {
        let mut castles = game.castle_piece_moves(color, square);
        proof {
            lemma_move_views_add(moves@, castles@);
        }
        moves.append(&mut castles);
    } else {
        assert(move_views(moves@) + Seq::<MoveView>::empty() =~= move_views(moves@));
    }
    moves
}

} // verus!
