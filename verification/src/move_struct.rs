//! A move: where from, where to, and the piece that a promotion or a castle
//! names. Reading and writing long algebraic notation, and telling the kinds
//! of move apart.

use vstd::prelude::*;
use vstd::string::*;
use crate::consts::{Color, MoveType, PieceType};
use crate::piece::{kind_letter, right_of, Piece};
use crate::text::chars_of;
use crate::types::{cord, same_square, sq, square, Cord, Square};

verus! {

/// A move from one square to another. The piece is the piece that a pawn
/// promotes to, or the king or queen that tells a king-side from a
/// queen-side castle; for any other move it is not used.
#[derive(Copy, Clone, Debug)]
pub struct Move {
    pub from: Cord,
    pub to: Cord,
    pub piece: Option<Piece>,
}

/// Model of a move.
pub struct MoveView {
    pub from: Square,
    pub to: Square,
    pub piece: Option<Piece>,
}

impl View for Move {
    type V = MoveView;

    open spec fn view(&self) -> MoveView {
        MoveView { from: sq(self.from), to: sq(self.to), piece: self.piece }
    }
}

/// Models of a sequence of moves, one by one.
pub open spec fn move_views(s: Seq<Move>) -> Seq<MoveView> {
    Seq::new(s.len(), |i: int| s[i]@)
}

/// Model of an optional coordinate pair.
pub open spec fn sq_opt(c: Option<Cord>) -> Option<Square> {
    match c {
        Some(c) => Some(sq(c)),
        None => None,
    }
}

/// The file that a letter `a` to `h` names.
pub open spec fn file_of_char(c: char) -> Option<int> {
    if 'a' <= c <= 'h' {
        Some(c as int - 'a' as int)
    } else {
        None
    }
}

/// The rank that a digit `1` to `8` names.
pub open spec fn rank_of_char(c: char) -> Option<int> {
    if '1' <= c <= '8' {
        Some(c as int - '1' as int)
    } else {
        None
    }
}

/// The letter of a file.
pub open spec fn char_of_file(x: int) -> char {
    ('a' as int + x) as char
}

/// The digit of a rank.
pub open spec fn char_of_rank(y: int) -> char {
    ('1' as int + y) as char
}

/// The square that a text of two characters names, such as `e4`.
pub open spec fn square_of_text(s: Seq<char>) -> Option<Square> {
    if s.len() == 2 && file_of_char(s[0]) is Some && rank_of_char(s[1]) is Some {
        Some(Square { x: file_of_char(s[0])->0, y: rank_of_char(s[1])->0 })
    } else {
        None
    }
}

/// The text of a square on the board, such as `e4`.
pub open spec fn text_of_square(s: Square) -> Seq<char> {
    seq![char_of_file(s.x), char_of_rank(s.y)]
}

/// The kind of piece that a promotion letter names: one of `q`, `r`, `b`,
/// `n`.
pub open spec fn promotion_of_char(c: char) -> Option<PieceType> {
    if c == 'q' {
        Some(PieceType::Queen)
    } else if c == 'r' {
        Some(PieceType::Rook)
    } else if c == 'b' {
        Some(PieceType::Bishop)
    } else if c == 'n' {
        Some(PieceType::Knight)
    } else {
        None
    }
}

/// The side whose pawns promote from the given rank: White from the seventh
/// rank, Black from any other.
pub open spec fn promoter(rank: int) -> Color {
    if rank == 6 {
        Color::White
    } else {
        Color::Black
    }
}

/// The move that a text in long algebraic notation names: two squares, then
/// an optional promotion letter. The piece that the letter names is of the
/// colour of the side whose pawns promote from the rank that the move starts
/// on. `None` for any other text.
pub open spec fn move_of_text(s: Seq<char>) -> Option<MoveView> {
    if (s.len() == 4 || s.len() == 5) && square_of_text(s.subrange(0, 2)) is Some
        && square_of_text(s.subrange(2, 4)) is Some && (s.len() == 5 ==> promotion_of_char(s[4])
        is Some) {
        Some(
            MoveView {
                from: square_of_text(s.subrange(0, 2))->0,
                to: square_of_text(s.subrange(2, 4))->0,
                piece: if s.len() == 5 {
                    Some(
                        Piece {
                            piece_type: promotion_of_char(s[4])->0,
                            color: promoter(square_of_text(s.subrange(0, 2))->0.y),
                        },
                    )
                } else {
                    None
                },
            },
        )
    } else {
        None
    }
}

/// Whether a move is written with a promotion letter: it names a piece and
/// starts on the second or the seventh rank.
pub open spec fn is_promotion(m: MoveView) -> bool {
    m.piece is Some && (m.from.y == 6 || m.from.y == 1)
}

/// The long algebraic notation of a move between squares of the board.
pub open spec fn text_of_move(m: MoveView) -> Seq<char> {
    text_of_square(m.from) + text_of_square(m.to) + (if is_promotion(m) {
        seq![kind_letter(m.piece->0.piece_type)]
    } else {
        Seq::<char>::empty()
    })
}

/// The side whose back rank a move from the e-file square of rank `y` starts
/// on: White for the first rank, Black for any other.
pub open spec fn back_rank_color(y: int) -> Color {
    if y == 0 {
        Color::White
    } else {
        Color::Black
    }
}

/// The kind of a move and the piece that goes with it.
///
/// A move that names a piece and starts on the second or seventh rank is a
/// promotion to that piece. Else, where castling rights are given, a move from
/// e1 or e8 to the g- or h-file is a king-side castle if that side's
/// king-side right is there, and one to the a- or c-file a queen-side castle
/// if its queen-side right is there; the piece returned is the king or queen
/// that stands for the right. Else a pawn's move onto the en-passant target
/// is an en-passant capture. Any other move is standard.
pub open spec fn classify(
    m: MoveView,
    castling: Option<Seq<Piece>>,
    en_passant: Option<Square>,
    kind: Option<PieceType>,
) -> (MoveType, Option<Piece>) {
    let color = back_rank_color(m.from.y);
    let king = right_of(PieceType::King, color);
    let queen = right_of(PieceType::Queen, color);
    let from_home = castling is Some && m.from.x == 4 && (m.from.y == 0 || m.from.y == 7);
    if is_promotion(m) {
        (MoveType::Promote, m.piece)
    } else if from_home && (m.to.x == 6 || m.to.x == 7) && castling->0.contains(king) {
        (MoveType::Castle, Some(king))
    } else if from_home && (m.to.x == 2 || m.to.x == 0) && castling->0.contains(queen) {
        (MoveType::Castle, Some(queen))
    } else if en_passant is Some && kind == Some(PieceType::Pawn) && en_passant == Some(m.to) {
        (MoveType::EnPassant, None)
    } else {
        (MoveType::Standard, None)
    }
}

/// Whether `p` occurs in `v`.
pub fn contains_piece(v: &Vec<Piece>, p: Piece) -> (r: bool)
    ensures
        r == v@.contains(p),
{
    let mut i: usize = 0;
    while i < v.len()
        invariant
            i <= v.len(),
            forall|j: int| 0 <= j < i ==> v@[j] != p,
        decreases v.len() - i,
    {
        if v[i] == p {
            return true;
        }
        i += 1;
    }
    false
}

/// The file that a letter `a` to `h` names.
pub fn parse_file(c: char) -> (r: Option<usize>)
    ensures
        r is Some == file_of_char(c) is Some,
        r is Some ==> r->0 == file_of_char(c)->0,
{
    if 'a' <= c && c <= 'h' {
        Some((c as u32 - 'a' as u32) as usize)
    } else {
        None
    }
}

/// The rank that a digit `1` to `8` names.
pub fn parse_rank(c: char) -> (r: Option<usize>)
    ensures
        r is Some == rank_of_char(c) is Some,
        r is Some ==> r->0 == rank_of_char(c)->0,
{
    if '1' <= c && c <= '8' {
        Some((c as u32 - '1' as u32) as usize)
    } else {
        None
    }
}

/// The kind of piece that a promotion letter names.
pub fn parse_promotion(c: char) -> (r: Option<PieceType>)
    ensures
        r == promotion_of_char(c),
{
    if c == 'q' {
        Some(PieceType::Queen)
    } else if c == 'r' {
        Some(PieceType::Rook)
    } else if c == 'b' {
        Some(PieceType::Bishop)
    } else if c == 'n' {
        Some(PieceType::Knight)
    } else {
        None
    }
}

/// The two characters of a square of the board.
pub fn square_text(x: usize, y: usize) -> (s: String)
    requires
        x < 8,
        y < 8,
    ensures
        s@ == text_of_square(square(x as int, y as int)),
{
    proof {
        reveal_strlit("a");
        reveal_strlit("b");
        reveal_strlit("c");
        reveal_strlit("d");
        reveal_strlit("e");
        reveal_strlit("f");
        reveal_strlit("g");
        reveal_strlit("h");
        reveal_strlit("1");
        reveal_strlit("2");
        reveal_strlit("3");
        reveal_strlit("4");
        reveal_strlit("5");
        reveal_strlit("6");
        reveal_strlit("7");
        reveal_strlit("8");
    }
    let file: &str = if x == 0 {
        "a"
    } else if x == 1 {
        "b"
    } else if x == 2 {
        "c"
    } else if x == 3 {
        "d"
    } else if x == 4 {
        "e"
    } else if x == 5 {
        "f"
    } else if x == 6 {
        "g"
    } else {
        "h"
    };
    let rank: &str = if y == 0 {
        "1"
    } else if y == 1 {
        "2"
    } else if y == 2 {
        "3"
    } else if y == 3 {
        "4"
    } else if y == 4 {
        "5"
    } else if y == 5 {
        "6"
    } else if y == 6 {
        "7"
    } else {
        "8"
    };
    let mut s = String::from_str(file);
    s.append(rank);
    assert(s@ =~= text_of_square(Square { x: x as int, y: y as int }));
    s
}

impl Move {
    /// Both squares of the move lie on the board.
    pub open spec fn on_board(self) -> bool {
        self@.from.on_board() && self@.to.on_board()
    }

    /// Create a basic new Move (a to b, nothing special).
    pub fn simple_new(from: Cord, to: Cord) -> (m: Move)
        ensures
            m@ == (MoveView { from: sq(from), to: sq(to), piece: None }),
            m.from == from,
            m.to == to,
    {
        Move { from: from, to: to, piece: None }
    }

    /// Read a move from the characters of its long algebraic notation; `None`
    /// for a text that is no such notation.
    pub fn from_chars(chars: &Vec<char>) -> (r: Option<Move>)
        ensures
            r is Some == move_of_text(chars@) is Some,
            r is Some ==> r->0@ == move_of_text(chars@)->0,
            r is Some ==> r->0.on_board(),
    {
        if chars.len() != 4 && chars.len() != 5 {
            return None;
        }
        let from_x = parse_file(chars[0]);
        let from_y = parse_rank(chars[1]);
        let to_x = parse_file(chars[2]);
        let to_y = parse_rank(chars[3]);
        proof {
            let s = chars@;
            assert(s.subrange(0, 2).len() == 2);
            assert(s.subrange(0, 2)[0] == s[0] && s.subrange(0, 2)[1] == s[1]);
            assert(s.subrange(2, 4).len() == 2);
            assert(s.subrange(2, 4)[0] == s[2] && s.subrange(2, 4)[1] == s[3]);
        }
        if from_x.is_none() || from_y.is_none() || to_x.is_none() || to_y.is_none() {
            return None;
        }
        let mut piece: Option<Piece> = None;
        if chars.len() == 5 {
            match parse_promotion(chars[4]) {
                Some(kind) => {
                    let color = if from_y.unwrap() == 6 {
                        Color::White
                    } else {
                        Color::Black
                    };
                    piece = Some(Piece { piece_type: kind, color: color });
                },
                None => {
                    return None;
                },
            }
        }
        Some(
            Move {
                from: cord(from_x.unwrap(), from_y.unwrap()),
                to: cord(to_x.unwrap(), to_y.unwrap()),
                piece: piece,
            },
        )
    }

    /// Read a move in long algebraic notation, such as `a2a4` or `a7a8q`;
    /// `None` for a text that is no such notation.
    pub fn parse_long_algebraic_notation(notation: &str) -> (r: Option<Move>)
        ensures
            r is Some == move_of_text(notation@) is Some,
            r is Some ==> r->0@ == move_of_text(notation@)->0,
            r is Some ==> r->0.on_board(),
    {
        let chars = chars_of(notation);
        Move::from_chars(&chars)
    }

    /// Load a move from the long algebraic notation.
    ///
    /// Examples of long algebraic notation:
    /// a2a4 (white pawn from a2 to a4)
    /// a7a8q (white pawn from a7 to a8 promoting to queen)
    pub fn from_long_algebraic_notation(notation: String) -> (m: Move)
        requires
            move_of_text(notation@) is Some,
        ensures
            m@ == move_of_text(notation@)->0,
            m.on_board(),
    {
        match Move::parse_long_algebraic_notation(notation.as_str()) {
            Some(m) => m,
            None => unreached(),
        }
    }

    /// Determine what type of move this move is: a castle, a promotion, an
    /// en-passant capture or a standard move.
    pub fn get_move_type(
        &self,
        castling: Option<&Vec<Piece>>,
        en_passant_target_square: Option<Cord>,
        piece_type: Option<PieceType>,
    ) -> (r: (MoveType, Option<Piece>))
        ensures
            r == classify(
                self@,
                match castling {
                    Some(v) => Some(v@),
                    None => None,
                },
                sq_opt(en_passant_target_square),
                piece_type,
            ),
    {
        if self.piece.is_some() {
            if self.from[1] == 6 || self.from[1] == 1 {
                return (MoveType::Promote, self.piece);
            }
        }
        if castling.is_some() && self.from[0] == 4 && (self.from[1] == 0 || self.from[1] == 7) {
            let rights = castling.unwrap();
            let color = if self.from[1] == 0 {
                Color::White
            } else {
                Color::Black
            };
            let king = Piece { piece_type: PieceType::King, color: color };
            let queen = Piece { piece_type: PieceType::Queen, color: color };
            if (self.to[0] == 6 || self.to[0] == 7) && contains_piece(rights, king) {
                return (MoveType::Castle, Some(king));
            } else if (self.to[0] == 2 || self.to[0] == 0) && contains_piece(rights, queen) {
                return (MoveType::Castle, Some(queen));
            }
        }
        match (en_passant_target_square, piece_type) {
            (Some(target), Some(kind)) => {
                if kind == PieceType::Pawn && same_square(target, self.to) {
                    return (MoveType::EnPassant, None);
                }
            },
            _ => {},
        }
        (MoveType::Standard, None)
    }

    /// Dump the move to long algebraic notation.
    ///
    /// Examples of long algebraic notation:
    /// a2a4 (white pawn from a2 to a4)
    /// a7a8q (white pawn from a7 to a8 promoting to queen)
    pub fn long_algebraic_notation(&self) -> (s: String)
        requires
            self.on_board(),
        ensures
            s@ == text_of_move(self@),
    {
        let mut s = square_text(self.from[0], self.from[1]);
        let to = square_text(self.to[0], self.to[1]);
        s.append(to.as_str());
        proof {
            reveal_strlit("k");
            reveal_strlit("q");
            reveal_strlit("p");
            reveal_strlit("n");
            reveal_strlit("r");
            reveal_strlit("b");
            reveal_strlit("");
        }
        let promotion: &str = match self.get_move_type(None, None, None).0 {
            MoveType::Promote => match self.piece {
                Some(p) => match p.piece_type {
                    PieceType::King => "k",
                    PieceType::Queen => "q",
                    PieceType::Pawn => "p",
                    PieceType::Knight => "n",
                    PieceType::Rook => "r",
                    PieceType::Bishop => "b",
                },
                None => "",
            },
            _ => "",
        };
        s.append(promotion);
        assert(s@ =~= text_of_move(self@));
        s
    }

    /// A short description of the move for the console, such as
    /// `<Move e2e4>`.
    pub fn repr(&self) -> (s: String)
        requires
            self.on_board(),
        ensures
            s@ == "<Move "@ + text_of_move(self@) + ">"@,
    {
        let mut s = String::from_str("<Move ");
        let text = self.long_algebraic_notation();
        s.append(text.as_str());
        s.append(">");
        s
    }
}

/// Writing a move down and reading it again gives the text back: for every
/// text `s` in long algebraic notation, the notation of the move that `s`
/// names is `s`, provided that a text with a promotion letter starts on the
/// second or the seventh rank, the only ranks from which a move is written
/// with one.
pub proof fn lemma_notation_round_trip(s: Seq<char>)
    requires
        move_of_text(s) is Some,
        s.len() == 5 ==> (s[1] == '2' || s[1] == '7'),
    ensures
        text_of_move(move_of_text(s)->0) == s,
{
    let m = move_of_text(s)->0;
    assert(s.subrange(0, 2)[0] == s[0] && s.subrange(0, 2)[1] == s[1]);
    assert(s.subrange(2, 4)[0] == s[2] && s.subrange(2, 4)[1] == s[3]);
    assert(text_of_move(m) =~= s);
}

/// Reading a move's notation gives the move back: for every move between
/// squares of the board that names no piece, or is the promotion of a pawn to
/// a queen, rook, bishop or knight of its colour, the text of the move names
/// that move.
pub proof fn lemma_notation_read_back(m: MoveView)
    requires
        m.from.on_board(),
        m.to.on_board(),
        m.piece is Some ==> is_promotion(m) && m.piece->0.color == promoter(m.from.y) && (
        m.piece->0.piece_type == PieceType::Queen || m.piece->0.piece_type == PieceType::Rook
            || m.piece->0.piece_type == PieceType::Bishop || m.piece->0.piece_type
            == PieceType::Knight),
    ensures
        move_of_text(text_of_move(m)) == Some(m),
{
    let s = text_of_move(m);
    assert(s.subrange(0, 2) =~= text_of_square(m.from));
    assert(s.subrange(2, 4) =~= text_of_square(m.to));
}

/// A king's move from e1 or e8 to the a- or h-file is a castle whenever the
/// right for that side of the board is among the castling rights: the
/// king-side right for the h-file, the queen-side right for the a-file.
pub proof fn lemma_castle_classified(
    m: MoveView,
    castling: Seq<Piece>,
    en_passant: Option<Square>,
    kind: Option<PieceType>,
)
    requires
        m.from.x == 4,
        m.from.y == 0 || m.from.y == 7,
        m.to.x == 0 || m.to.x == 7,
        m.to.x == 7 ==> castling.contains(right_of(PieceType::King, back_rank_color(m.from.y))),
        m.to.x == 0 ==> castling.contains(right_of(PieceType::Queen, back_rank_color(m.from.y))),
    ensures
        classify(m, Some(castling), en_passant, kind).0 == MoveType::Castle,
{
}

} // verus!
