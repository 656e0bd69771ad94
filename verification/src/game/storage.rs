//! Reading a position from Forsyth-Edwards Notation and writing it back.

use vstd::prelude::*;
use vstd::string::*;
use crate::consts::{Color, GamePhase, PieceType, MAX_PIECE_SCORE};
use crate::game::evaluation::{full_score, occupied, phase_for};
use crate::game::{Game, GameView};
use crate::move_struct::{square_of_text, square_text, text_of_square, MoveView};
use crate::piece::{piece_of_letter, Piece};
use crate::text::{
    all_digits,
    chars_of,
    decimal,
    has_no,
    is_digit,
    lemma_split_append,
    lemma_without_empty_keeps,
    parse_number,
    separates,
    split,
    split_chars,
    split_words,
    texts,
    words,
};
use crate::types::{at, board_view, get_square, set_square, Board, Cord, Square};
use crate::utils::square_from_chars;

verus! {

/// A run of `n` empty squares.
pub open spec fn empties(n: int) -> Seq<Option<Piece>> {
    Seq::new(n as nat, |i: int| None::<Piece>)
}

/// The squares that the text of one rank describes, from the a-file on: a
/// letter is a piece, a digit from 1 to 8 that many empty squares. `None` for
/// a text with any other character.
pub open spec fn rank_squares(s: Seq<char>) -> Option<Seq<Option<Piece>>>
    decreases s.len(),
{
    if s.len() == 0 {
        Some(Seq::empty())
    } else {
        match rank_squares(s.drop_last()) {
            None => None,
            Some(before) => {
                let c = s.last();
                if '1' <= c <= '8' {
                    Some(before + empties(c as int - '0' as int))
                } else if piece_of_letter(c) is Some {
                    Some(before.push(piece_of_letter(c)))
                } else {
                    None
                }
            },
        }
    }
}

/// The text describes a rank of exactly eight squares.
pub open spec fn rank_ok(s: Seq<char>) -> bool {
    rank_squares(s) is Some && rank_squares(s)->0.len() == 8
}

/// The board that the first field of a position's notation describes: eight
/// ranks of eight squares, separated by `/`, the eighth rank first. `None`
/// for any other text.
pub open spec fn board_of_text(s: Seq<char>) -> Option<Seq<Option<Piece>>> {
    let ranks = split(s, Some('/'));
    if ranks.len() == 8 && (forall|y: int| 0 <= y < 8 ==> rank_ok(#[trigger] ranks[y])) {
        Some(Seq::new(64, |i: int| rank_squares(ranks[7 - i / 8])->0[i % 8]))
    } else {
        None
    }
}

/// The side to move that a text names: `w` or `b`.
pub open spec fn side_of_text(s: Seq<char>) -> Option<Color> {
    if s.len() == 1 && s[0] == 'w' {
        Some(Color::White)
    } else if s.len() == 1 && s[0] == 'b' {
        Some(Color::Black)
    } else {
        None
    }
}

/// Whether a letter names a castling right.
pub open spec fn is_right_letter(c: char) -> bool {
    c == 'K' || c == 'Q' || c == 'k' || c == 'q'
}

/// The castling rights that a text names: none for `-`, and else one for
/// each of its one to four letters out of `KQkq`, none of them twice.
pub open spec fn rights_of_text(s: Seq<char>) -> Option<Seq<Piece>> {
    if s.len() == 1 && s[0] == '-' {
        Some(Seq::empty())
    } else if 1 <= s.len() <= 4 && (forall|i: int| 0 <= i < s.len() ==> is_right_letter(#[trigger] s[i]))
        && s.no_duplicates() {
        Some(Seq::new(s.len(), |i: int| piece_of_letter(s[i])->0))
    } else {
        None
    }
}

/// The en-passant target that a text names: none for `-`, else a square.
pub open spec fn target_of_text(s: Seq<char>) -> Option<Option<Square>> {
    if s.len() == 1 && s[0] == '-' {
        Some(None)
    } else if square_of_text(s) is Some {
        Some(square_of_text(s))
    } else {
        None
    }
}

/// The move number that a text writes: a decimal number that fits the
/// machine.
pub open spec fn count_of_text(s: Seq<char>) -> Option<nat> {
    if s.len() > 0 && all_digits(s) && decimal(s) <= usize::MAX {
        Some(decimal(s))
    } else {
        None
    }
}

/// The position that a text in Forsyth-Edwards Notation describes.
///
/// The text holds at least six words: the board, the side to move, the
/// castling rights, the en-passant target, the half-move clock, which is not
/// read, and the move number. What follows them is not read either. The
/// position has no history, its phase is what its pieces and its move number
/// make of the opening phase, and its score is the score of its board in that
/// phase, counted from scratch. `None` for any other text.
pub open spec fn game_of_fen(s: Seq<char>) -> Option<GameView> {
    let fields = words(s);
    if fields.len() >= 6 && board_of_text(fields[0]) is Some && side_of_text(fields[1]) is Some
        && rights_of_text(fields[2]) is Some && target_of_text(fields[3]) is Some && count_of_text(
        fields[5],
    ) is Some {
        let board = board_of_text(fields[0])->0;
        let fullmove = count_of_text(fields[5])->0;
        let phase = phase_for(
            occupied(board),
            occupied(board.subrange(16, 48)),
            fullmove,
            GamePhase::StartGame,
        );
        Some(
            GameView {
                board,
                on_turn: side_of_text(fields[1])->0,
                castle: rights_of_text(fields[2])->0,
                en_passant: target_of_text(fields[3])->0,
                moves: Seq::empty(),
                score_white: full_score(board, phase),
                fullmove_counter: fullmove,
                game_phase: phase,
            },
        )
    } else {
        None
    }
}

/// The digit that writes a run of one to nine empty squares.
pub open spec fn run_char(run: int) -> char {
    ('0' as int + run) as char
}

/// The digit of a run of empty squares, and nothing for no run.
pub open spec fn run_text(run: int) -> Seq<char> {
    if run > 0 {
        seq![run_char(run)]
    } else {
        Seq::empty()
    }
}

/// The number of empty squares at the end of a rank.
pub open spec fn trailing_empties(squares: Seq<Option<Piece>>) -> int
    decreases squares.len(),
{
    if squares.len() == 0 {
        0
    } else if squares.last() is None {
        trailing_empties(squares.drop_last()) + 1
    } else {
        0
    }
}

/// The text of a rank up to its last piece: for each piece the length of the
/// run of empty squares before it, if there is one, and its letter.
pub open spec fn written_pieces(squares: Seq<Option<Piece>>) -> Seq<char>
    decreases squares.len(),
{
    if squares.len() == 0 {
        Seq::empty()
    } else {
        match squares.last() {
            Some(p) => written_pieces(squares.drop_last()) + run_text(
                trailing_empties(squares.drop_last()),
            ) + seq![p.letter()],
            None => written_pieces(squares.drop_last()),
        }
    }
}

/// The text of a rank: its pieces with the runs of empty squares before
/// them, and the length of the run of empty squares at its end, if there is
/// one.
pub open spec fn rank_text(squares: Seq<Option<Piece>>) -> Seq<char> {
    written_pieces(squares) + run_text(trailing_empties(squares))
}

/// The text of the ranks of a board from rank `y` down to the first, with a
/// `/` between two ranks.
pub open spec fn board_text_from(bv: Seq<Option<Piece>>, y: int) -> Seq<char>
    decreases y,
{
    if y <= 0 {
        rank_text(bv.subrange(0, 8))
    } else {
        rank_text(bv.subrange(y * 8, y * 8 + 8)) + seq!['/'] + board_text_from(bv, y - 1)
    }
}

/// The text of a board: its ranks from the eighth down to the first.
pub open spec fn board_text(bv: Seq<Option<Piece>>) -> Seq<char> {
    board_text_from(bv, 7)
}

/// The letters of a list of pieces.
pub open spec fn letters(pieces: Seq<Piece>) -> Seq<char> {
    Seq::new(pieces.len(), |i: int| pieces[i].letter())
}

/// The text of the castling rights: their letters, or `-` for none.
pub open spec fn rights_text(rights: Seq<Piece>) -> Seq<char> {
    if rights.len() > 0 {
        letters(rights)
    } else {
        seq!['-']
    }
}

/// The letter of the side to move.
pub open spec fn side_text(color: Color) -> Seq<char> {
    match color {
        Color::White => seq!['w'],
        Color::Black => seq!['b'],
    }
}

/// The text of the en-passant target: the name of its square, or `-` where
/// there is none or where it does not lie on the board.
pub open spec fn target_text(target: Option<Square>) -> Seq<char> {
    match target {
        Some(t) => if t.on_board() {
            text_of_square(t)
        } else {
            seq!['-']
        },
        None => seq!['-'],
    }
}

/// The text of a position in Forsyth-Edwards Notation. Board, side to move,
/// castling rights and en-passant target are written out; the half-move
/// clock and the move number are always written as `0` and `1`.
pub open spec fn fen_of_game(g: GameView) -> Seq<char> {
    board_text(g.board) + seq![' '] + side_text(g.on_turn) + seq![' '] + rights_text(g.castle)
        + seq![' '] + target_text(g.en_passant) + seq![' ', '0', ' ', '1']
}

/// Reads the squares of one rank.
fn parse_rank_text(text: &Vec<char>) -> (r: Option<Vec<Option<Piece>>>)
    ensures
        r is Some == rank_squares(text@) is Some,
        r is Some ==> r->0@ == rank_squares(text@)->0,
{
    let mut squares: Vec<Option<Piece>> = Vec::new();
    let mut i: usize = 0;
    assert(text@.take(0) =~= Seq::<char>::empty());
    while i < text.len()
        invariant
            i <= text.len(),
            rank_squares(text@.take(i as int)) == Some(squares@),
        decreases text.len() - i,
    {
        let c = text[i];
        proof {
            assert(text@.take(i + 1).drop_last() =~= text@.take(i as int));
            assert(text@.take(i + 1).last() == c);
        }
        if '1' <= c && c <= '8' {
            let n: usize = (c as u32 - '0' as u32) as usize;
            let ghost before = squares@;
            let mut k: usize = 0;
            while k < n
                invariant
                    k <= n,
                    squares@ == before + empties(k as int),
                decreases n - k,
            {
                squares.push(None);
                assert(squares@ =~= before + empties(k + 1));
                k += 1;
            }
        } else {
            match Piece::parse_letter(c) {
                Some(p) => {
                    squares.push(Some(p));
                },
                None => {
                    proof {
                        lemma_rank_squares_prefix(text@, i + 1);
                    }
                    return None;
                },
            }
        }
        i += 1;
    }
    assert(text@.take(i as int) =~= text@);
    Some(squares)
}

/// A text describes no rank if one of its beginnings describes none.
pub proof fn lemma_rank_squares_prefix(s: Seq<char>, n: int)
    requires
        0 <= n <= s.len(),
        rank_squares(s.take(n)) is None,
    ensures
        rank_squares(s) is None,
    decreases s.len() - n,
{
    if n < s.len() {
        assert(s.take(n + 1).drop_last() =~= s.take(n));
        lemma_rank_squares_prefix(s, n + 1);
    } else {
        assert(s.take(n) =~= s);
    }
}

/// Reads the board.
fn parse_board(text: &Vec<char>) -> (r: Option<Board>)
    ensures
        r is Some == board_of_text(text@) is Some,
        r is Some ==> board_view(r->0) == board_of_text(text@)->0,
{
    let ranks = split_chars(text, Some('/'));
    let ghost rs = texts(ranks@);
    if ranks.len() != 8 {
        return None;
    }
    let mut board: Board = [[None;8];8];
    let mut y: usize = 0;
    while y < 8
        invariant
            y <= 8,
            ranks.len() == 8,
            rs == texts(ranks@),
            rs == split(text@, Some('/')),
            forall|j: int| 8 - y <= j < 8 ==> rank_ok(#[trigger] rs[j]),
            forall|i: int|
                0 <= i < y * 8 ==> #[trigger] board_view(board)[i] == rank_squares(
                    rs[7 - i / 8],
                )->0[i % 8],
        decreases 8 - y,
    {
        let row = parse_rank_text(&ranks[7 - y]);
        assert(rs[7 - y] == ranks[7 - y]@);
        match row {
            Some(squares) => {
                if squares.len() != 8 {
                    assert(!rank_ok(rs[7 - y]));
                    return None;
                }
                let mut x: usize = 0;
                while x < 8
                    invariant
                        x <= 8,
                        y < 8,
                        squares.len() == 8,
                        Some(squares@) == rank_squares(rs[7 - y]),
                        forall|i: int|
                            0 <= i < y * 8 + x ==> #[trigger] board_view(board)[i] == rank_squares(
                                rs[7 - i / 8],
                            )->0[i % 8],
                    decreases 8 - x,
                {
                    let ghost old_view = board_view(board);
                    set_square(&mut board, x, y, squares[x]);
                    assert forall|i: int| 0 <= i < y * 8 + x + 1 implies #[trigger] board_view(
                        board,
                    )[i] == rank_squares(rs[7 - i / 8])->0[i % 8] by {
                        if i < y * 8 + x {
                            assert(board_view(board)[i] == old_view[i]);
                        }
                    }
                    x += 1;
                }
            },
            None => {
                assert(!rank_ok(rs[7 - y]));
                return None;
            },
        }
        y += 1;
    }
    assert(board_view(board) =~= board_of_text(text@)->0);
    Some(board)
}

/// Reads the side to move.
fn parse_side(text: &Vec<char>) -> (r: Option<Color>)
    ensures
        r == side_of_text(text@),
{
    if text.len() == 1 && text[0] == 'w' {
        Some(Color::White)
    } else if text.len() == 1 && text[0] == 'b' {
        Some(Color::Black)
    } else {
        None
    }
}

/// Reads the castling rights.
fn parse_rights(text: &Vec<char>) -> (r: Option<Vec<Piece>>)
    ensures
        r is Some == rights_of_text(text@) is Some,
        r is Some ==> r->0@ == rights_of_text(text@)->0,
{
    let mut rights: Vec<Piece> = Vec::new();
    if text.len() == 1 && text[0] == '-' {
        return Some(rights);
    }
    if text.len() < 1 || text.len() > 4 {
        return None;
    }
    let mut i: usize = 0;
    while i < text.len()
        invariant
            i <= text.len(),
            1 <= text.len() <= 4,
            !(text.len() == 1 && text[0] == '-'),
            rights.len() == i,
            forall|j: int| 0 <= j < i ==> is_right_letter(#[trigger] text@[j]),
            forall|j: int| 0 <= j < i ==> #[trigger] rights@[j] == piece_of_letter(text@[j])->0,
            forall|j: int, k: int| 0 <= j < k < i ==> text@[j] != text@[k],
        decreases text.len() - i,
    {
        let c = text[i];
        if !(c == 'K' || c == 'Q' || c == 'k' || c == 'q') {
            return None;
        }
        let mut j: usize = 0;
        while j < i
            invariant
                j <= i < text.len(),
                c == text@[i as int],
                forall|k: int| 0 <= k < j ==> text@[k] != c,
            decreases i - j,
        {
            if text[j] == c {
                assert(!text@.no_duplicates());
                return None;
            }
            j += 1;
        }
        match Piece::parse_letter(c) {
            Some(p) => {
                rights.push(p);
            },
            None => {
                return None;
            },
        }
        i += 1;
    }
    assert(rights@ =~= rights_of_text(text@)->0);
    Some(rights)
}

/// Reads the en-passant target.
fn parse_target(text: &Vec<char>) -> (r: Option<Option<Cord>>)
    ensures
        r is Some == target_of_text(text@) is Some,
        r is Some ==> crate::move_struct::sq_opt(r->0) == target_of_text(text@)->0,
{
    if text.len() == 1 && text[0] == '-' {
        return Some(None);
    }
    match square_from_chars(text) {
        Some(c) => Some(Some(c)),
        None => None,
    }
}

/// The digit of a run of one to eight empty squares.
fn run_digit(run: usize) -> (s: &'static str)
    requires
        1 <= run <= 8,
    ensures
        s@ == run_text(run as int),
{
    proof {
        reveal_strlit("1");
        reveal_strlit("2");
        reveal_strlit("3");
        reveal_strlit("4");
        reveal_strlit("5");
        reveal_strlit("6");
        reveal_strlit("7");
        reveal_strlit("8");
    }
    let s: &'static str = if run == 1 {
        "1"
    } else if run == 2 {
        "2"
    } else if run == 3 {
        "3"
    } else if run == 4 {
        "4"
    } else if run == 5 {
        "5"
    } else if run == 6 {
        "6"
    } else if run == 7 {
        "7"
    } else {
        "8"
    };
    assert(s@ =~= run_text(run as int));
    s
}

impl Game {
    /// Reads a position from Forsyth-Edwards Notation; `None` for a text that
    /// is no such notation.
    pub fn parse_fen(fen_code: &str) -> (r: Option<Game>)
        ensures
            r is Some == game_of_fen(fen_code@) is Some,
            r is Some ==> r->0@ == game_of_fen(fen_code@)->0,
            r is Some ==> r->0@.score_is_exact(),
            r is Some ==> r->0@.is_decided() || -64 * MAX_PIECE_SCORE <= r->0.score_white <= 64
                * MAX_PIECE_SCORE,
    {
        let chars = chars_of(fen_code);
        let fields = split_words(&chars);
        assert(texts(fields@) == words(fen_code@));
        if fields.len() < 6 {
            return None;
        }
        assert(texts(fields@)[0] == fields[0]@);
        assert(texts(fields@)[1] == fields[1]@);
        assert(texts(fields@)[2] == fields[2]@);
        assert(texts(fields@)[3] == fields[3]@);
        assert(texts(fields@)[5] == fields[5]@);
        let board = match parse_board(&fields[0]) {
            Some(b) => b,
            None => {
                return None;
            },
        };
        let on_turn = match parse_side(&fields[1]) {
            Some(c) => c,
            None => {
                return None;
            },
        };
        let castle = match parse_rights(&fields[2]) {
            Some(r) => r,
            None => {
                return None;
            },
        };
        let target = match parse_target(&fields[3]) {
            Some(t) => t,
            None => {
                return None;
            },
        };
        let fullmove_counter = match parse_number(&fields[5]) {
            Some(n) => n,
            None => {
                return None;
            },
        };
        let mut new_game = Game {
            board: board,
            on_turn: on_turn,
            castle: castle,
            en_passant_target_square: target,
            score_white: 0,
            moves: Vec::new(),
            fullmove_counter: fullmove_counter,
            game_phase: GamePhase::StartGame,
        };
        assert(new_game@.moves =~= Seq::<MoveView>::empty());
        new_game.calculate_game_phase();
        new_game.calculate_board_score();
        Some(new_game)
    }

    /// Reads a position from Forsyth-Edwards Notation.
    pub fn from_fen(fen_code: String) -> (g: Game)
        requires
            game_of_fen(fen_code@) is Some,
        ensures
            g@ == game_of_fen(fen_code@)->0,
            g@.score_is_exact(),
            g@.is_decided() || -64 * MAX_PIECE_SCORE <= g.score_white <= 64 * MAX_PIECE_SCORE,
    {
        match Game::parse_fen(fen_code.as_str()) {
            Some(g) => g,
            None => unreached(),
        }
    }

    /// Writes one rank of the board at the end of a text.
    fn write_rank(&self, y: usize, out: &mut String)
        requires
            y < 8,
        ensures
            final(out)@ == old(out)@ + rank_text(self@.board.subrange(y * 8, y * 8 + 8)),
    {
        let ghost squares = self@.board.subrange(y * 8, y * 8 + 8);
        let ghost start = out@;
        let mut empty_spaces: usize = 0;
        let mut x: usize = 0;
        assert(squares.take(0) =~= Seq::<Option<Piece>>::empty());
        assert(out@ =~= start + written_pieces(squares.take(0)));
        while x < 8
            invariant
                x <= 8,
                y < 8,
                empty_spaces <= x,
                squares == self@.board.subrange(y * 8, y * 8 + 8),
                empty_spaces == trailing_empties(squares.take(x as int)),
                out@ == start + written_pieces(squares.take(x as int)),
            decreases 8 - x,
        {
            let ghost before = out@;
            proof {
                assert(squares[x as int] == self@.board[y * 8 + x]);
                assert(squares.take(x + 1).drop_last() =~= squares.take(x as int));
                assert(squares.take(x + 1).last() == squares[x as int]);
            }
            match get_square(&self.board, x, y) {
                Some(p) => {
                    if empty_spaces > 0 {
                        out.append(run_digit(empty_spaces));
                        empty_spaces = 0;
                    }
                    let letter = p.to_fen();
                    out.append(letter.as_str());
                    assert(out@ =~= start + written_pieces(squares.take(x + 1)));
                },
                None => {
                    empty_spaces += 1;
                },
            }
            x += 1;
        }
        assert(squares.take(8) =~= squares);
        let ghost before = out@;
        if empty_spaces > 0 {
            out.append(run_digit(empty_spaces));
        }
        assert(out@ =~= start + rank_text(squares));
    }

    /// Writes the position in Forsyth-Edwards Notation. An en-passant target
    /// that does not lie on the board is written as `-`.
    pub fn to_fen(&self) -> (s: String)
        ensures
            s@ == fen_of_game(self@),
    {
        let mut out = String::new();
        let mut y: usize = 8;
        proof {
            reveal_strlit("/");
            reveal_strlit("w");
            reveal_strlit("b");
            reveal_strlit("-");
            reveal_strlit(" ");
            reveal_strlit(" 0 1");
        }
        while y > 0
            invariant
                y <= 8,
                y > 0 ==> out@ + board_text_from(self@.board, y - 1) == board_text(self@.board),
                y == 0 ==> out@ == board_text(self@.board),
            decreases y,
        {
            y -= 1;
            let ghost before = out@;
            self.write_rank(y, &mut out);
            let ghost rank = rank_text(self@.board.subrange(y * 8, y * 8 + 8));
            if y != 0 {
                out.append("/");
                proof {
                    reveal_strlit("/");
                }
                assert(out@ =~= before + rank + seq!['/']);
                assert(board_text_from(self@.board, y as int) == rank + seq!['/'] + board_text_from(
                    self@.board,
                    y - 1,
                ));
                assert(out@ + board_text_from(self@.board, y - 1) =~= before + board_text_from(
                    self@.board,
                    y as int,
                ));
            } else {
                assert(self@.board.subrange(0, 8) =~= self@.board.subrange(y * 8, y * 8 + 8));
                assert(out@ =~= before + board_text_from(self@.board, 0));
            }
        }
        out.append(" ");
        match self.on_turn {
            Color::White => out.append("w"),
            Color::Black => out.append("b"),
        }
        out.append(" ");
        let ghost head = out@;
        if self.castle.len() > 0 {
            let mut i: usize = 0;
            while i < self.castle.len()
                invariant
                    i <= self.castle.len(),
                    out@ == head + letters(self.castle@.take(i as int)),
                decreases self.castle.len() - i,
            {
                let letter = self.castle[i].to_fen();
                out.append(letter.as_str());
                assert(letters(self.castle@.take(i + 1)) =~= letters(self.castle@.take(i as int))
                    + seq![self.castle@[i as int].letter()]);
                i += 1;
            }
            assert(self.castle@.take(i as int) =~= self.castle@);
        } else {
            out.append("-");
        }
        out.append(" ");
        match self.en_passant_target_square {
            Some(target) => {
                if target[0] < 8 && target[1] < 8 {
                    let name = square_text(target[0], target[1]);
                    out.append(name.as_str());
                } else {
                    out.append("-");
                }
            },
            None => {
                out.append("-");
            },
        }
        out.append(" 0 1");
        assert(out@ =~= fen_of_game(self@));
        out
    }
}

/// The pieces of a text put together again, with the separator between them.
pub open spec fn joined(pieces: Seq<Seq<char>>, sep: char) -> Seq<char>
    decreases pieces.len(),
{
    if pieces.len() == 0 {
        Seq::empty()
    } else if pieces.len() == 1 {
        pieces[0]
    } else {
        joined(pieces.drop_last(), sep) + seq![sep] + pieces.last()
    }
}

/// The text of a rank is canonical: it describes eight squares and never
/// writes a run of empty squares as two numbers.
pub open spec fn canonical_rank(r: Seq<char>) -> bool {
    rank_ok(r) && forall|i: int| 0 <= i < r.len() - 1 ==> !(is_digit(#[trigger] r[i]) && is_digit(
        r[i + 1],
    ))
}

/// The text of a position is canonical: it is its six words with single
/// blanks between them, its board has eight canonical ranks, its side to
/// move, castling rights and en-passant target are well formed, and its last
/// two words are `0` and `1`: half-move clock zero, move number one.
pub open spec fn canonical_fen(s: Seq<char>) -> bool {
    let fields = words(s);
    &&& fields.len() == 6
    &&& s == joined(fields, ' ')
    &&& split(fields[0], Some('/')).len() == 8
    &&& forall|y: int| 0 <= y < 8 ==> canonical_rank(#[trigger] split(fields[0], Some('/'))[y])
    &&& side_of_text(fields[1]) is Some
    &&& rights_of_text(fields[2]) is Some
    &&& target_of_text(fields[3]) is Some
    &&& fields[4] == seq!['0']
    &&& fields[5] == seq!['1']
}

/// Splitting a text and joining the pieces gives the text back.
pub proof fn lemma_join_split(s: Seq<char>, sep: char)
    ensures
        joined(split(s, Some(sep)), sep) == s,
    decreases s.len(),
{
    if s.len() > 0 {
        let before = split(s.drop_last(), Some(sep));
        lemma_join_split(s.drop_last(), sep);
        crate::text::lemma_split_nonempty(s.drop_last(), Some(sep));
        let now = split(s, Some(sep));
        if s.last() == sep {
            assert(now.drop_last() =~= before);
            assert(joined(now, sep) =~= s.drop_last() + seq![sep]);
            assert(s.drop_last() + seq![sep] =~= s);
        } else {
            let grown = before.last().push(s.last());
            assert(now.last() == grown);
            assert(now.drop_last() =~= before.drop_last());
            if before.len() == 1 {
                assert(now[0] == grown);
                assert(before[0] == s.drop_last());
                assert(grown =~= s);
            } else {
                assert(joined(now, sep) =~= joined(before.drop_last(), sep) + seq![sep]
                    + before.last() + seq![s.last()]);
                assert(joined(before, sep) + seq![s.last()] =~= s);
            }
        }
    } else {
        assert(split(s, Some(sep))[0] =~= s);
    }
}

/// Empty squares at the end of a rank add to its run of empty squares and
/// leave what is written of its pieces as it is.
pub proof fn lemma_more_empties(squares: Seq<Option<Piece>>, n: int)
    requires
        n >= 0,
    ensures
        trailing_empties(squares + empties(n)) == trailing_empties(squares) + n,
        written_pieces(squares + empties(n)) == written_pieces(squares),
    decreases n,
{
    if n == 0 {
        assert(squares + empties(0) =~= squares);
    } else {
        lemma_more_empties(squares, n - 1);
        let longer = squares + empties(n);
        assert(longer.drop_last() =~= squares + empties(n - 1));
        assert(longer.last() is None);
    }
}

/// Reading the beginning of a canonical rank and writing it gives that
/// beginning back; and a beginning that does not end in a number describes
/// squares that do not end in an empty one.
pub proof fn lemma_rank_prefix_round_trip(r: Seq<char>, n: int)
    requires
        rank_squares(r) is Some,
        forall|i: int| 0 <= i < r.len() - 1 ==> !(is_digit(#[trigger] r[i]) && is_digit(r[i + 1])),
        0 <= n <= r.len(),
    ensures
        rank_squares(r.take(n)) is Some,
        rank_text(rank_squares(r.take(n))->0) == r.take(n),
        n == 0 || !is_digit(r[n - 1]) ==> trailing_empties(rank_squares(r.take(n))->0) == 0,
        0 <= trailing_empties(rank_squares(r.take(n))->0) <= 8,
    decreases n,
{
    if n == 0 {
        assert(r.take(0) =~= Seq::<char>::empty());
        assert(rank_text(Seq::<Option<Piece>>::empty()) =~= Seq::<char>::empty());
    } else {
        lemma_rank_prefix_round_trip(r, n - 1);
        let shorter = r.take(n - 1);
        let here = r.take(n);
        assert(here.drop_last() =~= shorter);
        assert(here.last() == r[n - 1]);
        if rank_squares(here) is None {
            lemma_rank_squares_prefix(r, n);
        }
        let before = rank_squares(shorter)->0;
        let c = r[n - 1];
        if '1' <= c <= '8' {
            let run = c as int - '0' as int;
            if n >= 2 {
                assert(!(is_digit(r[n - 2]) && is_digit(r[n - 2 + 1])));
            }
            assert(trailing_empties(before) == 0);
            lemma_more_empties(before, run);
            assert(run_text(0) =~= Seq::<char>::empty());
            assert(written_pieces(before) =~= shorter);
            assert(rank_text(before + empties(run)) =~= shorter + seq![c]);
            assert(shorter + seq![c] =~= here);
        } else {
            let p = piece_of_letter(c)->0;
            let now = before.push(Some(p));
            assert(now.drop_last() =~= before);
            assert(now.last() == Some(p));
            assert(p.letter() == c);
            assert(run_text(0) =~= Seq::<char>::empty());
            assert(rank_text(now) =~= rank_text(before) + seq![c]);
            assert(shorter + seq![c] =~= here);
        }
    }
}

/// Reading a canonical rank and writing it gives the rank back.
pub proof fn lemma_rank_round_trip(r: Seq<char>)
    requires
        canonical_rank(r),
    ensures
        rank_text(rank_squares(r)->0) == r,
{
    lemma_rank_prefix_round_trip(r, r.len() as int);
    assert(r.take(r.len() as int) =~= r);
}

/// A piece put before a list of pieces is joined to them by a separator.
pub proof fn lemma_joined_prepend(first: Seq<char>, rest: Seq<Seq<char>>, sep: char)
    requires
        rest.len() > 0,
    ensures
        joined(seq![first] + rest, sep) == first + seq![sep] + joined(rest, sep),
    decreases rest.len(),
{
    let all = seq![first] + rest;
    assert(all.last() == rest.last());
    if rest.len() == 1 {
        assert(all.drop_last() =~= seq![first]);
        assert(seq![first].len() == 1 && seq![first][0] == first);
        assert(joined(seq![first], sep) == first);
        assert(joined(rest, sep) == rest[0]);
        assert(joined(all, sep) == joined(all.drop_last(), sep) + seq![sep] + all.last());
    } else {
        assert(all.drop_last() =~= seq![first] + rest.drop_last());
        lemma_joined_prepend(first, rest.drop_last(), sep);
        assert(joined(all, sep) =~= first + seq![sep] + joined(rest, sep));
    }
}

/// The text of the ranks of a board from rank `y` down is the text of those
/// ranks joined by `/`, where each rank of the board is written as the rank
/// of the list that stands for it.
pub proof fn lemma_board_text_joins(bv: Seq<Option<Piece>>, ranks: Seq<Seq<char>>, y: int)
    requires
        ranks.len() == 8,
        0 <= y <= 7,
        forall|k: int|
            0 <= k < 8 ==> rank_text(#[trigger] bv.subrange(k * 8, k * 8 + 8)) == ranks[7 - k],
    ensures
        board_text_from(bv, y) == joined(ranks.skip(7 - y), '/'),
    decreases y,
{
    let row = bv.subrange(y * 8, y * 8 + 8);
    assert(rank_text(row) == ranks[7 - y]);
    if y == 0 {
        assert(bv.subrange(0, 8) =~= row);
        assert(ranks.skip(7) =~= seq![ranks[7]]);
    } else {
        lemma_board_text_joins(bv, ranks, y - 1);
        assert(ranks.skip(7 - y) =~= seq![ranks[7 - y]] + ranks.skip(8 - y));
        lemma_joined_prepend(ranks[7 - y], ranks.skip(8 - y), '/');
    }
}

/// Reading a board of eight canonical ranks and writing it gives the text
/// back.
pub proof fn lemma_board_round_trip(b: Seq<char>)
    requires
        split(b, Some('/')).len() == 8,
        forall|y: int| 0 <= y < 8 ==> canonical_rank(#[trigger] split(b, Some('/'))[y]),
    ensures
        board_of_text(b) is Some,
        board_text(board_of_text(b)->0) == b,
{
    let ranks = split(b, Some('/'));
    assert forall|y: int| 0 <= y < 8 implies rank_ok(#[trigger] ranks[y]) by {
        assert(canonical_rank(ranks[y]));
    }
    let bv = board_of_text(b)->0;
    assert forall|y: int| 0 <= y < 8 implies rank_text(#[trigger] bv.subrange(y * 8, y * 8 + 8))
        == ranks[7 - y] by {
        let row = bv.subrange(y * 8, y * 8 + 8);
        let squares = rank_squares(ranks[7 - y])->0;
        assert(canonical_rank(ranks[7 - y]));
        assert forall|x: int| 0 <= x < 8 implies row[x] == squares[x] by {
            assert((y * 8 + x) / 8 == y && (y * 8 + x) % 8 == x);
        }
        assert(row =~= squares);
        lemma_rank_round_trip(ranks[7 - y]);
    }
    lemma_join_split(b, '/');
    lemma_board_text_joins(bv, ranks, 7);
    assert(ranks.skip(0) =~= ranks);
    assert(board_text(bv) =~= joined(ranks, '/'));
}

/// Reading a position and writing it gives the text back: for every
/// canonical text of a position, the text of the position that it describes
/// is that text.
pub proof fn lemma_fen_round_trip(s: Seq<char>)
    requires
        canonical_fen(s),
    ensures
        game_of_fen(s) is Some,
        fen_of_game(game_of_fen(s)->0) == s,
{
    let fields = words(s);
    lemma_board_round_trip(fields[0]);
    assert(target_text(target_of_text(fields[3])->0) =~= fields[3]);
    reveal_with_fuel(decimal, 2);
    assert(fields[5].drop_last() =~= Seq::<char>::empty());
    assert(decimal(fields[5]) == 1);
    assert(all_digits(fields[5]));
    let g = game_of_fen(s)->0;
    let rights = fields[2];
    if !(rights.len() == 1 && rights[0] == '-') {
        assert(letters(g.castle) =~= rights);
    } else {
        assert(rights =~= seq!['-']);
    }
    assert(side_text(g.on_turn) =~= fields[1]);
    reveal_with_fuel(joined, 7);
    assert(joined(fields, ' ') =~= fields[0] + seq![' '] + fields[1] + seq![' '] + fields[2] + seq![
        ' ',
    ] + fields[3] + seq![' '] + fields[4] + seq![' '] + fields[5]);
    assert(fen_of_game(g) =~= joined(fields, ' '));
}

/// Joining pieces that hold no separator and splitting the text gives the
/// pieces back.
pub proof fn lemma_split_join(pieces: Seq<Seq<char>>, c: char, sep: Option<char>)
    requires
        pieces.len() >= 1,
        separates(sep, c),
        forall|i: int| 0 <= i < pieces.len() ==> has_no(#[trigger] pieces[i], sep),
    ensures
        split(joined(pieces, c), sep) == pieces,
    decreases pieces.len(),
{
    let none = Seq::<char>::empty();
    assert(split(none, sep) =~= seq![none]);
    if pieces.len() == 1 {
        assert(has_no(pieces[0], sep));
        lemma_split_append(none, pieces[0], sep);
        assert(none + pieces[0] =~= pieces[0]);
        assert(seq![none].drop_last().push(none + pieces[0]) =~= pieces);
    } else {
        let init = pieces.drop_last();
        let last = pieces.last();
        assert forall|i: int| 0 <= i < init.len() implies has_no(#[trigger] init[i], sep) by {
            assert(init[i] == pieces[i]);
        }
        lemma_split_join(init, c, sep);
        let head = joined(init, c) + seq![c];
        assert(head.drop_last() =~= joined(init, c));
        assert(head.last() == c);
        assert(split(head, sep) == init.push(none));
        assert(has_no(pieces[pieces.len() - 1], sep));
        lemma_split_append(head, last, sep);
        assert(init.push(none).drop_last() =~= init);
        assert(none + last =~= last);
        assert(init.push(last) =~= pieces);
        assert(joined(pieces, c) == head + last);
    }
}

/// A joined text holds no separator if its pieces hold none and the joining
/// character is none.
pub proof fn lemma_joined_has_no(pieces: Seq<Seq<char>>, c: char, sep: Option<char>)
    requires
        !separates(sep, c),
        forall|i: int| 0 <= i < pieces.len() ==> has_no(#[trigger] pieces[i], sep),
    ensures
        has_no(joined(pieces, c), sep),
    decreases pieces.len(),
{
    if pieces.len() == 1 {
        assert(has_no(pieces[0], sep));
    } else if pieces.len() > 1 {
        let init = pieces.drop_last();
        assert forall|i: int| 0 <= i < init.len() implies has_no(#[trigger] init[i], sep) by {
            assert(init[i] == pieces[i]);
        }
        lemma_joined_has_no(init, c, sep);
        assert(has_no(pieces[pieces.len() - 1], sep));
        let all = joined(pieces, c);
        let head = joined(init, c);
        assert forall|i: int| 0 <= i < all.len() implies !separates(sep, #[trigger] all[i]) by {
            if i < head.len() {
                assert(all[i] == head[i]);
            } else if i > head.len() {
                assert(all[i] == pieces.last()[i - head.len() - 1]);
            }
        }
    }
}

/// Whether a character may stand in the text of a rank: the letter of a
/// piece or a digit from 1 to 8.
pub open spec fn is_rank_char(c: char) -> bool {
    piece_of_letter(c) is Some || '1' <= c <= '8'
}

/// Every character of a text may stand in the text of a rank.
pub open spec fn all_rank_chars(s: Seq<char>) -> bool {
    forall|i: int| 0 <= i < s.len() ==> is_rank_char(#[trigger] s[i])
}

/// The run of empty squares at the end of a rank is no longer than the rank,
/// the squares of the run are empty, and the square before it is not.
pub proof fn lemma_trailing_empties(squares: Seq<Option<Piece>>)
    ensures
        0 <= trailing_empties(squares) <= squares.len(),
        forall|i: int|
            squares.len() - trailing_empties(squares) <= i < squares.len() ==> (
            #[trigger] squares[i]) is None,
        trailing_empties(squares) < squares.len() ==> squares[squares.len() - trailing_empties(
            squares,
        ) - 1] is Some,
    decreases squares.len(),
{
    if squares.len() > 0 {
        lemma_trailing_empties(squares.drop_last());
        if squares.last() is None {
            assert forall|i: int|
                squares.len() - trailing_empties(squares) <= i < squares.len() implies (
            #[trigger] squares[i]) is None by {
                if i < squares.len() - 1 {
                    assert(squares.drop_last()[i] == squares[i]);
                }
            }
            if trailing_empties(squares) < squares.len() {
                let k = squares.len() - trailing_empties(squares) - 1;
                assert(squares.drop_last()[k] == squares[k]);
            }
        }
    }
}

/// Writing the pieces of a rank of no more than eight squares and reading
/// the text gives the squares up to the last piece back; and the text is made
/// of letters and digits from 1 to 8.
pub proof fn lemma_written_pieces_read_back(squares: Seq<Option<Piece>>)
    requires
        squares.len() <= 8,
    ensures
        rank_squares(written_pieces(squares)) == Some(
            squares.take(squares.len() - trailing_empties(squares)),
        ),
        all_rank_chars(written_pieces(squares)),
    decreases squares.len(),
{
    lemma_trailing_empties(squares);
    if squares.len() == 0 {
        assert(squares.take(0) =~= Seq::<Option<Piece>>::empty());
    } else {
        let rest = squares.drop_last();
        lemma_written_pieces_read_back(rest);
        lemma_trailing_empties(rest);
        let run = trailing_empties(rest);
        let kept = rest.take(rest.len() - run);
        match squares.last() {
            None => {
                assert(squares.take(squares.len() - trailing_empties(squares)) =~= kept);
            },
            Some(p) => {
                let before = written_pieces(rest);
                let text = written_pieces(squares);
                let middle = before + run_text(run);
                assert(text == middle + seq![p.letter()]);
                assert(text.drop_last() =~= middle);
                assert(text.last() == p.letter());
                assert(piece_of_letter(p.letter()) == Some(p));
                assert(!('1' <= p.letter() <= '8'));
                if run == 0 {
                    assert(middle =~= before);
                    assert(kept =~= rest);
                } else {
                    assert(middle.drop_last() =~= before);
                    assert(middle.last() == run_char(run));
                    assert('1' <= run_char(run) <= '8');
                    assert(run_char(run) as int - '0' as int == run);
                    assert(kept + empties(run) =~= rest);
                }
                assert(rank_squares(middle) == Some(rest));
                assert(rest.push(Some(p)) =~= squares);
                assert(squares.take(squares.len() as int) =~= squares);
                assert forall|i: int| 0 <= i < text.len() implies is_rank_char(
                    #[trigger] text[i],
                ) by {
                    if i < before.len() {
                        assert(text[i] == before[i]);
                    }
                }
            },
        }
    }
}

/// Writing a rank of eight squares and reading the text gives the squares
/// back; and the text is made of letters and digits from 1 to 8 and is not
/// empty.
pub proof fn lemma_rank_read_back(squares: Seq<Option<Piece>>)
    requires
        squares.len() == 8,
    ensures
        rank_squares(rank_text(squares)) == Some(squares),
        all_rank_chars(rank_text(squares)),
        rank_text(squares).len() > 0,
{
    lemma_written_pieces_read_back(squares);
    lemma_trailing_empties(squares);
    let run = trailing_empties(squares);
    let before = written_pieces(squares);
    let text = rank_text(squares);
    let kept = squares.take(squares.len() - run);
    if run == 0 {
        assert(text =~= before);
        assert(kept =~= squares);
        assert(squares[7] is Some);
        assert(before.len() > 0) by {
            assert(squares.last() is Some);
        }
    } else {
        assert(text.drop_last() =~= before);
        assert(text.last() == run_char(run));
        assert(run_char(run) as int - '0' as int == run);
        assert(kept + empties(run) =~= squares);
        assert forall|i: int| 0 <= i < text.len() implies is_rank_char(#[trigger] text[i]) by {
            if i < before.len() {
                assert(text[i] == before[i]);
            }
        }
    }
}

/// The position can be written and read again: its board has 64 squares, it
/// has no more than four castling rights, each a king or a queen and none
/// twice, and its en-passant target, if it has one, lies on the board.
pub open spec fn writable(g: GameView) -> bool {
    &&& g.board.len() == 64
    &&& g.castle.len() <= 4
    &&& g.castle.no_duplicates()
    &&& forall|i: int|
        0 <= i < g.castle.len() ==> (#[trigger] g.castle[i]).piece_type == PieceType::King
            || g.castle[i].piece_type == PieceType::Queen
    &&& g.en_passant is Some ==> g.en_passant->0.on_board()
}

/// The texts of the ranks of a board, the eighth rank first.
pub open spec fn rank_texts(bv: Seq<Option<Piece>>) -> Seq<Seq<char>> {
    Seq::new(8, |k: int| rank_text(bv.subrange((7 - k) * 8, (7 - k) * 8 + 8)))
}

/// Writing a board and reading the text gives the board back; and the text
/// holds no white space and is not empty.
pub proof fn lemma_board_read_back(bv: Seq<Option<Piece>>)
    requires
        bv.len() == 64,
    ensures
        board_of_text(board_text(bv)) == Some(bv),
        has_no(board_text(bv), None),
        board_text(bv).len() > 0,
{
    let ranks = rank_texts(bv);
    assert forall|k: int| 0 <= k < 8 implies rank_text(#[trigger] bv.subrange(k * 8, k * 8 + 8))
        == ranks[7 - k] by {}
    lemma_board_text_joins(bv, ranks, 7);
    assert(ranks.skip(0) =~= ranks);
    let text = board_text(bv);
    assert(text == joined(ranks, '/'));
    assert forall|i: int| 0 <= i < ranks.len() implies has_no(#[trigger] ranks[i], Some('/'))
        && has_no(ranks[i], None) && rank_squares(ranks[i]) == Some(
        bv.subrange((7 - i) * 8, (7 - i) * 8 + 8),
    ) && ranks[i].len() > 0 by {
        let row = bv.subrange((7 - i) * 8, (7 - i) * 8 + 8);
        lemma_rank_read_back(row);
        assert forall|j: int| 0 <= j < ranks[i].len() implies !separates(
            Some('/'),
            #[trigger] ranks[i][j],
        ) && !separates(None, ranks[i][j]) by {
            assert(is_rank_char(ranks[i][j]));
        }
    }
    lemma_split_join(ranks, '/', Some('/'));
    lemma_joined_has_no(ranks, '/', None);
    assert(split(text, Some('/')) == ranks);
    assert forall|y: int| 0 <= y < 8 implies rank_ok(#[trigger] ranks[y]) by {
        assert(has_no(ranks[y], None));
    }
    let read = board_of_text(text)->0;
    assert forall|i: int| 0 <= i < 64 implies read[i] == bv[i] by {
        let y = i / 8;
        assert(has_no(ranks[7 - y], None));
        let row = bv.subrange(y * 8, y * 8 + 8);
        assert(rank_squares(ranks[7 - y]) == Some(row));
        assert(row[i % 8] == bv[y * 8 + i % 8]);
    }
    assert(read =~= bv);
    assert(text.len() > 0) by {
        assert(has_no(ranks[7], None));
        reveal_with_fuel(joined, 2);
        let head = joined(ranks.drop_last(), '/');
        assert(text == head + seq!['/'] + ranks.last());
    }
}

/// Writing a position and reading the text gives the position back, as far
/// as the text tells it: for every position that can be written, the text of
/// the position describes a position with the same board, side to move,
/// castling rights and en-passant target, with no history and with move
/// number one.
pub proof fn lemma_fen_read_back(g: GameView)
    requires
        writable(g),
    ensures
        game_of_fen(fen_of_game(g)) is Some,
        game_of_fen(fen_of_game(g))->0.board == g.board,
        game_of_fen(fen_of_game(g))->0.on_turn == g.on_turn,
        game_of_fen(fen_of_game(g))->0.castle == g.castle,
        game_of_fen(fen_of_game(g))->0.en_passant == g.en_passant,
        game_of_fen(fen_of_game(g))->0.moves.len() == 0,
        game_of_fen(fen_of_game(g))->0.fullmove_counter == 1,
        fen_of_game(game_of_fen(fen_of_game(g))->0) == fen_of_game(g),
{
    let board = board_text(g.board);
    let side = side_text(g.on_turn);
    let rights = rights_text(g.castle);
    let target = target_text(g.en_passant);
    let fields = seq![board, side, rights, target, seq!['0'], seq!['1']];
    let text = fen_of_game(g);
    lemma_board_read_back(g.board);
    assert(has_no(rights, None) && rights.len() > 0 && rights_of_text(rights) == Some(g.castle)) by {
        if g.castle.len() > 0 {
            let ls = letters(g.castle);
            assert forall|i: int| 0 <= i < ls.len() implies is_right_letter(#[trigger] ls[i])
                && piece_of_letter(ls[i]) == Some(g.castle[i]) by {
                assert(g.castle[i].piece_type == PieceType::King || g.castle[i].piece_type
                    == PieceType::Queen);
            }
            assert forall|i: int, j: int| 0 <= i < ls.len() && 0 <= j < ls.len() && i != j implies ls[i]
                != ls[j] by {
                assert(is_right_letter(ls[i]) && is_right_letter(ls[j]));
                assert(g.castle[i] != g.castle[j]);
            }
            assert(ls.no_duplicates());
            assert(is_right_letter(ls[0]));
            assert(Seq::new(ls.len(), |i: int| piece_of_letter(ls[i])->0) =~= g.castle);
        }
    }
    assert(has_no(target, None) && target.len() > 0 && target_of_text(target) == Some(
        g.en_passant,
    )) by {
        if g.en_passant is Some {
            assert(g.en_passant->0.on_board());
            assert(target.len() == 2);
            assert(square_of_text(target) == g.en_passant);
        }
    }
    assert(has_no(side, None) && side_of_text(side) == Some(g.on_turn));
    reveal_with_fuel(decimal, 2);
    assert(seq!['1'].drop_last() =~= Seq::<char>::empty());
    assert(count_of_text(fields[5]) == Some(1nat));
    reveal_with_fuel(joined, 7);
    assert(joined(fields, ' ') =~= text);
    assert forall|i: int| 0 <= i < fields.len() implies has_no(#[trigger] fields[i], None)
        && fields[i].len() > 0 by {}
    lemma_split_join(fields, ' ', None);
    lemma_without_empty_keeps(fields);
    assert(words(text) == fields);
}

} // verus!
